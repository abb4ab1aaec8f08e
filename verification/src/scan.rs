//! Which fractions the parser cannot count: a number that begins with a
//! zero and a point, with more digits behind the point than the parser's
//! exponent has room for.

use vstd::prelude::*;
use vstd::string::*;

verus! {

/// The byte of a double quote.
pub const QUOTE: u8 = 34;

/// The byte of a point.
pub const POINT: u8 = 46;

/// The byte of the digit zero.
pub const ZERO: u8 = 48;

/// The byte of a backslash.
pub const BACKSLASH: u8 = 92;

/// The most digits behind a point that the parser can count: it counts
/// them down from zero in an `i16`.
pub const EXPONENT_ROOM: usize = 32768;

/// Where a byte of a text stands.
pub enum Place {
    /// Outside every string.
    Outside,
    /// Inside a string.
    Inside,
    /// Inside a string, behind a backslash.
    Escaped,
}

/// Whether a byte is a decimal digit.
pub open spec fn is_digit(byte: u8) -> bool {
    48 <= byte <= 57
}

/// Where the byte behind `byte` stands, where `byte` stands at `place`: a
/// double quote opens a string and closes it, and inside a string the byte
/// behind a backslash is no double quote that closes it.
pub open spec fn place_after(place: Place, byte: u8) -> Place {
    match place {
        Place::Outside => if byte == QUOTE {
            Place::Inside
        } else {
            Place::Outside
        },
        Place::Inside => if byte == QUOTE {
            Place::Outside
        } else if byte == BACKSLASH {
            Place::Escaped
        } else {
            Place::Inside
        },
        Place::Escaped => Place::Inside,
    }
}

/// Where the byte at `at` stands.
pub open spec fn place_at(bytes: Seq<u8>, at: int) -> Place
    decreases at,
{
    if at <= 0 || at > bytes.len() {
        Place::Outside
    } else {
        place_after(place_at(bytes, at - 1), bytes[at - 1])
    }
}

/// How many of the digits that stand at `at` and behind it the parser
/// counts, where the digits read before them make `mantissa`: a digit
/// counts where ten times the mantissa and the digit is a number that a
/// `u64` holds, which is then the mantissa; any other digit is passed over.
pub open spec fn counted(bytes: Seq<u8>, at: int, mantissa: int) -> nat
    decreases bytes.len() - at,
{
    if at < 0 || at >= bytes.len() || !is_digit(bytes[at]) {
        0
    } else if mantissa * 10 + (bytes[at] - ZERO) <= u64::MAX {
        1 + counted(bytes, at + 1, mantissa * 10 + (bytes[at] - ZERO))
    } else {
        counted(bytes, at + 1, mantissa)
    }
}

/// Whether a point stands at `at`, outside every string, behind a single
/// zero, with more counted digits behind it than the parser has room for.
pub open spec fn danger_at(bytes: Seq<u8>, at: int) -> bool {
    &&& 1 <= at < bytes.len()
    &&& place_at(bytes, at) is Outside
    &&& bytes[at] == POINT
    &&& bytes[at - 1] == ZERO
    &&& at >= 2 ==> !is_digit(bytes[at - 2])
    &&& counted(bytes, at + 1, 0) > EXPONENT_ROOM
}

/// Whether a text holds a fraction that the parser cannot count.
pub open spec fn has_danger(bytes: Seq<u8>) -> bool {
    exists|at: int| danger_at(bytes, at)
}

/// Whether the first fraction that the parser cannot count has its point
/// at `at`.
pub open spec fn is_first_danger(bytes: Seq<u8>, at: int) -> bool {
    danger_at(bytes, at) && forall|before: int| before < at ==> !danger_at(bytes, before)
}

/// Where the point of the first fraction stands that the parser cannot
/// count, in a text that holds one.
pub open spec fn first_danger(bytes: Seq<u8>) -> int {
    choose|at: int| is_first_danger(bytes, at)
}

/// There is one first.
pub proof fn lemma_first_danger(bytes: Seq<u8>, at: int)
    requires
        is_first_danger(bytes, at),
    ensures
        has_danger(bytes),
        first_danger(bytes) == at,
{
    let chosen = first_danger(bytes);
    assert(is_first_danger(bytes, chosen));
    if chosen < at {
        assert(!danger_at(bytes, chosen));
    }
    if at < chosen {
        assert(!danger_at(bytes, at));
    }
}

/// Counts the digits at `at` and behind it as the parser does, from a
/// mantissa of zero.
fn count_digits(bytes: &[u8], at: usize) -> (r: usize)
    requires
        at <= bytes@.len(),
    ensures
        r == counted(bytes@, at as int, 0),
{
    let mut i: usize = at;
    let mut mantissa: u64 = 0;
    let mut count: usize = 0;
    while i < bytes.len() && 48 <= bytes[i] && bytes[i] <= 57
        invariant
            at <= i <= bytes@.len(),
            count <= i - at,
            counted(bytes@, at as int, 0) == count + counted(bytes@, i as int, mantissa as int),
        decreases bytes@.len() - i,
    {
        let digit = bytes[i] - ZERO;
        let next: u128 = mantissa as u128 * 10 + digit as u128;
        if next <= 0xffff_ffff_ffff_ffff {
            mantissa = next as u64;
            count = count + 1;
        }
        i = i + 1;
    }
    count
}

/// Looks for the first fraction that the parser cannot count, and gives
/// where its point stands.
pub fn find_danger(text: &str) -> (r: Option<usize>)
    ensures
        match r {
            Some(at) => is_first_danger(text.spec_bytes(), at as int) && at + 2
                <= text.spec_bytes().len() && at + 2 <= usize::MAX,
            None => !has_danger(text.spec_bytes()),
        },
{
    let bytes = text.as_bytes();
    let mut i: usize = 0;
    let mut place = Place::Outside;
    while i < bytes.len()
        invariant
            i <= bytes@.len(),
            bytes@ == text.spec_bytes(),
            place == place_at(bytes@, i as int),
            forall|before: int| before < i ==> !danger_at(bytes@, before),
        decreases bytes@.len() - i,
    {
        let byte = bytes[i];
        let outside = match place {
            Place::Outside => true,
            _ => false,
        };
        if outside && byte == POINT && i >= 1 && bytes[i - 1] == ZERO && (i < 2 || !(48 <= bytes[i
            - 2] && bytes[i - 2] <= 57)) {
            let count = count_digits(bytes, i + 1);
            if count > EXPONENT_ROOM {
                assert(i + 1 < bytes@.len());
                return Some(i);
            }
        }
        assert(!danger_at(bytes@, i as int));
        assert(place_at(bytes@, i + 1) == place_after(place_at(bytes@, i as int), bytes@[i as int]));
        place = match place {
            Place::Outside => if byte == QUOTE {
                Place::Inside
            } else {
                Place::Outside
            },
            Place::Inside => if byte == QUOTE {
                Place::Outside
            } else if byte == BACKSLASH {
                Place::Escaped
            } else {
                Place::Inside
            },
            Place::Escaped => Place::Inside,
        };
        i = i + 1;
    }
    assert forall|at: int| !danger_at(bytes@, at) by {
        if at >= bytes@.len() {
        }
    }
    None
}

} // verus!
