//! What the accumulators for the languages share: the texts of the
//! declarations that are open, innermost last, and of those that are closed,
//! in the order in which they were closed.

use crate::accumulator::Call;
use vstd::prelude::*;
use vstd::string::*;

verus! {

/// The declarations of an accumulator.
pub struct Declarations {
    /// Whether a field of unknown type was met, so that the text must
    /// declare what stands for it.
    pub use_unknown: bool,
    /// The texts, so far, of the declarations that are open.
    pub open: Seq<Seq<char>>,
    /// The texts of the declarations that are closed.
    pub closed: Seq<Seq<char>>,
}

impl Declarations {
    /// No declaration at all.
    pub open spec fn none() -> Declarations {
        Declarations { use_unknown: false, open: Seq::empty(), closed: Seq::empty() }
    }

    /// The declarations after `call`, for which the language writes `text`:
    /// a declaration that opens starts with it, one that closes ends with
    /// it, a field adds it to the innermost open declaration. `unknown`
    /// says whether a field is of unknown type. Without an open
    /// declaration nothing but an opening changes anything.
    pub open spec fn step(self, call: Call, text: Seq<char>, unknown: bool) -> Declarations {
        match call {
            Call::PushObjectType(_) => Declarations { open: self.open.push(text), ..self },
            _ => if self.open.len() == 0 {
                self
            } else if call is PopObjectType {
                Declarations {
                    open: self.open.drop_last(),
                    closed: self.closed.push(self.open.last() + text),
                    ..self
                }
            } else {
                Declarations {
                    use_unknown: self.use_unknown || unknown,
                    open: self.open.update(self.open.len() - 1, self.open.last() + text),
                    ..self
                }
            },
        }
    }
}

/// Whether a call gives a field whose type is unknown somewhere: a field
/// of which nothing is known, or arrays of such.
pub open spec fn names_unknown(call: Call) -> bool {
    match call {
        Call::Unknown(_) => true,
        Call::Array(_, element) => element.innermost() is Null,
        _ => false,
    }
}

/// The texts of a list of strings.
pub open spec fn texts(strings: Seq<String>) -> Seq<Seq<char>> {
    Seq::new(strings.len(), |i: int| strings[i]@)
}

/// The texts one after the other.
pub open spec fn concat(parts: Seq<Seq<char>>) -> Seq<char>
    decreases parts.len(),
{
    if parts.len() == 0 {
        Seq::empty()
    } else {
        concat(parts.drop_last()) + parts.last()
    }
}

/// Opens a declaration that starts with `header`.
pub(crate) fn open_with(stack: &mut Vec<String>, header: String)
    ensures
        texts(final(stack)@) == texts(old(stack)@).push(header@),
{
    stack.push(header);
    assert(texts(stack@) =~= texts(old(stack)@).push(header@));
}

/// Adds `text` to the innermost open declaration.
pub(crate) fn add_to_current(stack: &mut Vec<String>, text: &str)
    requires
        old(stack)@.len() > 0,
    ensures
        texts(final(stack)@) == texts(old(stack)@).update(
            old(stack)@.len() - 1,
            texts(old(stack)@).last() + text@,
        ),
{
    let n = stack.len();
    stack[n - 1].append(text);
    assert(texts(stack@) =~= texts(old(stack)@).update(
        old(stack)@.len() - 1,
        texts(old(stack)@).last() + text@,
    ));
}

/// Ends the innermost open declaration with `footer` and moves it to the
/// closed ones.
pub(crate) fn close_current(stack: &mut Vec<String>, done: &mut Vec<String>, footer: &str)
    requires
        old(stack)@.len() > 0,
    ensures
        texts(final(stack)@) == texts(old(stack)@).drop_last(),
        texts(final(done)@) == texts(old(done)@).push(texts(old(stack)@).last() + footer@),
{
    let mut s = stack.pop().unwrap();
    s.append(footer);
    done.push(s);
    assert(texts(stack@) =~= texts(old(stack)@).drop_last());
    assert(texts(done@) =~= texts(old(done)@).push(texts(old(stack)@).last() + footer@));
}

/// Adds all of `parts` to `out`, in order.
pub(crate) fn add_all(out: &mut String, parts: &Vec<String>)
    ensures
        final(out)@ == old(out)@ + concat(texts(parts@)),
{
    let mut i: usize = 0;
    assert(texts(parts@).subrange(0, 0) =~= Seq::empty());
    assert(out@ =~= old(out)@ + concat(Seq::empty()));
    while i < parts.len()
        invariant
            i <= parts@.len(),
            out@ == old(out)@ + concat(texts(parts@).subrange(0, i as int)),
        decreases parts@.len() - i,
    {
        out.append(parts[i].as_str());
        proof {
            let next = texts(parts@).subrange(0, i + 1);
            assert(next.drop_last() =~= texts(parts@).subrange(0, i as int));
            assert(next.last() == parts@[i as int]@);
            assert(out@ =~= old(out)@ + concat(next));
        }
        i = i + 1;
    }
    assert(texts(parts@).subrange(0, parts@.len() as int) =~= texts(parts@));
}

} // verus!
