//! What the engine asks of an accumulator, and what a run of calls does to
//! one.

use crate::types::{Error, JsonType, Number, Shape};
use vstd::prelude::*;

verus! {

/// One call that the engine makes on an accumulator.
pub enum Call {
    /// `push_object_type`: a declaration opens under this name.
    PushObjectType(Seq<char>),
    /// `pop_object_type`: the innermost open declaration closes.
    PopObjectType,
    /// `number`: a field of this name and kind of number.
    Number(Seq<char>, Number),
    /// `boolean`: a field of this name.
    Boolean(Seq<char>),
    /// `string`: a field of this name.
    String(Seq<char>),
    /// `unknown`: a field of this name, of which nothing is known.
    Unknown(Seq<char>),
    /// `array`: a field of this name, an array of elements of this type.
    Array(Seq<char>, Shape),
    /// `object`: a field of this name, an object of the declaration of
    /// that name.
    Object(Seq<char>, Seq<char>),
}

impl Call {
    /// How many declarations are open after this call, where `depth` were
    /// open before it.
    pub open spec fn depth_after(self, depth: nat) -> nat {
        match self {
            Call::PushObjectType(_) => depth + 1,
            Call::PopObjectType => if depth > 0 {
                (depth - 1) as nat
            } else {
                0
            },
            _ => depth,
        }
    }
}

/// A code generator for one language. The engine opens a declaration, gives
/// its fields in the document's order, and closes it; a declaration that a
/// field needs is opened and closed before that field is given.
///
/// An accumulator is read through its view. What a call does is a function
/// of the view before it: `refusal` says whether the call is turned down
/// and with which error, `apply` gives the view after the call.
pub trait TypeAccumulator: View {
    /// How many declarations are open.
    spec fn open_types(state: Self::V) -> nat;

    /// The stem of the names that declarations without a name of their own
    /// get.
    spec fn name_prefix(state: Self::V) -> Seq<char>;

    /// The error with which `call` is turned down in `state`, if it is.
    spec fn refusal(state: Self::V, call: Call) -> Option<Error>;

    /// The state after `call`, whether it is taken or turned down.
    spec fn apply(state: Self::V, call: Call) -> Self::V;

    /// The text that `end` gives in `state`.
    spec fn rendered(state: Self::V) -> Seq<char>;

    /// The state in which `end` leaves an accumulator that was in `state`.
    spec fn ended(state: Self::V) -> Self::V;

    /// A call that is taken leaves the stem as it is, and opens or closes
    /// no declaration but the one it names.
    proof fn lemma_taken_call(state: Self::V, call: Call)
        requires
            Self::refusal(state, call) is None,
        ensures
            Self::name_prefix(Self::apply(state, call)) == Self::name_prefix(state),
            Self::open_types(Self::apply(state, call)) == call.depth_after(
                Self::open_types(state),
            ),
    ;

    /// The text for all that the accumulator took.
    fn end(&mut self) -> (text: String)
        ensures
            text@ == Self::rendered(old(self)@),
            final(self)@ == Self::ended(old(self)@),
    ;

    /// Takes a field that is a number. A declaration must be open.
    fn number(&mut self, key: &str, number: Number) -> (r: Result<(), Error>)
        requires
            Self::open_types(old(self)@) > 0,
        ensures
            final(self)@ == Self::apply(old(self)@, Call::Number(key@, number)),
            r == match Self::refusal(old(self)@, Call::Number(key@, number)) {
                Some(e) => Err::<(), Error>(e),
                None => Ok::<(), Error>(()),
            },
    ;

    /// Takes a field that is a boolean. A declaration must be open.
    fn boolean(&mut self, key: &str) -> (r: Result<(), Error>)
        requires
            Self::open_types(old(self)@) > 0,
        ensures
            final(self)@ == Self::apply(old(self)@, Call::Boolean(key@)),
            r == match Self::refusal(old(self)@, Call::Boolean(key@)) {
                Some(e) => Err::<(), Error>(e),
                None => Ok::<(), Error>(()),
            },
    ;

    /// Takes a field that is a string. A declaration must be open.
    fn string(&mut self, key: &str) -> (r: Result<(), Error>)
        requires
            Self::open_types(old(self)@) > 0,
        ensures
            final(self)@ == Self::apply(old(self)@, Call::String(key@)),
            r == match Self::refusal(old(self)@, Call::String(key@)) {
                Some(e) => Err::<(), Error>(e),
                None => Ok::<(), Error>(()),
            },
    ;

    /// Takes a field of which nothing is known. A declaration must be
    /// open.
    fn unknown(&mut self, key: &str) -> (r: Result<(), Error>)
        requires
            Self::open_types(old(self)@) > 0,
        ensures
            final(self)@ == Self::apply(old(self)@, Call::Unknown(key@)),
            r == match Self::refusal(old(self)@, Call::Unknown(key@)) {
                Some(e) => Err::<(), Error>(e),
                None => Ok::<(), Error>(()),
            },
    ;

    /// Takes a field that is an array of elements of the type `ty`. A
    /// declaration must be open.
    fn array(&mut self, key: &str, ty: JsonType) -> (r: Result<(), Error>)
        requires
            Self::open_types(old(self)@) > 0,
        ensures
            final(self)@ == Self::apply(old(self)@, Call::Array(key@, ty@)),
            r == match Self::refusal(old(self)@, Call::Array(key@, ty@)) {
                Some(e) => Err::<(), Error>(e),
                None => Ok::<(), Error>(()),
            },
    ;

    /// Takes a field that is an object of the declaration `object_name`. A
    /// declaration must be open.
    fn object(&mut self, key: &str, object_name: &str) -> (r: Result<(), Error>)
        requires
            Self::open_types(old(self)@) > 0,
        ensures
            final(self)@ == Self::apply(old(self)@, Call::Object(key@, object_name@)),
            r == match Self::refusal(old(self)@, Call::Object(key@, object_name@)) {
                Some(e) => Err::<(), Error>(e),
                None => Ok::<(), Error>(()),
            },
    ;

    /// Opens a declaration under `object_name`, inside the one that is open,
    /// if one is.
    fn push_object_type(&mut self, object_name: &str) -> (r: Result<(), Error>)
        ensures
            final(self)@ == Self::apply(old(self)@, Call::PushObjectType(object_name@)),
            r == match Self::refusal(old(self)@, Call::PushObjectType(object_name@)) {
                Some(e) => Err::<(), Error>(e),
                None => Ok::<(), Error>(()),
            },
    ;

    /// Closes the innermost open declaration. One must be open.
    fn pop_object_type(&mut self) -> (r: Result<(), Error>)
        requires
            Self::open_types(old(self)@) > 0,
        ensures
            final(self)@ == Self::apply(old(self)@, Call::PopObjectType),
            r == match Self::refusal(old(self)@, Call::PopObjectType) {
                Some(e) => Err::<(), Error>(e),
                None => Ok::<(), Error>(()),
            },
    ;

    /// The stem of the names for declarations without a name of their own.
    fn prefered_object_name(&self) -> (name: String)
        ensures
            name@ == Self::name_prefix(self@),
    ;
}

/// Where a run of calls leaves an accumulator.
pub struct Driven<S> {
    /// The state after the last call that was made.
    pub state: S,
    /// The error of the first call that was turned down, if one was; no
    /// call is made after it.
    pub refusal: Option<Error>,
}

/// Makes `calls` in turn on an accumulator in `state`, up to the first that
/// it turns down.
pub open spec fn drive<A: TypeAccumulator>(state: A::V, calls: Seq<Call>) -> Driven<A::V>
    decreases calls.len(),
{
    if calls.len() == 0 {
        Driven { state, refusal: None }
    } else {
        let before = drive::<A>(state, calls.drop_last());
        if before.refusal is Some {
            before
        } else {
            Driven {
                state: A::apply(before.state, calls.last()),
                refusal: A::refusal(before.state, calls.last()),
            }
        }
    }
}

/// Driving two runs of calls one after the other is driving them as one.
pub proof fn lemma_drive_concat<A: TypeAccumulator>(
    state: A::V,
    first: Seq<Call>,
    second: Seq<Call>,
)
    ensures
        drive::<A>(state, first + second) == if drive::<A>(state, first).refusal is Some {
            drive::<A>(state, first)
        } else {
            drive::<A>(drive::<A>(state, first).state, second)
        },
    decreases second.len(),
{
    if second.len() == 0 {
        assert(first + second =~= first);
    } else {
        lemma_drive_concat::<A>(state, first, second.drop_last());
        assert((first + second).drop_last() =~= first + second.drop_last());
        assert((first + second).last() == second.last());
    }
}

/// Driving one call.
pub proof fn lemma_drive_one<A: TypeAccumulator>(state: A::V, call: Call)
    ensures
        drive::<A>(state, seq![call]) == (Driven::<A::V> {
            state: A::apply(state, call),
            refusal: A::refusal(state, call),
        }),
{
    assert(seq![call].drop_last() =~= Seq::<Call>::empty());
    assert(drive::<A>(state, Seq::<Call>::empty()) == Driven::<A::V> { state, refusal: None });
    assert(drive::<A>(state, seq![call].drop_last()) == Driven::<A::V> { state, refusal: None });
}

/// How many of `calls` an accumulator in `state` takes before it turns one
/// down: all of them if it turns none down.
pub open spec fn taken<A: TypeAccumulator>(state: A::V, calls: Seq<Call>) -> nat
    decreases calls.len(),
{
    if calls.len() == 0 {
        0
    } else {
        let before = drive::<A>(state, calls.drop_last());
        if before.refusal is Some || A::refusal(before.state, calls.last()) is Some {
            taken::<A>(state, calls.drop_last())
        } else {
            calls.len()
        }
    }
}

/// An accumulator takes all calls exactly when it turns none down; else
/// the number of calls taken is the place of the call that is turned down.
pub proof fn lemma_taken<A: TypeAccumulator>(state: A::V, calls: Seq<Call>)
    ensures
        taken::<A>(state, calls) <= calls.len(),
        taken::<A>(state, calls) == calls.len() <==> drive::<A>(state, calls).refusal is None,
    decreases calls.len(),
{
    if calls.len() > 0 {
        lemma_taken::<A>(state, calls.drop_last());
    }
}

/// The calls taken of two runs one after the other.
pub proof fn lemma_taken_concat<A: TypeAccumulator>(
    state: A::V,
    first: Seq<Call>,
    second: Seq<Call>,
)
    ensures
        taken::<A>(state, first + second) == if drive::<A>(state, first).refusal is Some {
            taken::<A>(state, first)
        } else {
            first.len() + taken::<A>(drive::<A>(state, first).state, second)
        },
    decreases second.len(),
{
    lemma_taken::<A>(state, first);
    if second.len() == 0 {
        assert(first + second =~= first);
    } else {
        lemma_taken_concat::<A>(state, first, second.drop_last());
        lemma_drive_concat::<A>(state, first, second.drop_last());
        assert((first + second).drop_last() =~= first + second.drop_last());
        assert((first + second).last() == second.last());
        lemma_taken::<A>(drive::<A>(state, first).state, second.drop_last());
    }
}

} // verus!
