//! What holds of a whole run on an accumulator.

use crate::accumulator::{
    drive, lemma_drive_concat, lemma_taken, lemma_taken_concat, Call, TypeAccumulator,
};
use crate::engine::{generated, rendering, result_of, table_left};
use crate::laws::errors::{lemma_emit_fields_errors, numbers_fit};
use crate::laws::names::{lemma_walk_root, numbered};
use crate::laws::rest::{at_rest, lemma_rest_of_object, lemma_root_at_rest, rests};
use crate::plan::{
    emit_fields, fresh_name, lemma_walk_signature_tables, walk_object, walk_root, walk_signature,
    Walk,
};
use crate::table::{canonical, Names};
use crate::types::Error;
use crate::value::Tree;
use vstd::prelude::*;

verus! {

/// A run on a document all of whose numbers are of a kind, on an
/// accumulator that takes every call of the run, gives a text or fails with
/// `DifferingArrayType`. Where it gives a text, every field of the root is
/// at rest in the table that the run left: no array in the document holds
/// elements of two types, and one shape has one name wherever it stands.
pub proof fn lemma_rendering<A: TypeAccumulator>(
    state: A::V,
    name: Seq<char>,
    fields: Seq<(Seq<char>, Tree)>,
)
    ensures
        ({
            let walk = walk_root(A::name_prefix(state), name, fields);
            let run = rendering::<A>(state, name, Tree::Object(fields));
            &&& numbers_fit(Tree::Object(fields)) && drive::<A>(state, walk.calls).refusal is None
                ==> run is Ok || run == Err::<Seq<char>, Error>(Error::DifferingArrayType)
            &&& run is Ok ==> forall|i: int|
                0 <= i < fields.len() ==> at_rest(
                    walk.names,
                    A::name_prefix(state),
                    (#[trigger] fields[i]).1,
                )
        }),
{
    let prefix = A::name_prefix(state);
    let walk = walk_root(prefix, name, fields);
    let run = rendering::<A>(state, name, Tree::Object(fields));
    lemma_emit_fields_errors(Names::empty(), prefix, fields, fields.len());
    if run is Ok {
        assert(walk.outcome is Ok);
        assert forall|i: int| 0 <= i < fields.len() implies at_rest(
            walk.names,
            prefix,
            (#[trigger] fields[i]).1,
        ) by {
            lemma_root_at_rest(prefix, name, fields, i);
        }
    }
}

/// A run on a document one of whose fields is at rest in no numbered
/// table, as one is that holds, however deep, an array with elements of two
/// types, fails; where all numbers of the document are of a kind and the
/// accumulator takes every call of the run, it fails with
/// `DifferingArrayType`.
pub proof fn lemma_mixed_document_fails<A: TypeAccumulator>(
    state: A::V,
    name: Seq<char>,
    fields: Seq<(Seq<char>, Tree)>,
    i: int,
)
    requires
        0 <= i < fields.len(),
        forall|names: Names|
            numbered(names, A::name_prefix(state)) ==> !at_rest(
                names,
                A::name_prefix(state),
                fields[i].1,
            ),
    ensures
        rendering::<A>(state, name, Tree::Object(fields)) is Err,
        numbers_fit(Tree::Object(fields)) && drive::<A>(
            state,
            walk_root(A::name_prefix(state), name, fields).calls,
        ).refusal is None ==> rendering::<A>(state, name, Tree::Object(fields)) == Err::<
            Seq<char>,
            Error,
        >(Error::DifferingArrayType),
{
    let prefix = A::name_prefix(state);
    lemma_rendering::<A>(state, name, fields);
    lemma_walk_root(prefix, name, fields);
    let walk = walk_root(prefix, name, fields);
    if rendering::<A>(state, name, Tree::Object(fields)) is Ok {
        assert(at_rest(walk.names, prefix, fields[i].1));
    }
}

/// Two runs on accumulators in one state, under one name, on one text,
/// come to the same: the same text, or the same error.
pub proof fn lemma_generate_again<A: TypeAccumulator>(
    state: A::V,
    name: Seq<char>,
    read: Result<Tree, Error>,
    first: Result<Seq<char>, Error>,
    second: Result<Seq<char>, Error>,
)
    requires
        first == generated::<A>(state, name, read),
        second == generated::<A>(state, name, read),
    ensures
        first == second,
{
}

/// Where the accumulator turns down the opening of the declaration of an
/// object whose shape has no name yet, the object's walk ends with the
/// accumulator's error, and the table holds what it held when the object's
/// fields were typed: the shape is not put in.
pub proof fn lemma_refused_declaration<A: TypeAccumulator>(
    state: A::V,
    names: Names,
    prefix: Seq<char>,
    fields: Seq<(Seq<char>, Tree)>,
)
    requires
        walk_signature(names, prefix, fields, fields.len()).outcome is Ok,
        ({
            let typed = walk_signature(names, prefix, fields, fields.len());
            let driven = drive::<A>(state, typed.calls);
            &&& !typed.names.contains_key(canonical(typed.outcome->Ok_0))
            &&& driven.refusal is None
            &&& A::refusal(
                driven.state,
                Call::PushObjectType(fresh_name(typed.names, prefix)),
            ) is Some
        }),
    ensures
        ({
            let typed = walk_signature(names, prefix, fields, fields.len());
            let walk = walk_object(names, prefix, fields);
            let push = Call::PushObjectType(fresh_name(typed.names, prefix));
            &&& result_of::<A, Seq<char>>(state, walk) == Err::<Seq<char>, Error>(
                A::refusal(drive::<A>(state, typed.calls).state, push)->Some_0,
            )
            &&& table_left::<A, Seq<char>>(state, walk) == typed.names
            &&& !table_left::<A, Seq<char>>(state, walk).contains_key(
                canonical(typed.outcome->Ok_0),
            )
        }),
{
    let typed = walk_signature(names, prefix, fields, fields.len());
    let walk = walk_object(names, prefix, fields);
    let push = Call::PushObjectType(fresh_name(typed.names, prefix));
    let body = emit_fields(typed.names, prefix, fields, fields.len());
    let opened = typed.calls.push(push);
    let rest = body.calls + if body.outcome is Ok {
        seq![Call::PopObjectType]
    } else {
        Seq::<Call>::empty()
    };
    lemma_walk_signature_tables(names, prefix, fields, fields.len());
    assert(opened.drop_last() =~= typed.calls);
    lemma_taken::<A>(state, typed.calls);
    lemma_drive_concat::<A>(state, opened, rest);
    lemma_taken_concat::<A>(state, opened, rest);
    assert(walk.calls =~= opened + rest);
    assert(walk.tables[typed.calls.len() as int] == typed.names);
}

/// A walk that makes no call and names nothing comes to its own outcome on
/// every accumulator, and leaves the accumulator and the table as they
/// were.
pub proof fn lemma_rest_changes_nothing<A: TypeAccumulator, T>(
    state: A::V,
    names: Names,
    walk: Walk<T>,
)
    requires
        rests(names, walk),
    ensures
        result_of::<A, T>(state, walk) == walk.outcome,
        drive::<A>(state, walk.calls).state == state,
        table_left::<A, T>(state, walk) == names,
{
}

/// An object that is at rest in the table gets the name under which the
/// table holds its shape: no declaration is opened or closed for it, no
/// call is made at all, and the table stays as it is.
pub proof fn lemma_known_object<A: TypeAccumulator>(
    state: A::V,
    names: Names,
    prefix: Seq<char>,
    fields: Seq<(Seq<char>, Tree)>,
)
    requires
        at_rest(names, prefix, Tree::Object(fields)),
    ensures
        ({
            let walk = walk_object(names, prefix, fields);
            let key = canonical(walk_signature(names, prefix, fields, fields.len()).outcome->Ok_0);
            &&& names.contains_key(key)
            &&& result_of::<A, Seq<char>>(state, walk) == Ok::<Seq<char>, Error>(names[key])
            &&& walk.calls == Seq::<Call>::empty()
            &&& drive::<A>(state, walk.calls).state == state
            &&& table_left::<A, Seq<char>>(state, walk) == names
        }),
{
    lemma_rest_of_object(names, prefix, fields);
}

} // verus!
