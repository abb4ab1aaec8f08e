//! What is at rest after a run: one shape has one name wherever it stands
//! in the document, and no array holds elements of two types.

use crate::accumulator::Call;
use crate::plan::idle;
use crate::laws::names::{
    lemma_emit_field, lemma_emit_typed_fields, lemma_submap_trans, lemma_walk_object,
    lemma_walk_signature, lemma_walk_value,
};
use crate::laws::order::lemma_canonical_of_same_fields;
use crate::plan::{
    emit_field, emit_fields, fresh_name, Walk, walk_array, walk_items, walk_object, walk_root,
    walk_signature, walk_value,
};
use crate::table::{canonical, Names};
use crate::types::{Error, Shape};
use crate::value::{distinct_names, Tree};
use vstd::prelude::*;

verus! {

/// Where the first `n` elements of an array have the type, so have the
/// first `k` of them, and the names then are still there.
pub proof fn lemma_walk_items_before(
    names: Names,
    prefix: Seq<char>,
    items: Seq<Tree>,
    overall: Shape,
    k: nat,
    n: nat,
)
    requires
        k <= n <= items.len(),
        walk_items(names, prefix, items, overall, n).outcome is Ok,
    ensures
        walk_items(names, prefix, items, overall, k).outcome is Ok,
        walk_items(names, prefix, items, overall, k).names.submap_of(
            walk_items(names, prefix, items, overall, n).names,
        ),
    decreases n,
{
    if k < n {
        let before = walk_items(names, prefix, items, overall, (n - 1) as nat);
        lemma_walk_items_before(names, prefix, items, overall, k, (n - 1) as nat);
        lemma_walk_value(before.names, prefix, items[n - 1]);
        lemma_submap_trans(
            walk_items(names, prefix, items, overall, k).names,
            before.names,
            walk_items(names, prefix, items, overall, n).names,
        );
    }
}

/// Where the first `n` fields of an object were typed, so were the first
/// `k` of them, and the names then are still there.
pub proof fn lemma_walk_signature_before(
    names: Names,
    prefix: Seq<char>,
    fields: Seq<(Seq<char>, Tree)>,
    k: nat,
    n: nat,
)
    requires
        k <= n <= fields.len(),
        walk_signature(names, prefix, fields, n).outcome is Ok,
    ensures
        walk_signature(names, prefix, fields, k).outcome is Ok,
        walk_signature(names, prefix, fields, k).names.submap_of(
            walk_signature(names, prefix, fields, n).names,
        ),
    decreases n,
{
    if k < n {
        let before = walk_signature(names, prefix, fields, (n - 1) as nat);
        lemma_walk_signature_before(names, prefix, fields, k, (n - 1) as nat);
        lemma_walk_value(before.names, prefix, fields[n - 1].1);
        lemma_submap_trans(
            walk_signature(names, prefix, fields, k).names,
            before.names,
            walk_signature(names, prefix, fields, n).names,
        );
    }
}

/// Where the first `n` fields of an object were given to the accumulator,
/// so were the first `k` of them, and the names then are still there.
pub proof fn lemma_emit_fields_before(
    names: Names,
    prefix: Seq<char>,
    fields: Seq<(Seq<char>, Tree)>,
    k: nat,
    n: nat,
)
    requires
        k <= n <= fields.len(),
        emit_fields(names, prefix, fields, n).outcome is Ok,
    ensures
        emit_fields(names, prefix, fields, k).outcome is Ok,
        emit_fields(names, prefix, fields, k).names.submap_of(
            emit_fields(names, prefix, fields, n).names,
        ),
    decreases n,
{
    if k < n {
        let before = emit_fields(names, prefix, fields, (n - 1) as nat);
        lemma_emit_fields_before(names, prefix, fields, k, (n - 1) as nat);
        lemma_emit_field(before.names, prefix, fields[n - 1].0, fields[n - 1].1);
        lemma_submap_trans(
            emit_fields(names, prefix, fields, k).names,
            before.names,
            emit_fields(names, prefix, fields, n).names,
        );
    }
}

/// Whether a walk changes nothing and comes to no error.
pub open spec fn rests<T>(names: Names, walk: Walk<T>) -> bool {
    walk.names == names && walk.calls == Seq::<Call>::empty() && walk.outcome is Ok
}

/// Whether a value is at rest in a table: every object in it, however deep,
/// has a name in the table, every array in it has elements of one type, and
/// every number in it is of a kind, so that the walk of any part of it
/// changes nothing and comes to no error.
pub open spec fn at_rest(names: Names, prefix: Seq<char>, value: Tree) -> bool
    decreases value,
{
    &&& rests(names, walk_value(names, prefix, value))
    &&& match value {
        Tree::Array(items) => forall|i: int|
            0 <= i < items.len() ==> at_rest(names, prefix, #[trigger] items[i]),
        Tree::Object(fields) => forall|i: int|
            0 <= i < fields.len() ==> at_rest(names, prefix, (#[trigger] fields[i]).1),
        _ => true,
    }
}

/// A value that was walked without an error is at rest in every table that
/// holds the names its walk left: after a run that came to no error, the
/// same shape has the same name wherever it stands in the document, and no
/// array holds elements of two types.
pub proof fn lemma_at_rest(names: Names, prefix: Seq<char>, value: Tree, later: Names)
    requires
        walk_value(names, prefix, value).outcome is Ok,
        walk_value(names, prefix, value).names.submap_of(later),
    ensures
        at_rest(later, prefix, value),
    decreases value,
{
    lemma_walk_value(names, prefix, value);
    match value {
        Tree::Array(items) => {
            let walk = walk_array(names, prefix, items);
            if items.len() > 0 {
                let first = walk_value(names, prefix, items[0]);
                let overall = first.outcome->Ok_0;
                let n = items.len();
                assert forall|i: int| 0 <= i < items.len() implies at_rest(
                    later,
                    prefix,
                    #[trigger] items[i],
                ) by {
                    lemma_walk_items_before(first.names, prefix, items, overall, (i + 1) as nat, n);
                    lemma_walk_items_before(
                        first.names,
                        prefix,
                        items,
                        overall,
                        i as nat,
                        (i + 1) as nat,
                    );
                    let before = walk_items(first.names, prefix, items, overall, i as nat);
                    let item = walk_value(before.names, prefix, items[i]);
                    lemma_submap_trans(item.names, walk.names, later);
                    lemma_at_rest(before.names, prefix, items[i], later);
                }
            }
        },
        Tree::Object(fields) => {
            let walk = walk_object(names, prefix, fields);
            let typed = walk_signature(names, prefix, fields, fields.len());
            let n = fields.len();
            lemma_walk_object(names, prefix, fields);
            assert(typed.names.submap_of(walk.names)) by {
                if !typed.names.contains_key(canonical(typed.outcome->Ok_0)) {
                    lemma_emit_typed_fields(names, prefix, fields, n, typed.names);
                }
            }
            assert forall|i: int| 0 <= i < fields.len() implies at_rest(
                later,
                prefix,
                (#[trigger] fields[i]).1,
            ) by {
                lemma_walk_signature_before(names, prefix, fields, (i + 1) as nat, n);
                lemma_walk_signature_before(names, prefix, fields, i as nat, (i + 1) as nat);
                let before = walk_signature(names, prefix, fields, i as nat);
                let field = walk_value(before.names, prefix, fields[i].1);
                lemma_submap_trans(field.names, typed.names, walk.names);
                lemma_submap_trans(field.names, walk.names, later);
                lemma_at_rest(before.names, prefix, fields[i].1, later);
            }
        },
        _ => {},
    }
}

/// The fields of the root of a run that came to no error are at rest in the
/// table that the run left.
pub proof fn lemma_root_at_rest(
    prefix: Seq<char>,
    root_name: Seq<char>,
    fields: Seq<(Seq<char>, Tree)>,
    i: int,
)
    requires
        0 <= i < fields.len(),
        walk_root(prefix, root_name, fields).outcome is Ok,
    ensures
        at_rest(walk_root(prefix, root_name, fields).names, prefix, fields[i].1),
{
    let walk = walk_root(prefix, root_name, fields);
    lemma_emit_fields_before(Names::empty(), prefix, fields, (i + 1) as nat, fields.len());
    lemma_emit_fields_before(Names::empty(), prefix, fields, i as nat, (i + 1) as nat);
    let before = emit_fields(Names::empty(), prefix, fields, i as nat);
    let after = emit_fields(Names::empty(), prefix, fields, (i + 1) as nat);
    let value = fields[i].1;
    let field = emit_field(before.names, prefix, fields[i].0, value);
    let typed = walk_value(before.names, prefix, value);
    assert(after.names == field.names && field.outcome is Ok);
    assert(typed.names == field.names && typed.outcome is Ok);
    assert(walk.names == emit_fields(Names::empty(), prefix, fields, fields.len()).names);
    lemma_at_rest(before.names, prefix, value, walk.names);
}

/// An object at rest has a signature with a name in the table.
pub proof fn lemma_rest_of_object(names: Names, prefix: Seq<char>, fields: Seq<(Seq<char>, Tree)>)
    requires
        rests(names, walk_object(names, prefix, fields)),
    ensures
        ({
            let typed = walk_signature(names, prefix, fields, fields.len());
            &&& rests(names, typed)
            &&& names.contains_key(canonical(typed.outcome->Ok_0))
            &&& walk_object(names, prefix, fields).outcome == Ok::<Seq<char>, Error>(
                names[canonical(typed.outcome->Ok_0)],
            )
        }),
{
    let walk = walk_object(names, prefix, fields);
    let typed = walk_signature(names, prefix, fields, fields.len());
    assert(typed.outcome is Ok);
    let key = canonical(typed.outcome->Ok_0);
    if !typed.names.contains_key(key) {
        let name = fresh_name(typed.names, prefix);
        let body = emit_fields(typed.names, prefix, fields, fields.len());
        let so_far = typed.calls.push(Call::PushObjectType(name)) + body.calls;
        assert(so_far.len() >= 1);
        assert(walk.calls.len() >= 1);
    }
}

/// In a table in which two objects are at rest, they have one name where
/// their fields have the same names and types, in whatever order.
pub proof fn lemma_objects_share_name(
    names: Names,
    prefix: Seq<char>,
    first: Seq<(Seq<char>, Tree)>,
    second: Seq<(Seq<char>, Tree)>,
)
    requires
        at_rest(names, prefix, Tree::Object(first)),
        at_rest(names, prefix, Tree::Object(second)),
        canonical(walk_signature(names, prefix, first, first.len()).outcome->Ok_0) == canonical(
            walk_signature(names, prefix, second, second.len()).outcome->Ok_0,
        ),
    ensures
        walk_object(names, prefix, first).outcome == walk_object(names, prefix, second).outcome,
{
    let a = walk_signature(names, prefix, first, first.len());
    let b = walk_signature(names, prefix, second, second.len());
    let key = canonical(a.outcome->Ok_0);
    lemma_walk_signature(names, prefix, first, first.len());
    lemma_walk_signature(names, prefix, second, second.len());
    lemma_rest_of_object(names, prefix, first);
    lemma_rest_of_object(names, prefix, second);
}

/// The signature of an object has the names of the object's fields, in
/// their order; so where no two fields of the object have one name, no two
/// of the signature have.
pub proof fn lemma_signature_names(
    names: Names,
    prefix: Seq<char>,
    fields: Seq<(Seq<char>, Tree)>,
    n: nat,
)
    requires
        n <= fields.len(),
        walk_signature(names, prefix, fields, n).outcome is Ok,
    ensures
        ({
            let signature = walk_signature(names, prefix, fields, n).outcome->Ok_0;
            &&& signature.len() == n
            &&& forall|i: int| 0 <= i < n ==> (#[trigger] signature[i]).0 == fields[i].0
            &&& distinct_names(fields) ==> distinct_names(signature)
        }),
    decreases n,
{
    if n > 0 {
        lemma_signature_names(names, prefix, fields, (n - 1) as nat);
        let before = walk_signature(names, prefix, fields, (n - 1) as nat).outcome->Ok_0;
        let signature = walk_signature(names, prefix, fields, n).outcome->Ok_0;
        assert forall|i: int| 0 <= i < n implies (#[trigger] signature[i]).0 == fields[i].0 by {
            if i < n - 1 {
                assert(signature[i] == before[i]);
            }
        }
    }
}

/// In a table in which two objects are at rest, they have one name where
/// they have the same fields of the same types, in whatever order: objects
/// of one shape share one declaration wherever they stand in a document.
/// No field name stands twice in either, as in every document that is read
/// from a text.
pub proof fn lemma_same_fields_same_name(
    names: Names,
    prefix: Seq<char>,
    first: Seq<(Seq<char>, Tree)>,
    second: Seq<(Seq<char>, Tree)>,
)
    requires
        at_rest(names, prefix, Tree::Object(first)),
        at_rest(names, prefix, Tree::Object(second)),
        distinct_names(first),
        distinct_names(second),
        forall|field: (Seq<char>, Shape)|
            walk_signature(names, prefix, first, first.len()).outcome->Ok_0.contains(field)
                <==> walk_signature(names, prefix, second, second.len()).outcome->Ok_0.contains(
                field,
            ),
    ensures
        walk_object(names, prefix, first).outcome == walk_object(names, prefix, second).outcome,
{
    lemma_rest_of_object(names, prefix, first);
    lemma_rest_of_object(names, prefix, second);
    lemma_signature_names(names, prefix, first, first.len());
    lemma_signature_names(names, prefix, second, second.len());
    lemma_canonical_of_same_fields(
        walk_signature(names, prefix, first, first.len()).outcome->Ok_0,
        walk_signature(names, prefix, second, second.len()).outcome->Ok_0,
    );
    lemma_objects_share_name(names, prefix, first, second);
}

/// Every element of an array that has a type has that type: typed from any
/// table that holds the names the array's walk left, each gives the type of
/// the array's elements, without a call.
pub proof fn lemma_array_elements_agree(
    names: Names,
    prefix: Seq<char>,
    items: Seq<Tree>,
    i: int,
    later: Names,
)
    requires
        0 <= i < items.len(),
        walk_array(names, prefix, items).outcome is Ok,
        walk_array(names, prefix, items).names.submap_of(later),
    ensures
        walk_value(later, prefix, items[i]) == idle(
            later,
            walk_array(names, prefix, items).outcome,
        ),
{
    let walk = walk_array(names, prefix, items);
    let first = walk_value(names, prefix, items[0]);
    let overall = first.outcome->Ok_0;
    let n = items.len();
    lemma_walk_items_before(first.names, prefix, items, overall, (i + 1) as nat, n);
    lemma_walk_items_before(first.names, prefix, items, overall, i as nat, (i + 1) as nat);
    let before = walk_items(first.names, prefix, items, overall, i as nat);
    let after = walk_items(first.names, prefix, items, overall, (i + 1) as nat);
    let item = walk_value(before.names, prefix, items[i]);
    lemma_walk_value(before.names, prefix, items[i]);
    assert(item.outcome == Ok::<Shape, Error>(overall));
    lemma_submap_trans(item.names, walk.names, later);
}

/// In a table in which an array is at rest, all its elements have the type
/// of its elements.
pub proof fn lemma_array_of_one_type(names: Names, prefix: Seq<char>, items: Seq<Tree>, i: int)
    requires
        at_rest(names, prefix, Tree::Array(items)),
        0 <= i < items.len(),
    ensures
        walk_value(names, prefix, items[i]).outcome == walk_array(names, prefix, items).outcome,
{
    let walk = walk_array(names, prefix, items);
    lemma_array_elements_agree(names, prefix, items, i, names);
}

/// An array with two elements of two types is at rest in no table: in a
/// table in which the types of two of its elements differ, it is not.
pub proof fn lemma_mixed_array_never_rests(
    names: Names,
    prefix: Seq<char>,
    items: Seq<Tree>,
    i: int,
    j: int,
)
    requires
        0 <= i < items.len(),
        0 <= j < items.len(),
        walk_value(names, prefix, items[i]).outcome != walk_value(names, prefix, items[j]).outcome,
    ensures
        !at_rest(names, prefix, Tree::Array(items)),
{
    if at_rest(names, prefix, Tree::Array(items)) {
        lemma_array_of_one_type(names, prefix, items, i);
        lemma_array_of_one_type(names, prefix, items, j);
    }
}

/// A value with a part that is not at rest is not at rest: neither an
/// array with such an element, nor an object with such a field.
pub proof fn lemma_part_not_at_rest(names: Names, prefix: Seq<char>, value: Tree, i: int)
    requires
        match value {
            Tree::Array(items) => 0 <= i < items.len() && !at_rest(names, prefix, items[i]),
            Tree::Object(fields) => 0 <= i < fields.len() && !at_rest(
                names,
                prefix,
                fields[i].1,
            ),
            _ => false,
        },
    ensures
        !at_rest(names, prefix, value),
{
    if at_rest(names, prefix, value) {
        match value {
            Tree::Array(items) => {
                assert(forall|k: int|
                    0 <= k < items.len() ==> at_rest(names, prefix, #[trigger] items[k]));
            },
            Tree::Object(fields) => {
                assert(forall|k: int|
                    0 <= k < fields.len() ==> at_rest(names, prefix, (#[trigger] fields[k]).1));
            },
            _ => {},
        }
    }
}

} // verus!
