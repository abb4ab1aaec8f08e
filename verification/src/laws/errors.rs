//! How a walk fails: with which errors, and that the error of a part, met
//! when its turn comes, is the error of the whole.

use crate::plan::idle;
use crate::number::classify;
use crate::plan::{
    emit_field, emit_fields, walk_array, walk_items, walk_object, walk_root, walk_signature,
    walk_value,
};
use crate::table::Names;
use crate::types::{Error, Shape};
use crate::value::Tree;
use vstd::prelude::*;

verus! {

/// Nothing is known of the elements of an empty array, and no error comes
/// of one.
pub proof fn lemma_empty_array(names: Names, prefix: Seq<char>)
    ensures
        walk_array(names, prefix, Seq::empty()) == idle(names, Ok::<Shape, Error>(Shape::Null)),
{
}

/// Where holding the first `k` elements of an array against a type failed,
/// holding more of them against it fails in the same way.
pub proof fn lemma_walk_items_failed(
    names: Names,
    prefix: Seq<char>,
    items: Seq<Tree>,
    overall: Shape,
    k: nat,
    n: nat,
)
    requires
        k <= n <= items.len(),
        walk_items(names, prefix, items, overall, k).outcome is Err,
    ensures
        walk_items(names, prefix, items, overall, n) == walk_items(
            names,
            prefix,
            items,
            overall,
            k,
        ),
    decreases n,
{
    if k < n {
        lemma_walk_items_failed(names, prefix, items, overall, k, (n - 1) as nat);
    }
}

/// Where the typing of the first `k` fields of an object failed, the typing
/// of more of them fails in the same way.
pub proof fn lemma_walk_signature_failed(
    names: Names,
    prefix: Seq<char>,
    fields: Seq<(Seq<char>, Tree)>,
    k: nat,
    n: nat,
)
    requires
        k <= n <= fields.len(),
        walk_signature(names, prefix, fields, k).outcome is Err,
    ensures
        walk_signature(names, prefix, fields, n) == walk_signature(names, prefix, fields, k),
    decreases n,
{
    if k < n {
        lemma_walk_signature_failed(names, prefix, fields, k, (n - 1) as nat);
    }
}

/// Where giving the accumulator the first `k` fields of an object failed,
/// giving it more of them fails in the same way.
pub proof fn lemma_emit_fields_failed(
    names: Names,
    prefix: Seq<char>,
    fields: Seq<(Seq<char>, Tree)>,
    k: nat,
    n: nat,
)
    requires
        k <= n <= fields.len(),
        emit_fields(names, prefix, fields, k).outcome is Err,
    ensures
        emit_fields(names, prefix, fields, n) == emit_fields(names, prefix, fields, k),
    decreases n,
{
    if k < n {
        lemma_emit_fields_failed(names, prefix, fields, k, (n - 1) as nat);
    }
}

/// An array with an element whose type is not that of the first fails:
/// where the elements before the `i`th have the type of the first and the
/// `i`th has another, the array's walk ends with `DifferingArrayType`.
pub proof fn lemma_differing_element_fails(
    names: Names,
    prefix: Seq<char>,
    items: Seq<Tree>,
    i: nat,
)
    requires
        i < items.len(),
        walk_value(names, prefix, items[0]).outcome is Ok,
        ({
            let first = walk_value(names, prefix, items[0]);
            let before = walk_items(first.names, prefix, items, first.outcome->Ok_0, i);
            let item = walk_value(before.names, prefix, items[i as int]);
            &&& before.outcome is Ok
            &&& item.outcome is Ok
            &&& item.outcome != first.outcome
        }),
    ensures
        walk_array(names, prefix, items).outcome == Err::<Shape, Error>(
            Error::DifferingArrayType,
        ),
{
    let first = walk_value(names, prefix, items[0]);
    let overall = first.outcome->Ok_0;
    let failed = walk_items(first.names, prefix, items, overall, i + 1);
    assert(failed.outcome == Err::<(), Error>(Error::DifferingArrayType));
    lemma_walk_items_failed(first.names, prefix, items, overall, i + 1, items.len());
}

/// The error of an element of an array, met when its turn comes, is the
/// error of the array.
pub proof fn lemma_array_fails_with_item(
    names: Names,
    prefix: Seq<char>,
    items: Seq<Tree>,
    k: nat,
)
    requires
        k < items.len(),
        walk_value(names, prefix, items[0]).outcome is Ok,
        ({
            let first = walk_value(names, prefix, items[0]);
            let before = walk_items(first.names, prefix, items, first.outcome->Ok_0, k);
            before.outcome is Ok && walk_value(before.names, prefix, items[k as int]).outcome is Err
        }),
    ensures
        ({
            let first = walk_value(names, prefix, items[0]);
            let before = walk_items(first.names, prefix, items, first.outcome->Ok_0, k);
            walk_array(names, prefix, items).outcome == Err::<Shape, Error>(
                walk_value(before.names, prefix, items[k as int]).outcome->Err_0,
            )
        }),
{
    let first = walk_value(names, prefix, items[0]);
    let overall = first.outcome->Ok_0;
    let failed = walk_items(first.names, prefix, items, overall, k + 1);
    assert(failed.outcome is Err);
    lemma_walk_items_failed(first.names, prefix, items, overall, k + 1, items.len());
}

/// The error of the value of a field, met when the field is typed, is the
/// error of the object.
pub proof fn lemma_object_fails_with_field(
    names: Names,
    prefix: Seq<char>,
    fields: Seq<(Seq<char>, Tree)>,
    k: nat,
)
    requires
        k < fields.len(),
        ({
            let before = walk_signature(names, prefix, fields, k);
            before.outcome is Ok && walk_value(before.names, prefix, fields[k as int].1).outcome
                is Err
        }),
    ensures
        ({
            let before = walk_signature(names, prefix, fields, k);
            walk_object(names, prefix, fields).outcome == Err::<Seq<char>, Error>(
                walk_value(before.names, prefix, fields[k as int].1).outcome->Err_0,
            )
        }),
{
    let failed = walk_signature(names, prefix, fields, k + 1);
    assert(failed.outcome is Err);
    lemma_walk_signature_failed(names, prefix, fields, k + 1, fields.len());
}

/// The error of an array or an object that is the value of a field is the
/// error of giving the accumulator that field.
pub proof fn lemma_field_fails_with_value(
    names: Names,
    prefix: Seq<char>,
    key: Seq<char>,
    value: Tree,
)
    requires
        walk_value(names, prefix, value).outcome is Err,
    ensures
        emit_field(names, prefix, key, value).outcome == Err::<(), Error>(
            walk_value(names, prefix, value).outcome->Err_0,
        ),
{
}

/// The error of giving the accumulator a field of the root, met when the
/// field's turn comes, is the error of the whole run.
pub proof fn lemma_root_fails_with_field(
    prefix: Seq<char>,
    root_name: Seq<char>,
    fields: Seq<(Seq<char>, Tree)>,
    k: nat,
)
    requires
        k < fields.len(),
        ({
            let before = emit_fields(Names::empty(), prefix, fields, k);
            before.outcome is Ok && emit_field(
                before.names,
                prefix,
                fields[k as int].0,
                fields[k as int].1,
            ).outcome is Err
        }),
    ensures
        ({
            let before = emit_fields(Names::empty(), prefix, fields, k);
            walk_root(prefix, root_name, fields).outcome == emit_field(
                before.names,
                prefix,
                fields[k as int].0,
                fields[k as int].1,
            ).outcome
        }),
{
    let failed = emit_fields(Names::empty(), prefix, fields, k + 1);
    assert(failed.outcome is Err);
    lemma_emit_fields_failed(Names::empty(), prefix, fields, k + 1, fields.len());
}

/// Whether every number in a value, however deep, is of a kind.
pub open spec fn numbers_fit(value: Tree) -> bool
    decreases value,
{
    match value {
        Tree::Number(parts) => classify(parts) is Ok,
        Tree::Array(items) => forall|i: int|
            0 <= i < items.len() ==> numbers_fit(#[trigger] items[i]),
        Tree::Object(fields) => forall|i: int|
            0 <= i < fields.len() ==> numbers_fit((#[trigger] fields[i]).1),
        _ => true,
    }
}

/// The numbers in an element of an array are numbers in the array.
pub proof fn lemma_numbers_fit_item(items: Seq<Tree>, i: int)
    requires
        numbers_fit(Tree::Array(items)),
        0 <= i < items.len(),
    ensures
        numbers_fit(items[i]),
{
    let array = Tree::Array(items);
    assert(array->Array_0 == items);
    assert(forall|k: int| 0 <= k < items.len() ==> numbers_fit(#[trigger] items[k]));
}

/// The numbers in the value of a field of an object are numbers in the
/// object.
pub proof fn lemma_numbers_fit_field(fields: Seq<(Seq<char>, Tree)>, i: int)
    requires
        numbers_fit(Tree::Object(fields)),
        0 <= i < fields.len(),
    ensures
        numbers_fit(fields[i].1),
{
    let object = Tree::Object(fields);
    assert(object->Object_0 == fields);
    assert(forall|k: int| 0 <= k < fields.len() ==> numbers_fit((#[trigger] fields[k]).1));
}

/// Whether an outcome is one that a walk of values can have where `fit`
/// says that all their numbers are of a kind: no error but
/// `DifferingArrayType`, and `BadNumber` where they are not.
pub open spec fn fails_as_it_may<T>(outcome: Result<T, Error>, fit: bool) -> bool {
    match outcome {
        Ok(_) => true,
        Err(e) => e == Error::DifferingArrayType || (e == Error::BadNumber && !fit),
    }
}

/// A walk fails with `DifferingArrayType` or `BadNumber` and with no other
/// error, and with `BadNumber` only where a number is of no kind.
pub proof fn lemma_walk_value_errors(names: Names, prefix: Seq<char>, value: Tree)
    ensures
        fails_as_it_may(walk_value(names, prefix, value).outcome, numbers_fit(value)),
    decreases value, 0nat,
{
    match value {
        Tree::Array(items) => {
            lemma_walk_array_errors(names, prefix, items);
        },
        Tree::Object(fields) => {
            lemma_walk_object_errors(names, prefix, fields);
        },
        _ => {},
    }
}

/// The same of the type of an array's elements.
pub proof fn lemma_walk_array_errors(names: Names, prefix: Seq<char>, items: Seq<Tree>)
    ensures
        fails_as_it_may(
            walk_array(names, prefix, items).outcome,
            numbers_fit(Tree::Array(items)),
        ),
    decreases items, items.len() + 1,
{
    if items.len() > 0 {
        lemma_walk_value_errors(names, prefix, items[0]);
        if numbers_fit(Tree::Array(items)) {
            lemma_numbers_fit_item(items, 0);
        }
        let first = walk_value(names, prefix, items[0]);
        if first.outcome is Ok {
            lemma_walk_items_errors(
                first.names,
                prefix,
                items,
                first.outcome->Ok_0,
                items.len(),
            );
        }
    }
}

/// The same of the first `n` elements of an array held against a type.
pub proof fn lemma_walk_items_errors(
    names: Names,
    prefix: Seq<char>,
    items: Seq<Tree>,
    overall: Shape,
    n: nat,
)
    ensures
        fails_as_it_may(
            walk_items(names, prefix, items, overall, n).outcome,
            numbers_fit(Tree::Array(items)),
        ),
    decreases items, n,
{
    if n == 0 || n > items.len() {
    } else {
        lemma_walk_items_errors(names, prefix, items, overall, (n - 1) as nat);
        let before = walk_items(names, prefix, items, overall, (n - 1) as nat);
        if before.outcome is Ok {
            lemma_walk_value_errors(before.names, prefix, items[n - 1]);
            if numbers_fit(Tree::Array(items)) {
                lemma_numbers_fit_item(items, n - 1);
            }
        }
    }
}

/// The same of the typing of the first `n` fields of an object.
pub proof fn lemma_walk_signature_errors(
    names: Names,
    prefix: Seq<char>,
    fields: Seq<(Seq<char>, Tree)>,
    n: nat,
)
    ensures
        fails_as_it_may(
            walk_signature(names, prefix, fields, n).outcome,
            numbers_fit(Tree::Object(fields)),
        ),
    decreases fields, n,
{
    if n == 0 || n > fields.len() {
    } else {
        lemma_walk_signature_errors(names, prefix, fields, (n - 1) as nat);
        let before = walk_signature(names, prefix, fields, (n - 1) as nat);
        if before.outcome is Ok {
            lemma_walk_value_errors(before.names, prefix, fields[n - 1].1);
            if numbers_fit(Tree::Object(fields)) {
                lemma_numbers_fit_field(fields, n - 1);
            }
        }
    }
}

/// The same of the name of an object's declaration.
pub proof fn lemma_walk_object_errors(
    names: Names,
    prefix: Seq<char>,
    fields: Seq<(Seq<char>, Tree)>,
)
    ensures
        fails_as_it_may(
            walk_object(names, prefix, fields).outcome,
            numbers_fit(Tree::Object(fields)),
        ),
    decreases fields, fields.len() + 1,
{
    lemma_walk_signature_errors(names, prefix, fields, fields.len());
    let typed = walk_signature(names, prefix, fields, fields.len());
    if typed.outcome is Ok {
        lemma_emit_fields_errors(typed.names, prefix, fields, fields.len());
    }
}

/// The same of giving the accumulator a field.
pub proof fn lemma_emit_field_errors(names: Names, prefix: Seq<char>, key: Seq<char>, value: Tree)
    ensures
        fails_as_it_may(emit_field(names, prefix, key, value).outcome, numbers_fit(value)),
    decreases value, 0nat,
{
    match value {
        Tree::Array(items) => {
            lemma_walk_array_errors(names, prefix, items);
        },
        Tree::Object(fields) => {
            lemma_walk_object_errors(names, prefix, fields);
        },
        _ => {},
    }
}

/// The same of giving the accumulator the first `n` fields of an object.
pub proof fn lemma_emit_fields_errors(
    names: Names,
    prefix: Seq<char>,
    fields: Seq<(Seq<char>, Tree)>,
    n: nat,
)
    ensures
        fails_as_it_may(
            emit_fields(names, prefix, fields, n).outcome,
            numbers_fit(Tree::Object(fields)),
        ),
    decreases fields, n,
{
    if n == 0 || n > fields.len() {
    } else {
        lemma_emit_fields_errors(names, prefix, fields, (n - 1) as nat);
        let before = emit_fields(names, prefix, fields, (n - 1) as nat);
        if before.outcome is Ok {
            lemma_emit_field_errors(before.names, prefix, fields[n - 1].0, fields[n - 1].1);
            if numbers_fit(Tree::Object(fields)) {
                lemma_numbers_fit_field(fields, n - 1);
            }
        }
    }
}

/// Elements that all have one type pass: where each of the first `n`
/// elements of an array, typed when its turn comes, has the type `overall`,
/// holding them against it meets no error.
pub proof fn lemma_same_elements_pass(
    names: Names,
    prefix: Seq<char>,
    items: Seq<Tree>,
    overall: Shape,
    n: nat,
)
    requires
        n <= items.len(),
        forall|i: nat|
            i < n ==> walk_value(
                (#[trigger] walk_items(names, prefix, items, overall, i)).names,
                prefix,
                items[i as int],
            ).outcome == Ok::<Shape, Error>(overall),
    ensures
        walk_items(names, prefix, items, overall, n).outcome is Ok,
    decreases n,
{
    if n > 0 {
        lemma_same_elements_pass(names, prefix, items, overall, (n - 1) as nat);
        let before = walk_items(names, prefix, items, overall, (n - 1) as nat);
        assert(walk_value(before.names, prefix, items[n - 1]).outcome == Ok::<Shape, Error>(
            overall,
        ));
    }
}

/// An array has the type of its first element for the type of its
/// elements exactly where every element, typed when its turn comes, has
/// that type, at whatever place it stands.
pub proof fn lemma_array_outcome(names: Names, prefix: Seq<char>, items: Seq<Tree>)
    requires
        items.len() > 0,
        walk_value(names, prefix, items[0]).outcome is Ok,
    ensures
        ({
            let first = walk_value(names, prefix, items[0]);
            let overall = first.outcome->Ok_0;
            let all_agree = forall|i: nat|
                i < items.len() ==> walk_value(
                    (#[trigger] walk_items(first.names, prefix, items, overall, i)).names,
                    prefix,
                    items[i as int],
                ).outcome == Ok::<Shape, Error>(overall);
            walk_array(names, prefix, items).outcome == Ok::<Shape, Error>(overall) <==> all_agree
        }),
{
    let first = walk_value(names, prefix, items[0]);
    let overall = first.outcome->Ok_0;
    let n = items.len();
    let all_agree = forall|i: nat|
        i < items.len() ==> walk_value(
            (#[trigger] walk_items(first.names, prefix, items, overall, i)).names,
            prefix,
            items[i as int],
        ).outcome == Ok::<Shape, Error>(overall);
    if all_agree {
        lemma_same_elements_pass(first.names, prefix, items, overall, n);
    }
    if walk_array(names, prefix, items).outcome is Ok {
        assert forall|i: nat| i < items.len() implies walk_value(
            (#[trigger] walk_items(first.names, prefix, items, overall, i)).names,
            prefix,
            items[i as int],
        ).outcome == Ok::<Shape, Error>(overall) by {
            lemma_walk_items_passed(first.names, prefix, items, overall, i + 1, n);
        }
    }
}

/// Where the first `n` elements of an array have the type, so have the
/// first `k` of them, and the last of those has it.
pub proof fn lemma_walk_items_passed(
    names: Names,
    prefix: Seq<char>,
    items: Seq<Tree>,
    overall: Shape,
    k: nat,
    n: nat,
)
    requires
        0 < k <= n <= items.len(),
        walk_items(names, prefix, items, overall, n).outcome is Ok,
    ensures
        walk_items(names, prefix, items, overall, k).outcome is Ok,
        walk_items(names, prefix, items, overall, (k - 1) as nat).outcome is Ok,
        walk_value(
            walk_items(names, prefix, items, overall, (k - 1) as nat).names,
            prefix,
            items[k - 1],
        ).outcome == Ok::<Shape, Error>(overall),
    decreases n,
{
    if k < n {
        lemma_walk_items_passed(names, prefix, items, overall, k, (n - 1) as nat);
    }
}

} // verus!
