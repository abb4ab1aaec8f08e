//! The names of a run: the table only grows, every shape has one name and
//! every name one shape, the names are numbered in the order in which the
//! declarations are opened, and a value that was walked is walked again
//! without a call.

use crate::accumulator::Call;
use crate::plan::{
    emit_field, emit_fields, fresh_name, idle, Walk, walk_array, walk_items, walk_object, walk_root,
    walk_signature, walk_value,
};
use crate::table::{canonical, Names, Signature};
use crate::text::{decimal, lemma_decimal_injective};
use crate::types::{Error, Shape};
use crate::value::Tree;
use vstd::set_lib::lemma_len_subset;
use vstd::prelude::*;

verus! {

/// Whether the names are the stem with the numbers from zero up, one for
/// every signature, none for two.
pub open spec fn numbered(names: Names, prefix: Seq<char>) -> bool {
    &&& names.dom().finite()
    &&& forall|key: Signature| #[trigger]
        names.contains_key(key) ==> exists|i: nat|
            i < names.dom().len() && names[key] == prefix + #[trigger] decimal(i)
    &&& forall|a: Signature, b: Signature|
        names.contains_key(a) && names.contains_key(b) && a != b ==> names[a] != names[b]
}

/// The names under which a run of calls opens declarations, in order.
pub open spec fn opened(calls: Seq<Call>) -> Seq<Seq<char>>
    decreases calls.len(),
{
    if calls.len() == 0 {
        Seq::empty()
    } else {
        match calls.last() {
            Call::PushObjectType(name) => opened(calls.drop_last()).push(name),
            _ => opened(calls.drop_last()),
        }
    }
}

/// The names with the numbers from `from` up to, not with, `to`.
pub open spec fn fresh_names(prefix: Seq<char>, from: nat, to: nat) -> Seq<Seq<char>> {
    Seq::new((to - from) as nat, |i: int| prefix + decimal((from + i) as nat))
}

/// Two runs of calls open the declarations of the first, then those of the
/// second.
pub proof fn lemma_opened_concat(first: Seq<Call>, second: Seq<Call>)
    ensures
        opened(first + second) == opened(first) + opened(second),
    decreases second.len(),
{
    if second.len() == 0 {
        assert(first + second =~= first);
        assert(opened(first) + opened(second) =~= opened(first));
    } else {
        lemma_opened_concat(first, second.drop_last());
        assert((first + second).drop_last() =~= first + second.drop_last());
        assert((first + second).last() == second.last());
        match second.last() {
            Call::PushObjectType(name) => {
                assert((opened(first) + opened(second.drop_last())).push(name) =~= opened(first)
                    + opened(second.drop_last()).push(name));
            },
            _ => {},
        }
    }
}

/// One more call opens one more declaration where it is an opening.
pub proof fn lemma_opened_push(calls: Seq<Call>, call: Call)
    ensures
        opened(calls.push(call)) == match call {
            Call::PushObjectType(name) => opened(calls).push(name),
            _ => opened(calls),
        },
{
    assert(calls.push(call).drop_last() =~= calls);
}

/// A stem with two numerals behind it gives two names.
pub proof fn lemma_fresh_names_differ(prefix: Seq<char>, i: nat, j: nat)
    requires
        i != j,
    ensures
        prefix + decimal(i) != prefix + decimal(j),
{
    let a = prefix + decimal(i);
    let b = prefix + decimal(j);
    if a == b {
        assert(a.subrange(prefix.len() as int, a.len() as int) =~= decimal(i));
        assert(b.subrange(prefix.len() as int, b.len() as int) =~= decimal(j));
        lemma_decimal_injective(i, j);
    }
}

/// A new signature under the next name keeps the names numbered.
pub proof fn lemma_numbered_insert(names: Names, prefix: Seq<char>, key: Signature)
    requires
        numbered(names, prefix),
        !names.contains_key(key),
    ensures
        numbered(names.insert(key, fresh_name(names, prefix)), prefix),
        names.insert(key, fresh_name(names, prefix)).dom().len() == names.dom().len() + 1,
{
    let n = names.dom().len();
    let after = names.insert(key, fresh_name(names, prefix));
    assert(after.dom() =~= names.dom().insert(key));
    assert forall|k: Signature| #[trigger] after.contains_key(k) implies exists|i: nat|
        i < after.dom().len() && after[k] == prefix + #[trigger] decimal(i) by {
        if k == key {
            assert(n < after.dom().len() && after[k] == prefix + decimal(n));
        } else {
            assert(names.contains_key(k));
            let i = choose|i: nat| i < n && names[k] == prefix + #[trigger] decimal(i);
            assert(i < after.dom().len() && after[k] == prefix + decimal(i));
        }
    }
    assert forall|a: Signature, b: Signature|
        after.contains_key(a) && after.contains_key(b) && a != b implies after[a] != after[b] by {
        if a == key {
            assert(names.contains_key(b));
            let i = choose|i: nat| i < n && names[b] == prefix + #[trigger] decimal(i);
            lemma_fresh_names_differ(prefix, i, n);
        } else if b == key {
            assert(names.contains_key(a));
            let i = choose|i: nat| i < n && names[a] == prefix + #[trigger] decimal(i);
            lemma_fresh_names_differ(prefix, i, n);
        }
    }
}

/// What a walk from `names` does to the table: it keeps every name. Where
/// the names were numbered, they still are, and the walk opened one
/// declaration under every name that came new, in the order of their
/// numbers.
pub open spec fn grows<T>(names: Names, prefix: Seq<char>, walk: Walk<T>) -> bool {
    &&& names.submap_of(walk.names)
    &&& numbered(names, prefix) ==> numbered(walk.names, prefix) && opened(walk.calls)
        == fresh_names(prefix, names.dom().len(), walk.names.dom().len())
}

proof fn lemma_grows_idle<T>(names: Names, prefix: Seq<char>, outcome: Result<T, Error>)
    ensures
        grows(names, prefix, idle(names, outcome)),
{
    let n = names.dom().len();
    assert(fresh_names(prefix, n, n) =~= Seq::empty());
}

/// A walk that made calls which open nothing, and named nothing.
proof fn lemma_grows_quiet<T>(names: Names, prefix: Seq<char>, walk: Walk<T>)
    requires
        walk.names == names,
        opened(walk.calls) == Seq::<Seq<char>>::empty(),
    ensures
        grows(names, prefix, walk),
{
    let n = names.dom().len();
    assert(fresh_names(prefix, n, n) =~= Seq::empty());
}

/// Two steps that each keep the names, one after the other.
proof fn lemma_grows_then<T, U, V>(
    names: Names,
    prefix: Seq<char>,
    first: Walk<T>,
    second: Walk<U>,
    outcome: Result<V, Error>,
)
    requires
        grows(names, prefix, first),
        grows(first.names, prefix, second),
    ensures
        grows(
            names,
            prefix,
            Walk {
                names: second.names,
                calls: first.calls + second.calls,
                tables: first.tables + second.tables,
                outcome,
            },
        ),
{
    lemma_opened_concat(first.calls, second.calls);
    lemma_submap_trans(names, first.names, second.names);
    if numbered(names, prefix) {
        lemma_len_subset(names.dom(), first.names.dom());
        lemma_len_subset(first.names.dom(), second.names.dom());
        let a = names.dom().len();
        let b = first.names.dom().len();
        let c = second.names.dom().len();
        assert(fresh_names(prefix, a, b) + fresh_names(prefix, b, c) =~= fresh_names(
            prefix,
            a,
            c,
        ));
    }
}

/// A value that was typed is typed again, from any table that holds the
/// names the first walk left, without a call and with the same type. The
/// first walk only added names, numbered as before, one for each
/// declaration it opened.
pub proof fn lemma_walk_value(names: Names, prefix: Seq<char>, value: Tree)
    ensures
        grows(names, prefix, walk_value(names, prefix, value)),
        walk_value(names, prefix, value).outcome is Ok ==> forall|later: Names|
            walk_value(names, prefix, value).names.submap_of(later) ==> #[trigger] walk_value(
                later,
                prefix,
                value,
            ) == idle(later, walk_value(names, prefix, value).outcome),
    decreases value, 0nat,
{
    let walk = walk_value(names, prefix, value);
    match value {
        Tree::Array(items) => {
            lemma_walk_array(names, prefix, items);
            let inner = walk_array(names, prefix, items);
            if walk.outcome is Ok {
                assert forall|later: Names| walk.names.submap_of(later) implies #[trigger] walk_value(
                    later,
                    prefix,
                    value,
                ) == idle(later, walk.outcome) by {
                    assert(walk_array(later, prefix, items) == idle(later, inner.outcome));
                }
            }
        },
        Tree::Object(fields) => {
            lemma_walk_object(names, prefix, fields);
            let inner = walk_object(names, prefix, fields);
            if walk.outcome is Ok {
                assert forall|later: Names| walk.names.submap_of(later) implies #[trigger] walk_value(
                    later,
                    prefix,
                    value,
                ) == idle(later, walk.outcome) by {
                    assert(walk_object(later, prefix, fields) == idle(later, inner.outcome));
                }
            }
        },
        _ => {
            lemma_grows_idle(names, prefix, walk.outcome);
        },
    }
}

/// The same of the type of an array's elements.
pub proof fn lemma_walk_array(names: Names, prefix: Seq<char>, items: Seq<Tree>)
    ensures
        grows(names, prefix, walk_array(names, prefix, items)),
        walk_array(names, prefix, items).outcome is Ok ==> forall|later: Names|
            walk_array(names, prefix, items).names.submap_of(later) ==> #[trigger] walk_array(
                later,
                prefix,
                items,
            ) == idle(later, walk_array(names, prefix, items).outcome),
    decreases items, items.len() + 1,
{
    let walk = walk_array(names, prefix, items);
    if items.len() == 0 {
        lemma_grows_idle(names, prefix, walk.outcome);
    } else {
        lemma_walk_value(names, prefix, items[0]);
        let first = walk_value(names, prefix, items[0]);
        if first.outcome is Ok {
            let overall = first.outcome->Ok_0;
            lemma_walk_items(first.names, prefix, items, overall, items.len());
            let rest = walk_items(first.names, prefix, items, overall, items.len());
            lemma_grows_then(names, prefix, first, rest, walk.outcome);
            if walk.outcome is Ok {
                assert forall|later: Names| walk.names.submap_of(later) implies #[trigger] walk_array(
                    later,
                    prefix,
                    items,
                ) == idle(later, walk.outcome) by {
                    lemma_submap_trans(first.names, rest.names, later);
                    assert(walk_value(later, prefix, items[0]) == idle(later, first.outcome));
                    lemma_walk_items_again(
                        first.names,
                        prefix,
                        items,
                        overall,
                        items.len(),
                        later,
                    );
                    assert(Seq::<Call>::empty() + Seq::<Call>::empty() =~= Seq::<Call>::empty());
        assert(Seq::<Names>::empty() + Seq::<Names>::empty() =~= Seq::<Names>::empty());
                }
            }
        }
    }
}

/// The map order is transitive.
pub proof fn lemma_submap_trans(a: Names, b: Names, c: Names)
    requires
        a.submap_of(b),
        b.submap_of(c),
    ensures
        a.submap_of(c),
{
    vstd::map_lib::lemma_submap_of_trans(a, b, c);
}

/// Holding the first `n` elements of an array against a type only adds
/// names.
pub proof fn lemma_walk_items(
    names: Names,
    prefix: Seq<char>,
    items: Seq<Tree>,
    overall: Shape,
    n: nat,
)
    ensures
        grows(names, prefix, walk_items(names, prefix, items, overall, n)),
    decreases items, n,
{
    if n == 0 || n > items.len() {
        lemma_grows_idle(names, prefix, Ok::<(), Error>(()));
    } else {
        lemma_walk_items(names, prefix, items, overall, (n - 1) as nat);
        let before = walk_items(names, prefix, items, overall, (n - 1) as nat);
        if before.outcome is Ok {
            lemma_walk_value(before.names, prefix, items[n - 1]);
            let item = walk_value(before.names, prefix, items[n - 1]);
            lemma_grows_then(
                names,
                prefix,
                before,
                item,
                walk_items(names, prefix, items, overall, n).outcome,
            );
        }
    }
}

/// Holding the first `n` elements of an array against a type, done again
/// from a table that holds the names which the first time left, makes no
/// call.
pub proof fn lemma_walk_items_again(
    names: Names,
    prefix: Seq<char>,
    items: Seq<Tree>,
    overall: Shape,
    n: nat,
    later: Names,
)
    requires
        n <= items.len(),
        walk_items(names, prefix, items, overall, n).outcome is Ok,
        walk_items(names, prefix, items, overall, n).names.submap_of(later),
    ensures
        walk_items(later, prefix, items, overall, n) == idle(later, Ok::<(), Error>(())),
    decreases items, n,
{
    if n > 0 {
        let before = walk_items(names, prefix, items, overall, (n - 1) as nat);
        lemma_walk_value(before.names, prefix, items[n - 1]);
        let item = walk_value(before.names, prefix, items[n - 1]);
        lemma_submap_trans(before.names, item.names, later);
        lemma_walk_items_again(names, prefix, items, overall, (n - 1) as nat, later);
        assert(walk_value(later, prefix, items[n - 1]) == idle(later, item.outcome));
        assert(Seq::<Call>::empty() + Seq::<Call>::empty() =~= Seq::<Call>::empty());
        assert(Seq::<Names>::empty() + Seq::<Names>::empty() =~= Seq::<Names>::empty());
    }
}

/// The typing of the first `n` fields of an object only adds names.
pub proof fn lemma_walk_signature(
    names: Names,
    prefix: Seq<char>,
    fields: Seq<(Seq<char>, Tree)>,
    n: nat,
)
    ensures
        grows(names, prefix, walk_signature(names, prefix, fields, n)),
    decreases fields, n,
{
    if n == 0 || n > fields.len() {
        lemma_grows_idle(names, prefix, Ok::<Signature, Error>(Seq::empty()));
    } else {
        lemma_walk_signature(names, prefix, fields, (n - 1) as nat);
        let before = walk_signature(names, prefix, fields, (n - 1) as nat);
        if before.outcome is Ok {
            lemma_walk_value(before.names, prefix, fields[n - 1].1);
            let field = walk_value(before.names, prefix, fields[n - 1].1);
            lemma_grows_then(
                names,
                prefix,
                before,
                field,
                walk_signature(names, prefix, fields, n).outcome,
            );
        }
    }
}

/// The typing of the first `n` fields of an object, done again from a
/// table that holds the names the first typing left, makes no call and
/// gives the same signature.
pub proof fn lemma_walk_signature_again(
    names: Names,
    prefix: Seq<char>,
    fields: Seq<(Seq<char>, Tree)>,
    n: nat,
    later: Names,
)
    requires
        n <= fields.len(),
        walk_signature(names, prefix, fields, n).outcome is Ok,
        walk_signature(names, prefix, fields, n).names.submap_of(later),
    ensures
        walk_signature(later, prefix, fields, n) == idle(
            later,
            walk_signature(names, prefix, fields, n).outcome,
        ),
    decreases fields, n,
{
    if n > 0 {
        let before = walk_signature(names, prefix, fields, (n - 1) as nat);
        lemma_walk_value(before.names, prefix, fields[n - 1].1);
        let field = walk_value(before.names, prefix, fields[n - 1].1);
        lemma_submap_trans(before.names, field.names, later);
        lemma_walk_signature_again(names, prefix, fields, (n - 1) as nat, later);
        assert(walk_value(later, prefix, fields[n - 1].1) == idle(later, field.outcome));
        assert(Seq::<Call>::empty() + Seq::<Call>::empty() =~= Seq::<Call>::empty());
        assert(Seq::<Names>::empty() + Seq::<Names>::empty() =~= Seq::<Names>::empty());
    }
}

/// The first `n` fields of an object whose fields were typed are given to
/// the accumulator without a declaration and without a new name.
pub proof fn lemma_emit_typed_fields(
    names: Names,
    prefix: Seq<char>,
    fields: Seq<(Seq<char>, Tree)>,
    n: nat,
    later: Names,
)
    requires
        n <= fields.len(),
        walk_signature(names, prefix, fields, n).outcome is Ok,
        walk_signature(names, prefix, fields, n).names.submap_of(later),
    ensures
        emit_fields(later, prefix, fields, n).names == later,
        emit_fields(later, prefix, fields, n).outcome == Ok::<(), Error>(()),
        opened(emit_fields(later, prefix, fields, n).calls) == Seq::<Seq<char>>::empty(),
    decreases fields, n,
{
    if n > 0 {
        let before = walk_signature(names, prefix, fields, (n - 1) as nat);
        let value = fields[n - 1].1;
        let key = fields[n - 1].0;
        lemma_walk_value(before.names, prefix, value);
        let typed = walk_value(before.names, prefix, value);
        lemma_submap_trans(before.names, typed.names, later);
        lemma_emit_typed_fields(names, prefix, fields, (n - 1) as nat, later);
        let done = emit_fields(later, prefix, fields, (n - 1) as nat);
        let field = emit_field(later, prefix, key, value);
        assert(walk_value(later, prefix, value) == idle(later, typed.outcome));
        match value {
            Tree::Array(items) => {
                let inner = walk_array(later, prefix, items);
                assert(inner.calls == Seq::<Call>::empty());
                lemma_opened_push(inner.calls, Call::Array(key, inner.outcome->Ok_0));
            },
            Tree::Object(inner_fields) => {
                let inner = walk_object(later, prefix, inner_fields);
                assert(inner.calls == Seq::<Call>::empty());
                lemma_opened_push(inner.calls, Call::Object(key, inner.outcome->Ok_0));
            },
            Tree::Null => {
                lemma_opened_push(Seq::empty(), Call::Unknown(key));
                assert(field.calls =~= Seq::<Call>::empty().push(Call::Unknown(key)));
            },
            Tree::Boolean(_) => {
                lemma_opened_push(Seq::empty(), Call::Boolean(key));
                assert(field.calls =~= Seq::<Call>::empty().push(Call::Boolean(key)));
            },
            Tree::String(_) => {
                lemma_opened_push(Seq::empty(), Call::String(key));
                assert(field.calls =~= Seq::<Call>::empty().push(Call::String(key)));
            },
            Tree::Number(parts) => {
                let kind = typed.outcome->Ok_0->Number_0;
                lemma_opened_push(Seq::empty(), Call::Number(key, kind));
                assert(field.calls =~= Seq::<Call>::empty().push(Call::Number(key, kind)));
            },
        }
        lemma_opened_concat(done.calls, field.calls);
    }
}

/// The same of the name of an object's declaration.
pub proof fn lemma_walk_object(names: Names, prefix: Seq<char>, fields: Seq<(Seq<char>, Tree)>)
    ensures
        grows(names, prefix, walk_object(names, prefix, fields)),
        walk_object(names, prefix, fields).outcome is Ok ==> forall|later: Names|
            walk_object(names, prefix, fields).names.submap_of(later) ==> #[trigger] walk_object(
                later,
                prefix,
                fields,
            ) == idle(later, walk_object(names, prefix, fields).outcome),
    decreases fields, fields.len() + 1,
{
    let walk = walk_object(names, prefix, fields);
    let typed = walk_signature(names, prefix, fields, fields.len());
    lemma_walk_signature(names, prefix, fields, fields.len());
    if typed.outcome is Ok {
        let key = canonical(typed.outcome->Ok_0);
        if !typed.names.contains_key(key) {
            let name = fresh_name(typed.names, prefix);
            lemma_emit_typed_fields(names, prefix, fields, fields.len(), typed.names);
            let body = emit_fields(typed.names, prefix, fields, fields.len());
            assert(walk.names == typed.names.insert(key, name));
            assert(typed.names.submap_of(walk.names));
            lemma_submap_trans(names, typed.names, walk.names);
            let so_far = typed.calls.push(Call::PushObjectType(name)) + body.calls;
            lemma_opened_push(typed.calls, Call::PushObjectType(name));
            lemma_opened_concat(typed.calls.push(Call::PushObjectType(name)), body.calls);
            lemma_opened_push(so_far, Call::PopObjectType);
            if numbered(names, prefix) {
                lemma_numbered_insert(typed.names, prefix, key);
                lemma_len_subset(names.dom(), typed.names.dom());
                let a = names.dom().len();
                let b = typed.names.dom().len();
                assert(opened(so_far) =~= opened(typed.calls).push(name));
                assert(fresh_names(prefix, a, b).push(name) =~= fresh_names(prefix, a, b + 1));
            }
        }
        assert(walk.outcome is Ok);
        assert(walk.names.contains_key(key) && walk.names[key] == walk.outcome->Ok_0);
        assert forall|later: Names| walk.names.submap_of(later) implies #[trigger] walk_object(
            later,
            prefix,
            fields,
        ) == idle(later, walk.outcome) by {
            lemma_submap_trans(typed.names, walk.names, later);
            lemma_walk_signature_again(names, prefix, fields, fields.len(), later);
            assert(later.dom().contains(key));
        }
    }
}

/// Giving the accumulator a field only adds names.
pub proof fn lemma_emit_field(names: Names, prefix: Seq<char>, key: Seq<char>, value: Tree)
    ensures
        grows(names, prefix, emit_field(names, prefix, key, value)),
{
    let field = emit_field(names, prefix, key, value);
    match value {
        Tree::Array(items) => {
            lemma_walk_array(names, prefix, items);
            let inner = walk_array(names, prefix, items);
            if inner.outcome is Ok {
                lemma_opened_push(inner.calls, Call::Array(key, inner.outcome->Ok_0));
            }
        },
        Tree::Object(fields) => {
            lemma_walk_object(names, prefix, fields);
            let inner = walk_object(names, prefix, fields);
            if inner.outcome is Ok {
                lemma_opened_push(inner.calls, Call::Object(key, inner.outcome->Ok_0));
            }
        },
        Tree::Null => {
            lemma_opened_push(Seq::empty(), Call::Unknown(key));
            assert(field.calls =~= Seq::<Call>::empty().push(Call::Unknown(key)));
            lemma_grows_quiet(names, prefix, field);
        },
        Tree::Boolean(_) => {
            lemma_opened_push(Seq::empty(), Call::Boolean(key));
            assert(field.calls =~= Seq::<Call>::empty().push(Call::Boolean(key)));
            lemma_grows_quiet(names, prefix, field);
        },
        Tree::String(_) => {
            lemma_opened_push(Seq::empty(), Call::String(key));
            assert(field.calls =~= Seq::<Call>::empty().push(Call::String(key)));
            lemma_grows_quiet(names, prefix, field);
        },
        Tree::Number(parts) => {
            if field.outcome is Ok {
                let call = field.calls[0];
                lemma_opened_push(Seq::empty(), call);
                assert(field.calls =~= Seq::<Call>::empty().push(call));
            }
            lemma_grows_quiet(names, prefix, field);
        },
    }
}

/// Giving the accumulator the first `n` fields of an object only adds names.
pub proof fn lemma_emit_fields(
    names: Names,
    prefix: Seq<char>,
    fields: Seq<(Seq<char>, Tree)>,
    n: nat,
)
    ensures
        grows(names, prefix, emit_fields(names, prefix, fields, n)),
    decreases n,
{
    if n == 0 || n > fields.len() {
        lemma_grows_idle(names, prefix, Ok::<(), Error>(()));
    } else {
        lemma_emit_fields(names, prefix, fields, (n - 1) as nat);
        let before = emit_fields(names, prefix, fields, (n - 1) as nat);
        if before.outcome is Ok {
            lemma_emit_field(before.names, prefix, fields[n - 1].0, fields[n - 1].1);
            let field = emit_field(before.names, prefix, fields[n - 1].0, fields[n - 1].1);
            lemma_grows_then(names, prefix, before, field, field.outcome);
        }
    }
}

/// In a whole run every shape gets one name and every name one shape, the
/// names are the stem with the numbers from zero up, and the declarations
/// are opened in the order of those numbers, after the root's: no shape is
/// declared twice, and no two under one name.
pub proof fn lemma_walk_root(
    prefix: Seq<char>,
    root_name: Seq<char>,
    fields: Seq<(Seq<char>, Tree)>,
)
    ensures
        numbered(walk_root(prefix, root_name, fields).names, prefix),
        opened(walk_root(prefix, root_name, fields).calls) == seq![root_name] + fresh_names(
            prefix,
            0,
            walk_root(prefix, root_name, fields).names.dom().len(),
        ),
{
    let walk = walk_root(prefix, root_name, fields);
    let body = emit_fields(Names::empty(), prefix, fields, fields.len());
    let root = seq![Call::PushObjectType(root_name)];
    assert(numbered(Names::empty(), prefix));
    lemma_emit_fields(Names::empty(), prefix, fields, fields.len());
    lemma_opened_push(Seq::empty(), Call::PushObjectType(root_name));
    assert(root =~= Seq::<Call>::empty().push(Call::PushObjectType(root_name)));
    assert(opened(root) =~= seq![root_name]);
    lemma_opened_concat(root, body.calls);
    lemma_opened_push(root + body.calls, Call::PopObjectType);
}

/// Two names of a numbered table that stand for two shapes are two names.
pub proof fn lemma_names_differ(names: Names, prefix: Seq<char>, a: Signature, b: Signature)
    requires
        numbered(names, prefix),
        names.contains_key(a),
        names.contains_key(b),
        a != b,
    ensures
        names[a] != names[b],
{
}

/// An object whose fields have the names and types of the fields of an
/// object met before, in whatever order, gets the name which that one got,
/// and nothing is declared for it: its walk is the typing of its fields.
/// `later` is the table when the second object is met; it holds the names
/// that the walk of the first left.
pub proof fn lemma_same_shape_same_name(
    names: Names,
    prefix: Seq<char>,
    first: Seq<(Seq<char>, Tree)>,
    later: Names,
    second: Seq<(Seq<char>, Tree)>,
)
    requires
        walk_object(names, prefix, first).outcome is Ok,
        walk_object(names, prefix, first).names.submap_of(later),
        walk_signature(later, prefix, second, second.len()).outcome is Ok,
        canonical(walk_signature(names, prefix, first, first.len()).outcome->Ok_0) == canonical(
            walk_signature(later, prefix, second, second.len()).outcome->Ok_0,
        ),
    ensures
        walk_object(later, prefix, second).outcome == walk_object(names, prefix, first).outcome,
        walk_object(later, prefix, second).calls == walk_signature(
            later,
            prefix,
            second,
            second.len(),
        ).calls,
        walk_object(later, prefix, second).names == walk_signature(
            later,
            prefix,
            second,
            second.len(),
        ).names,
{
    let once = walk_object(names, prefix, first);
    let typed = walk_signature(names, prefix, first, first.len());
    let key = canonical(typed.outcome->Ok_0);
    assert(once.names.contains_key(key) && once.names[key] == once.outcome->Ok_0);
    lemma_walk_signature(later, prefix, second, second.len());
    let again = walk_signature(later, prefix, second, second.len());
    assert(later.dom().contains(key));
    assert(again.names.dom().contains(key));
}

/// Every shape that a run names is declared once: among the declarations
/// opened after the root's there is one under its name, and no second.
pub proof fn lemma_declared_once(
    prefix: Seq<char>,
    root_name: Seq<char>,
    fields: Seq<(Seq<char>, Tree)>,
    key: Signature,
)
    requires
        walk_root(prefix, root_name, fields).names.contains_key(key),
    ensures
        ({
            let walk = walk_root(prefix, root_name, fields);
            let declarations = opened(walk.calls);
            exists|at: int|
                {
                    &&& 1 <= at < declarations.len()
                    &&& #[trigger] declarations[at] == walk.names[key]
                    &&& forall|other: int|
                        1 <= other < declarations.len() && other != at
                            ==> #[trigger] declarations[other] != walk.names[key]
                }
        }),
{
    let walk = walk_root(prefix, root_name, fields);
    let declarations = opened(walk.calls);
    let n = walk.names.dom().len();
    lemma_walk_root(prefix, root_name, fields);
    let number = choose|i: nat| i < n && walk.names[key] == prefix + #[trigger] decimal(i);
    let at = number as int + 1;
    assert(declarations[at] == fresh_names(prefix, 0, n)[number as int]);
    assert forall|other: int| 1 <= other < declarations.len() && other != at implies #[trigger]
        declarations[other] != walk.names[key] by {
        assert(declarations[other] == fresh_names(prefix, 0, n)[other - 1]);
        lemma_fresh_names_differ(prefix, (other - 1) as nat, number);
    }
}

/// The name of the field that a call gives, where it gives one.
pub open spec fn field_of(call: Call) -> Option<Seq<char>> {
    match call {
        Call::PushObjectType(_) => None,
        Call::PopObjectType => None,
        Call::Number(key, _) => Some(key),
        Call::Boolean(key) => Some(key),
        Call::String(key) => Some(key),
        Call::Unknown(key) => Some(key),
        Call::Array(key, _) => Some(key),
        Call::Object(key, _) => Some(key),
    }
}

/// The first `n` fields of an object whose fields were typed are given to
/// the accumulator with one call each, in the object's order: the call for
/// a field is the one call of giving that field alone.
pub proof fn lemma_emit_typed_fields_calls(
    names: Names,
    prefix: Seq<char>,
    fields: Seq<(Seq<char>, Tree)>,
    n: nat,
    later: Names,
)
    requires
        n <= fields.len(),
        walk_signature(names, prefix, fields, n).outcome is Ok,
        walk_signature(names, prefix, fields, n).names.submap_of(later),
    ensures
        emit_fields(later, prefix, fields, n).calls.len() == n,
        forall|i: int|
            0 <= i < n ==> {
                let call = #[trigger] emit_fields(later, prefix, fields, n).calls[i];
                &&& emit_field(later, prefix, fields[i].0, fields[i].1).calls == seq![call]
                &&& field_of(call) == Some(fields[i].0)
            },
    decreases n,
{
    if n > 0 {
        let before = walk_signature(names, prefix, fields, (n - 1) as nat);
        let value = fields[n - 1].1;
        let key = fields[n - 1].0;
        lemma_walk_value(before.names, prefix, value);
        let typed = walk_value(before.names, prefix, value);
        lemma_submap_trans(before.names, typed.names, later);
        lemma_emit_typed_fields(names, prefix, fields, (n - 1) as nat, later);
        lemma_emit_typed_fields_calls(names, prefix, fields, (n - 1) as nat, later);
        let done = emit_fields(later, prefix, fields, (n - 1) as nat);
        let field = emit_field(later, prefix, key, value);
        let whole = emit_fields(later, prefix, fields, n);
        assert(walk_value(later, prefix, value) == idle(later, typed.outcome));
        match value {
            Tree::Array(items) => {
                let inner = walk_array(later, prefix, items);
                assert(inner.calls == Seq::<Call>::empty());
                assert(field.calls =~= seq![Call::Array(key, inner.outcome->Ok_0)]);
            },
            Tree::Object(inner_fields) => {
                let inner = walk_object(later, prefix, inner_fields);
                assert(inner.calls == Seq::<Call>::empty());
                assert(field.calls =~= seq![Call::Object(key, inner.outcome->Ok_0)]);
            },
            _ => {},
        }
        assert(field.calls.len() == 1);
        assert(whole.calls == done.calls + field.calls);
        assert forall|i: int| 0 <= i < n implies {
            let call = #[trigger] whole.calls[i];
            &&& emit_field(later, prefix, fields[i].0, fields[i].1).calls == seq![call]
            &&& field_of(call) == Some(fields[i].0)
        } by {
            if i < n - 1 {
                assert(whole.calls[i] == done.calls[i]);
            } else {
                assert(whole.calls[i] == field.calls[0]);
                assert(field.calls =~= seq![field.calls[0]]);
            }
        }
    }
}

/// An object whose shape has no name yet is declared under the stem and the
/// number of names in the table, where no error is met: after the calls of
/// the typing of its fields come the opening under that name, one call for
/// each field in the object's order, and the closing; and the table then
/// holds the shape under that name.
pub proof fn lemma_new_object(names: Names, prefix: Seq<char>, fields: Seq<(Seq<char>, Tree)>)
    requires
        walk_signature(names, prefix, fields, fields.len()).outcome is Ok,
        !walk_signature(names, prefix, fields, fields.len()).names.contains_key(
            canonical(walk_signature(names, prefix, fields, fields.len()).outcome->Ok_0),
        ),
    ensures
        ({
            let typed = walk_signature(names, prefix, fields, fields.len());
            let key = canonical(typed.outcome->Ok_0);
            let name = prefix + decimal(typed.names.dom().len());
            let body = emit_fields(typed.names, prefix, fields, fields.len());
            let walk = walk_object(names, prefix, fields);
            &&& walk.outcome == Ok::<Seq<char>, Error>(name)
            &&& walk.calls == typed.calls.push(Call::PushObjectType(name)) + body.calls.push(
                Call::PopObjectType,
            )
            &&& body.calls.len() == fields.len()
            &&& forall|i: int|
                0 <= i < fields.len() ==> field_of(#[trigger] body.calls[i]) == Some(fields[i].0)
            &&& walk.names == typed.names.insert(key, name)
        }),
{
    let typed = walk_signature(names, prefix, fields, fields.len());
    let body = emit_fields(typed.names, prefix, fields, fields.len());
    let name = fresh_name(typed.names, prefix);
    let walk = walk_object(names, prefix, fields);
    lemma_emit_typed_fields(names, prefix, fields, fields.len(), typed.names);
    lemma_emit_typed_fields_calls(names, prefix, fields, fields.len(), typed.names);
    assert(walk.calls =~= typed.calls.push(Call::PushObjectType(name)) + body.calls.push(
        Call::PopObjectType,
    ));
}

} // verus!
