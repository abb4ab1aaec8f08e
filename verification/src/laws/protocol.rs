//! The order in which the calls of a run come: a field inside an open
//! declaration, a closing after its opening, and a declaration before any
//! field that names it.

use crate::accumulator::Call;
use crate::laws::names::lemma_emit_typed_fields;
use crate::plan::{
    emit_field, emit_fields, fresh_name, walk_array, walk_items, walk_object, walk_root,
    walk_signature, walk_value, Walk,
};
use crate::table::{canonical, Names, Signature};
use crate::types::{Error, Shape};
use crate::value::Tree;
use vstd::prelude::*;

verus! {

/// What someone who reads the calls of a run knows after some of them.
pub struct Reader {
    /// The names of the declarations that are open, innermost last.
    pub open: Seq<Seq<char>>,
    /// The names of the declarations that were closed.
    pub closed: Set<Seq<char>>,
    /// Whether every call so far came in order.
    pub sound: bool,
}

/// The name of the declaration that a type names, where it is an object or
/// arrays of objects.
pub open spec fn object_in(ty: Shape) -> Option<Seq<char>> {
    match ty.innermost() {
        Shape::Object(name) => Some(name),
        _ => None,
    }
}

/// The reader after one more call. A field is in order inside an open
/// declaration, and where it names a declaration, after that one was
/// closed; a closing is in order where a declaration is open.
pub open spec fn read(reader: Reader, call: Call) -> Reader {
    match call {
        Call::PushObjectType(name) => Reader { open: reader.open.push(name), ..reader },
        Call::PopObjectType => if reader.open.len() > 0 {
            Reader {
                open: reader.open.drop_last(),
                closed: reader.closed.insert(reader.open.last()),
                ..reader
            }
        } else {
            Reader { sound: false, ..reader }
        },
        Call::Object(_, name) => Reader {
            sound: reader.sound && reader.open.len() > 0 && reader.closed.contains(name),
            ..reader
        },
        Call::Array(_, element) => Reader {
            sound: reader.sound && reader.open.len() > 0 && (object_in(element) is Some
                ==> reader.closed.contains(object_in(element)->Some_0)),
            ..reader
        },
        _ => Reader { sound: reader.sound && reader.open.len() > 0, ..reader },
    }
}

/// The reader after a run of calls.
pub open spec fn read_all(reader: Reader, calls: Seq<Call>) -> Reader
    decreases calls.len(),
{
    if calls.len() == 0 {
        reader
    } else {
        read(read_all(reader, calls.drop_last()), calls.last())
    }
}

/// Reading two runs of calls one after the other is reading them as one.
pub proof fn lemma_read_concat(reader: Reader, first: Seq<Call>, second: Seq<Call>)
    ensures
        read_all(reader, first + second) == read_all(read_all(reader, first), second),
    decreases second.len(),
{
    if second.len() == 0 {
        assert(first + second =~= first);
    } else {
        lemma_read_concat(reader, first, second.drop_last());
        assert((first + second).drop_last() =~= first + second.drop_last());
        assert((first + second).last() == second.last());
    }
}

/// Reading one more call.
pub proof fn lemma_read_push(reader: Reader, calls: Seq<Call>, call: Call)
    ensures
        read_all(reader, calls.push(call)) == read(read_all(reader, calls), call),
{
    assert(calls.push(call).drop_last() =~= calls);
}

/// Whether the reader saw the closing of every declaration that the table
/// names.
pub open spec fn knows(reader: Reader, names: Names) -> bool {
    forall|key: Signature| #[trigger]
        names.contains_key(key) ==> reader.closed.contains(names[key])
}

/// Whether a reader who knew the table and read a walk read it in order:
/// every call came in order, no closing is forgotten, the reader knows the
/// table that the walk left, and where the walk came to no error, the
/// declarations that were open are open, and no other.
pub open spec fn in_order<T>(reader: Reader, walk: Walk<T>) -> bool {
    let after = read_all(reader, walk.calls);
    &&& after.sound
    &&& reader.closed.subset_of(after.closed)
    &&& knows(after, walk.names)
    &&& walk.outcome is Ok ==> after.open == reader.open
}

proof fn lemma_in_order_idle<T>(reader: Reader, names: Names, outcome: Result<T, Error>)
    requires
        reader.sound,
        knows(reader, names),
    ensures
        in_order(reader, Walk { names, calls: Seq::empty(), tables: Seq::empty(), outcome }),
{
}

/// Two walks that are each read in order, one after the other.
proof fn lemma_in_order_then<T, U, V>(
    reader: Reader,
    first: Walk<T>,
    second: Walk<U>,
    outcome: Result<V, Error>,
)
    requires
        in_order(reader, first),
        first.outcome is Ok,
        in_order(read_all(reader, first.calls), second),
        outcome is Ok ==> second.outcome is Ok,
    ensures
        in_order(
            reader,
            Walk {
                names: second.names,
                calls: first.calls + second.calls,
                tables: first.tables + second.tables,
                outcome,
            },
        ),
        read_all(reader, first.calls + second.calls) == read_all(
            read_all(reader, first.calls),
            second.calls,
        ),
{
    lemma_read_concat(reader, first.calls, second.calls);
}

/// The typing of a value is read in order by a reader who knows the table,
/// and the type it gives names no declaration that is not closed.
pub proof fn lemma_walk_value_in_order(
    reader: Reader,
    names: Names,
    prefix: Seq<char>,
    value: Tree,
)
    requires
        reader.sound,
        knows(reader, names),
    ensures
        in_order(reader, walk_value(names, prefix, value)),
        walk_value(names, prefix, value).outcome matches Ok(ty) ==> (object_in(ty) is Some
            ==> read_all(reader, walk_value(names, prefix, value).calls).closed.contains(
            object_in(ty)->Some_0,
        )),
    decreases value, 0nat,
{
    let walk = walk_value(names, prefix, value);
    match value {
        Tree::Array(items) => {
            lemma_walk_array_in_order(reader, names, prefix, items);
        },
        Tree::Object(fields) => {
            lemma_walk_object_in_order(reader, names, prefix, fields);
        },
        _ => {
            lemma_in_order_idle(reader, names, walk.outcome);
        },
    }
}

/// The same of the type of an array's elements.
pub proof fn lemma_walk_array_in_order(
    reader: Reader,
    names: Names,
    prefix: Seq<char>,
    items: Seq<Tree>,
)
    requires
        reader.sound,
        knows(reader, names),
    ensures
        in_order(reader, walk_array(names, prefix, items)),
        walk_array(names, prefix, items).outcome matches Ok(ty) ==> (object_in(ty) is Some
            ==> read_all(reader, walk_array(names, prefix, items).calls).closed.contains(
            object_in(ty)->Some_0,
        )),
    decreases items, items.len() + 1,
{
    let walk = walk_array(names, prefix, items);
    if items.len() == 0 {
        lemma_in_order_idle(reader, names, walk.outcome);
    } else {
        lemma_walk_value_in_order(reader, names, prefix, items[0]);
        let first = walk_value(names, prefix, items[0]);
        if first.outcome is Ok {
            let overall = first.outcome->Ok_0;
            let middle = read_all(reader, first.calls);
            lemma_walk_items_in_order(middle, first.names, prefix, items, overall, items.len());
            let rest = walk_items(first.names, prefix, items, overall, items.len());
            lemma_in_order_then(reader, first, rest, walk.outcome);
        }
    }
}

/// The same of the first `n` elements of an array held against a type.
pub proof fn lemma_walk_items_in_order(
    reader: Reader,
    names: Names,
    prefix: Seq<char>,
    items: Seq<Tree>,
    overall: Shape,
    n: nat,
)
    requires
        reader.sound,
        knows(reader, names),
    ensures
        in_order(reader, walk_items(names, prefix, items, overall, n)),
    decreases items, n,
{
    let walk = walk_items(names, prefix, items, overall, n);
    if n == 0 || n > items.len() {
        lemma_in_order_idle(reader, names, walk.outcome);
    } else {
        lemma_walk_items_in_order(reader, names, prefix, items, overall, (n - 1) as nat);
        let before = walk_items(names, prefix, items, overall, (n - 1) as nat);
        if before.outcome is Ok {
            let middle = read_all(reader, before.calls);
            lemma_walk_value_in_order(middle, before.names, prefix, items[n - 1]);
            let item = walk_value(before.names, prefix, items[n - 1]);
            lemma_in_order_then(reader, before, item, walk.outcome);
        }
    }
}

/// The same of the typing of the first `n` fields of an object.
pub proof fn lemma_walk_signature_in_order(
    reader: Reader,
    names: Names,
    prefix: Seq<char>,
    fields: Seq<(Seq<char>, Tree)>,
    n: nat,
)
    requires
        reader.sound,
        knows(reader, names),
    ensures
        in_order(reader, walk_signature(names, prefix, fields, n)),
    decreases fields, n,
{
    let walk = walk_signature(names, prefix, fields, n);
    if n == 0 || n > fields.len() {
        lemma_in_order_idle(reader, names, walk.outcome);
    } else {
        lemma_walk_signature_in_order(reader, names, prefix, fields, (n - 1) as nat);
        let before = walk_signature(names, prefix, fields, (n - 1) as nat);
        if before.outcome is Ok {
            let middle = read_all(reader, before.calls);
            lemma_walk_value_in_order(middle, before.names, prefix, fields[n - 1].1);
            let field = walk_value(before.names, prefix, fields[n - 1].1);
            lemma_in_order_then(reader, before, field, walk.outcome);
        }
    }
}

/// The same of the name of an object's declaration: it is the name of a
/// declaration that is closed.
pub proof fn lemma_walk_object_in_order(
    reader: Reader,
    names: Names,
    prefix: Seq<char>,
    fields: Seq<(Seq<char>, Tree)>,
)
    requires
        reader.sound,
        knows(reader, names),
    ensures
        in_order(reader, walk_object(names, prefix, fields)),
        walk_object(names, prefix, fields).outcome matches Ok(name) ==> read_all(
            reader,
            walk_object(names, prefix, fields).calls,
        ).closed.contains(name),
    decreases fields, fields.len() + 1,
{
    let walk = walk_object(names, prefix, fields);
    let typed = walk_signature(names, prefix, fields, fields.len());
    lemma_walk_signature_in_order(reader, names, prefix, fields, fields.len());
    if typed.outcome is Ok {
        let key = canonical(typed.outcome->Ok_0);
        let typed_reader = read_all(reader, typed.calls);
        if !typed.names.contains_key(key) {
            let name = fresh_name(typed.names, prefix);
            let push = Call::PushObjectType(name);
            let body = emit_fields(typed.names, prefix, fields, fields.len());
            lemma_emit_typed_fields(names, prefix, fields, fields.len(), typed.names);
            let opened = read(typed_reader, push);
            lemma_read_push(reader, typed.calls, push);
            lemma_emit_fields_in_order(opened, typed.names, prefix, fields, fields.len());
            lemma_read_concat(reader, typed.calls.push(push), body.calls);
            let so_far = typed.calls.push(push) + body.calls;
            let body_reader = read_all(reader, so_far);
            lemma_read_push(reader, so_far, Call::PopObjectType);
            let after = read(body_reader, Call::PopObjectType);
            assert(body_reader.open == opened.open);
            assert(opened.open.drop_last() =~= typed_reader.open);
            assert(knows(after, walk.names)) by {
                assert forall|k: Signature| #[trigger]
                    walk.names.contains_key(k) implies after.closed.contains(walk.names[k]) by {
                    if k != key {
                        assert(body.names.contains_key(k));
                    }
                }
            }
        }
    }
}

/// A field is given to the accumulator in order: inside the declaration
/// that is open, and after the declaration that it names was closed.
pub proof fn lemma_emit_field_in_order(
    reader: Reader,
    names: Names,
    prefix: Seq<char>,
    key: Seq<char>,
    value: Tree,
)
    requires
        reader.sound,
        reader.open.len() > 0,
        knows(reader, names),
    ensures
        in_order(reader, emit_field(names, prefix, key, value)),
    decreases value, 0nat,
{
    let field = emit_field(names, prefix, key, value);
    match value {
        Tree::Array(items) => {
            lemma_walk_array_in_order(reader, names, prefix, items);
            let inner = walk_array(names, prefix, items);
            if inner.outcome is Ok {
                lemma_read_push(reader, inner.calls, Call::Array(key, inner.outcome->Ok_0));
            }
        },
        Tree::Object(fields) => {
            lemma_walk_object_in_order(reader, names, prefix, fields);
            let inner = walk_object(names, prefix, fields);
            if inner.outcome is Ok {
                lemma_read_push(reader, inner.calls, Call::Object(key, inner.outcome->Ok_0));
            }
        },
        _ => {
            if field.outcome is Ok {
                let call = field.calls[0];
                assert(field.calls =~= Seq::<Call>::empty().push(call));
                lemma_read_push(reader, Seq::empty(), call);
            }
        },
    }
}

/// The first `n` fields of an object are given to the accumulator in
/// order.
pub proof fn lemma_emit_fields_in_order(
    reader: Reader,
    names: Names,
    prefix: Seq<char>,
    fields: Seq<(Seq<char>, Tree)>,
    n: nat,
)
    requires
        reader.sound,
        reader.open.len() > 0,
        knows(reader, names),
    ensures
        in_order(reader, emit_fields(names, prefix, fields, n)),
    decreases fields, n,
{
    let walk = emit_fields(names, prefix, fields, n);
    if n == 0 || n > fields.len() {
        lemma_in_order_idle(reader, names, walk.outcome);
    } else {
        lemma_emit_fields_in_order(reader, names, prefix, fields, (n - 1) as nat);
        let before = emit_fields(names, prefix, fields, (n - 1) as nat);
        if before.outcome is Ok {
            let middle = read_all(reader, before.calls);
            lemma_emit_field_in_order(
                middle,
                before.names,
                prefix,
                fields[n - 1].0,
                fields[n - 1].1,
            );
            let field = emit_field(before.names, prefix, fields[n - 1].0, fields[n - 1].1);
            lemma_in_order_then(reader, before, field, walk.outcome);
        }
    }
}

/// Someone who has read nothing.
pub open spec fn fresh_reader() -> Reader {
    Reader { open: Seq::empty(), closed: Set::empty(), sound: true }
}

/// The calls of a whole run come in order: every field inside an open
/// declaration, every closing after its opening, and every declaration
/// whole before the first field that names it. After a run that came to no
/// error no declaration is open.
pub proof fn lemma_walk_root_in_order(
    prefix: Seq<char>,
    root_name: Seq<char>,
    fields: Seq<(Seq<char>, Tree)>,
)
    ensures
        read_all(fresh_reader(), walk_root(prefix, root_name, fields).calls).sound,
        walk_root(prefix, root_name, fields).outcome is Ok ==> read_all(
            fresh_reader(),
            walk_root(prefix, root_name, fields).calls,
        ).open == Seq::<Seq<char>>::empty(),
{
    let walk = walk_root(prefix, root_name, fields);
    let push = Call::PushObjectType(root_name);
    let body = emit_fields(Names::empty(), prefix, fields, fields.len());
    let opened = read(fresh_reader(), push);
    lemma_read_push(fresh_reader(), Seq::empty(), push);
    assert(seq![push] =~= Seq::<Call>::empty().push(push));
    lemma_emit_fields_in_order(opened, Names::empty(), prefix, fields, fields.len());
    lemma_read_concat(fresh_reader(), seq![push], body.calls);
    lemma_read_push(fresh_reader(), seq![push] + body.calls, Call::PopObjectType);
    if body.outcome is Ok {
        assert(opened.open.drop_last() =~= Seq::<Seq<char>>::empty());
    }
}

} // verus!
