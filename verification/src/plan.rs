//! What the engine does with a document: which names it gives, which calls
//! it makes on the accumulator and in what order, and where it stops.
//!
//! A walk starts from the names that the table holds and gives the names it
//! holds afterwards, the calls made on the way, and the outcome. An error
//! ends a walk at once: nothing is called and nothing is named after it.
//! The calls are those that the engine makes as long as the accumulator
//! takes each of them.

use crate::accumulator::Call;
use crate::number::classify;
use crate::table::{canonical, Names, Signature};
use crate::text::decimal;
use crate::types::{Error, Shape};
use crate::value::Tree;
use vstd::prelude::*;

verus! {

/// What a walk leaves behind.
pub struct Walk<T> {
    /// The names that the table holds after the walk.
    pub names: Names,
    /// The calls made on the accumulator, in order.
    pub calls: Seq<Call>,
    /// The names that the table holds when each of the calls is made.
    pub tables: Seq<Names>,
    /// What the walk found, or the error that ended it.
    pub outcome: Result<T, Error>,
}

/// A walk that changed nothing: no call, no name, and this outcome.
pub open spec fn idle<T>(names: Names, outcome: Result<T, Error>) -> Walk<T> {
    Walk { names, calls: Seq::empty(), tables: Seq::empty(), outcome }
}

/// The name that a new shape gets: the stem, then the number of shapes
/// that have a name already.
pub open spec fn fresh_name(names: Names, prefix: Seq<char>) -> Seq<char> {
    prefix + decimal(names.dom().len())
}

/// The type of `value`. An object or an array is walked for it, which
/// declares the shapes met for the first time.
pub open spec fn walk_value(names: Names, prefix: Seq<char>, value: Tree) -> Walk<Shape>
    decreases value, 0nat,
{
    match value {
        Tree::Null => idle(names, Ok(Shape::Null)),
        Tree::Boolean(_) => idle(names, Ok(Shape::Boolean)),
        Tree::String(_) => idle(names, Ok(Shape::String)),
        Tree::Number(parts) => Walk {
            names,
            calls: Seq::empty(),
            tables: Seq::empty(),
            outcome: match classify(parts) {
                Ok(kind) => Ok(Shape::Number(kind)),
                Err(e) => Err(e),
            },
        },
        Tree::Array(items) => {
            let inner = walk_array(names, prefix, items);
            Walk {
                names: inner.names,
                calls: inner.calls,
                tables: inner.tables,
                outcome: match inner.outcome {
                    Ok(element) => Ok(Shape::Array(Box::new(element))),
                    Err(e) => Err(e),
                },
            }
        },
        Tree::Object(fields) => {
            let inner = walk_object(names, prefix, fields);
            Walk {
                names: inner.names,
                calls: inner.calls,
                tables: inner.tables,
                outcome: match inner.outcome {
                    Ok(name) => Ok(Shape::Object(name)),
                    Err(e) => Err(e),
                },
            }
        },
    }
}

/// The type of the elements of an array: that of the first, which every
/// element must have; nothing is known of the elements of an empty array.
pub open spec fn walk_array(names: Names, prefix: Seq<char>, items: Seq<Tree>) -> Walk<Shape>
    decreases items, items.len() + 1,
{
    if items.len() == 0 {
        Walk { names, calls: Seq::empty(), tables: Seq::empty(), outcome: Ok(Shape::Null) }
    } else {
        let first = walk_value(names, prefix, items[0]);
        match first.outcome {
            Err(e) => Walk {
                names: first.names,
                calls: first.calls,
                tables: first.tables,
                outcome: Err(e),
            },
            Ok(overall) => {
                let rest = walk_items(first.names, prefix, items, overall, items.len());
                Walk {
                    names: rest.names,
                    calls: first.calls + rest.calls,
                    tables: first.tables + rest.tables,
                    outcome: match rest.outcome {
                        Ok(_) => Ok(overall),
                        Err(e) => Err(e),
                    },
                }
            },
        }
    }
}

/// Holds the first `n` elements of an array against the type `overall`.
pub open spec fn walk_items(
    names: Names,
    prefix: Seq<char>,
    items: Seq<Tree>,
    overall: Shape,
    n: nat,
) -> Walk<()>
    decreases items, n,
{
    if n == 0 || n > items.len() {
        Walk { names, calls: Seq::empty(), tables: Seq::empty(), outcome: Ok(()) }
    } else {
        let before = walk_items(names, prefix, items, overall, (n - 1) as nat);
        if before.outcome is Err {
            before
        } else {
            let item = walk_value(before.names, prefix, items[n - 1]);
            Walk {
                names: item.names,
                calls: before.calls + item.calls,
                tables: before.tables + item.tables,
                outcome: match item.outcome {
                    Ok(found) => if found == overall {
                        Ok(())
                    } else {
                        Err(Error::DifferingArrayType)
                    },
                    Err(e) => Err(e),
                },
            }
        }
    }
}

/// The name of the declaration of an object. Its fields are typed first.
/// Where their signature has a name, that is it and nothing is declared.
/// Else the object gets a fresh name, is declared under it field by field,
/// and its signature is put under that name.
pub open spec fn walk_object(
    names: Names,
    prefix: Seq<char>,
    fields: Seq<(Seq<char>, Tree)>,
) -> Walk<Seq<char>>
    decreases fields, fields.len() + 1,
{
    let typed = walk_signature(names, prefix, fields, fields.len());
    match typed.outcome {
        Err(e) => Walk {
            names: typed.names,
            calls: typed.calls,
            tables: typed.tables,
            outcome: Err(e),
        },
        Ok(signature) => {
            let key = canonical(signature);
            if typed.names.contains_key(key) {
                Walk {
                    names: typed.names,
                    calls: typed.calls,
                    tables: typed.tables,
                    outcome: Ok(typed.names[key]),
                }
            } else {
                let name = fresh_name(typed.names, prefix);
                let body = emit_fields(typed.names, prefix, fields, fields.len());
                let opened = typed.calls.push(Call::PushObjectType(name)) + body.calls;
                let tables = typed.tables.push(typed.names) + body.tables;
                match body.outcome {
                    Err(e) => Walk { names: body.names, calls: opened, tables, outcome: Err(e) },
                    Ok(_) => Walk {
                        names: body.names.insert(key, name),
                        calls: opened.push(Call::PopObjectType),
                        tables: tables.push(body.names),
                        outcome: Ok(name),
                    },
                }
            }
        },
    }
}

/// The first `n` fields of an object, each with its type, in the object's
/// order.
pub open spec fn walk_signature(
    names: Names,
    prefix: Seq<char>,
    fields: Seq<(Seq<char>, Tree)>,
    n: nat,
) -> Walk<Signature>
    decreases fields, n,
{
    if n == 0 || n > fields.len() {
        Walk { names, calls: Seq::empty(), tables: Seq::empty(), outcome: Ok(Seq::empty()) }
    } else {
        let before = walk_signature(names, prefix, fields, (n - 1) as nat);
        match before.outcome {
            Err(_) => before,
            Ok(signature) => {
                let field = walk_value(before.names, prefix, fields[n - 1].1);
                Walk {
                    names: field.names,
                    calls: before.calls + field.calls,
                    tables: before.tables + field.tables,
                    outcome: match field.outcome {
                        Ok(found) => Ok(signature.push((fields[n - 1].0, found))),
                        Err(e) => Err(e),
                    },
                }
            },
        }
    }
}

/// Gives the accumulator one field of the open declaration.
pub open spec fn emit_field(names: Names, prefix: Seq<char>, key: Seq<char>, value: Tree) -> Walk<
    (),
>
    decreases value, 0nat,
{
    match value {
        Tree::Null => Walk {
            names,
            calls: seq![Call::Unknown(key)],
            tables: seq![names],
            outcome: Ok(()),
        },
        Tree::Boolean(_) => Walk {
            names,
            calls: seq![Call::Boolean(key)],
            tables: seq![names],
            outcome: Ok(()),
        },
        Tree::String(_) => Walk {
            names,
            calls: seq![Call::String(key)],
            tables: seq![names],
            outcome: Ok(()),
        },
        Tree::Number(parts) => match classify(parts) {
            Ok(kind) => Walk {
                names,
                calls: seq![Call::Number(key, kind)],
                tables: seq![names],
                outcome: Ok(()),
            },
            Err(e) => Walk { names, calls: Seq::empty(), tables: Seq::empty(), outcome: Err(e) },
        },
        Tree::Array(items) => {
            let inner = walk_array(names, prefix, items);
            match inner.outcome {
                Ok(element) => Walk {
                    names: inner.names,
                    calls: inner.calls.push(Call::Array(key, element)),
                    tables: inner.tables.push(inner.names),
                    outcome: Ok(()),
                },
                Err(e) => Walk {
                    names: inner.names,
                    calls: inner.calls,
                    tables: inner.tables,
                    outcome: Err(e),
                },
            }
        },
        Tree::Object(fields) => {
            let inner = walk_object(names, prefix, fields);
            match inner.outcome {
                Ok(name) => Walk {
                    names: inner.names,
                    calls: inner.calls.push(Call::Object(key, name)),
                    tables: inner.tables.push(inner.names),
                    outcome: Ok(()),
                },
                Err(e) => Walk {
                    names: inner.names,
                    calls: inner.calls,
                    tables: inner.tables,
                    outcome: Err(e),
                },
            }
        },
    }
}

/// Gives the accumulator the first `n` fields of an object, in the object's
/// order.
pub open spec fn emit_fields(
    names: Names,
    prefix: Seq<char>,
    fields: Seq<(Seq<char>, Tree)>,
    n: nat,
) -> Walk<()>
    decreases fields, n,
{
    if n == 0 || n > fields.len() {
        Walk { names, calls: Seq::empty(), tables: Seq::empty(), outcome: Ok(()) }
    } else {
        let before = emit_fields(names, prefix, fields, (n - 1) as nat);
        if before.outcome is Err {
            before
        } else {
            let field = emit_field(before.names, prefix, fields[n - 1].0, fields[n - 1].1);
            Walk {
                names: field.names,
                calls: before.calls + field.calls,
                tables: before.tables + field.tables,
                outcome: field.outcome,
            }
        }
    }
}

/// The whole run on a document whose root is an object with these fields:
/// the root is declared under `root_name`, which the table never holds.
pub open spec fn walk_root(
    prefix: Seq<char>,
    root_name: Seq<char>,
    fields: Seq<(Seq<char>, Tree)>,
) -> Walk<()> {
    let body = emit_fields(Names::empty(), prefix, fields, fields.len());
    let opened = seq![Call::PushObjectType(root_name)] + body.calls;
    let tables = seq![Names::empty()] + body.tables;
    match body.outcome {
        Err(e) => Walk { names: body.names, calls: opened, tables, outcome: Err(e) },
        Ok(_) => Walk {
            names: body.names,
            calls: opened.push(Call::PopObjectType),
            tables: tables.push(body.names),
            outcome: Ok(()),
        },
    }
}

/// Whether a walk holds a table for each of its calls.
pub open spec fn tables_fit<T>(walk: Walk<T>) -> bool {
    walk.tables.len() == walk.calls.len()
}

/// Every walk holds a table for each of its calls.
pub proof fn lemma_walk_value_tables(names: Names, prefix: Seq<char>, value: Tree)
    ensures
        tables_fit(walk_value(names, prefix, value)),
    decreases value, 0nat,
{
    match value {
        Tree::Array(items) => {
            lemma_walk_array_tables(names, prefix, items);
        },
        Tree::Object(fields) => {
            lemma_walk_object_tables(names, prefix, fields);
        },
        _ => {},
    }
}

/// The same of giving the accumulator a field.
pub proof fn lemma_emit_field_tables(names: Names, prefix: Seq<char>, key: Seq<char>, value: Tree)
    ensures
        tables_fit(emit_field(names, prefix, key, value)),
    decreases value, 0nat,
{
    match value {
        Tree::Array(items) => {
            lemma_walk_array_tables(names, prefix, items);
        },
        Tree::Object(fields) => {
            lemma_walk_object_tables(names, prefix, fields);
        },
        _ => {},
    }
}

/// The same of the type of an array's elements.
pub proof fn lemma_walk_array_tables(names: Names, prefix: Seq<char>, items: Seq<Tree>)
    ensures
        tables_fit(walk_array(names, prefix, items)),
    decreases items, items.len() + 1,
{
    if items.len() > 0 {
        lemma_walk_value_tables(names, prefix, items[0]);
        let first = walk_value(names, prefix, items[0]);
        if first.outcome is Ok {
            lemma_walk_items_tables(first.names, prefix, items, first.outcome->Ok_0, items.len());
        }
    }
}

/// The same of the first `n` elements of an array held against a type.
pub proof fn lemma_walk_items_tables(
    names: Names,
    prefix: Seq<char>,
    items: Seq<Tree>,
    overall: Shape,
    n: nat,
)
    ensures
        tables_fit(walk_items(names, prefix, items, overall, n)),
    decreases items, n,
{
    if n == 0 || n > items.len() {
    } else {
        lemma_walk_items_tables(names, prefix, items, overall, (n - 1) as nat);
        let before = walk_items(names, prefix, items, overall, (n - 1) as nat);
        if before.outcome is Ok {
            lemma_walk_value_tables(before.names, prefix, items[n - 1]);
        }
    }
}

/// The same of the typing of the first `n` fields of an object.
pub proof fn lemma_walk_signature_tables(
    names: Names,
    prefix: Seq<char>,
    fields: Seq<(Seq<char>, Tree)>,
    n: nat,
)
    ensures
        tables_fit(walk_signature(names, prefix, fields, n)),
    decreases fields, n,
{
    if n == 0 || n > fields.len() {
    } else {
        lemma_walk_signature_tables(names, prefix, fields, (n - 1) as nat);
        let before = walk_signature(names, prefix, fields, (n - 1) as nat);
        if before.outcome is Ok {
            lemma_walk_value_tables(before.names, prefix, fields[n - 1].1);
        }
    }
}

/// The same of the name of an object's declaration.
pub proof fn lemma_walk_object_tables(
    names: Names,
    prefix: Seq<char>,
    fields: Seq<(Seq<char>, Tree)>,
)
    ensures
        tables_fit(walk_object(names, prefix, fields)),
    decreases fields, fields.len() + 1,
{
    lemma_walk_signature_tables(names, prefix, fields, fields.len());
    let typed = walk_signature(names, prefix, fields, fields.len());
    if typed.outcome is Ok {
        lemma_emit_fields_tables(typed.names, prefix, fields, fields.len());
    }
}

/// The same of giving the accumulator the first `n` fields of an object.
pub proof fn lemma_emit_fields_tables(
    names: Names,
    prefix: Seq<char>,
    fields: Seq<(Seq<char>, Tree)>,
    n: nat,
)
    ensures
        tables_fit(emit_fields(names, prefix, fields, n)),
    decreases fields, n,
{
    if n == 0 || n > fields.len() {
    } else {
        lemma_emit_fields_tables(names, prefix, fields, (n - 1) as nat);
        let before = emit_fields(names, prefix, fields, (n - 1) as nat);
        if before.outcome is Ok {
            lemma_emit_field_tables(before.names, prefix, fields[n - 1].0, fields[n - 1].1);
        }
    }
}

} // verus!
