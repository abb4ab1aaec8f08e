//! The engine: it types the values of a document, names the shapes of its
//! objects, and drives an accumulator.

use crate::accumulator::{
    drive, lemma_drive_concat, lemma_drive_one, lemma_taken, lemma_taken_concat, taken, Call,
    Driven, TypeAccumulator,
};
use crate::number::value_into_number;
use crate::parse::{parse, read_json};
use crate::plan::{
    emit_field, emit_fields, fresh_name, lemma_emit_field_tables, lemma_emit_fields_tables,
    lemma_walk_array_tables, lemma_walk_items_tables, lemma_walk_object_tables,
    lemma_walk_signature_tables, lemma_walk_value_tables, tables_fit, walk_array, walk_items,
    walk_object, walk_root, walk_signature, walk_value, Walk,
};
use crate::table::{canonical, signature_of, Names, ObjectTypeTable, Signature};
use crate::text::decimal_string;
use crate::types::{Error, JsonType, Shape};
use crate::value::{fields_of, items_of, lemma_view_array, lemma_view_object, Tree, Value};
use vstd::prelude::*;
use vstd::string::*;

verus! {

/// What a walk comes to on an accumulator in `state`: the error of the
/// first call that the accumulator turns down, else the walk's own outcome.
pub open spec fn result_of<A: TypeAccumulator, T>(state: A::V, walk: Walk<T>) -> Result<T, Error> {
    match drive::<A>(state, walk.calls).refusal {
        Some(e) => Err(e),
        None => walk.outcome,
    }
}

/// The names that the table holds after a walk on an accumulator in
/// `state`: those it held when the call was made that the accumulator
/// turned down, and where it turned none down, those that the walk left,
/// which on an error of the walk are those it held when the error was met.
pub open spec fn table_left<A: TypeAccumulator, T>(state: A::V, walk: Walk<T>) -> Names {
    if drive::<A>(state, walk.calls).refusal is Some {
        walk.tables[taken::<A>(state, walk.calls) as int]
    } else {
        walk.names
    }
}

/// Where a walk leaves the accumulator and the table: the accumulator in
/// the state after the last call that was made, the table with the names of
/// [`table_left`]. Where the walk came to no error on the accumulator, the
/// table holds the names that the walk left, and the declarations that were
/// open are open, and no other.
pub open spec fn landed<A: TypeAccumulator, T>(
    before: A::V,
    walk: Walk<T>,
    after: A::V,
    names: Names,
) -> bool {
    &&& after == drive::<A>(before, walk.calls).state
    &&& names == table_left::<A, T>(before, walk)
    &&& result_of::<A, T>(before, walk) is Ok ==> {
        &&& names == walk.names
        &&& A::open_types(after) == A::open_types(before)
        &&& A::name_prefix(after) == A::name_prefix(before)
    }
}

/// What a function that gives a type gave, with the type as its
/// mathematical value.
pub open spec fn type_result(r: Result<JsonType, Error>) -> Result<Shape, Error> {
    match r {
        Ok(ty) => Ok(ty@),
        Err(e) => Err(e),
    }
}

/// What a function that gives a name gave, with the name as its
/// characters.
pub open spec fn name_result(r: Result<String, Error>) -> Result<Seq<char>, Error> {
    match r {
        Ok(name) => Ok(name@),
        Err(e) => Err(e),
    }
}

/// What a function that gives typed fields gave, with the fields as a
/// signature.
pub open spec fn signature_result(r: Result<Vec<(String, JsonType)>, Error>) -> Result<
    Signature,
    Error,
> {
    match r {
        Ok(fields) => Ok(signature_of(fields@)),
        Err(e) => Err(e),
    }
}

/// A walk that made no call comes to its own outcome and moves nothing.
proof fn lemma_no_calls<A: TypeAccumulator, T>(state: A::V, walk: Walk<T>)
    requires
        walk.calls == Seq::<Call>::empty(),
    ensures
        result_of::<A, T>(state, walk) == walk.outcome,
        drive::<A>(state, walk.calls) == (Driven::<A::V> { state, refusal: None }),
        table_left::<A, T>(state, walk) == walk.names,
{
}

/// A walk that goes on from another: where the first came to an error, so
/// does the whole, with the same error, and it leaves the accumulator and
/// the table as the first does.
proof fn lemma_error_lasts<A: TypeAccumulator, T, U>(
    state: A::V,
    first: Walk<T>,
    whole: Walk<U>,
    more: Seq<Call>,
    more_tables: Seq<Names>,
    e: Error,
)
    requires
        result_of::<A, T>(state, first) == Err::<T, Error>(e),
        tables_fit(first),
        first.outcome is Err ==> whole.calls == first.calls && whole.tables == first.tables
            && whole.names == first.names && whole.outcome == Err::<U, Error>(
            first.outcome->Err_0,
        ),
        first.outcome is Ok ==> whole.calls == first.calls + more && whole.tables == first.tables
            + more_tables,
    ensures
        result_of::<A, U>(state, whole) == Err::<U, Error>(e),
        drive::<A>(state, whole.calls) == drive::<A>(state, first.calls),
        table_left::<A, U>(state, whole) == table_left::<A, T>(state, first),
{
    if first.outcome is Ok {
        lemma_drive_concat::<A>(state, first.calls, more);
        lemma_taken_concat::<A>(state, first.calls, more);
        lemma_taken::<A>(state, first.calls);
    }
}

/// A walk that goes on from calls that were all taken: it leaves the
/// accumulator and the table as the rest does from where those calls left
/// them.
proof fn lemma_goes_on<A: TypeAccumulator, T, U>(
    state: A::V,
    calls: Seq<Call>,
    tables: Seq<Names>,
    middle: A::V,
    rest: Walk<T>,
    whole: Walk<U>,
)
    requires
        drive::<A>(state, calls) == (Driven::<A::V> { state: middle, refusal: None }),
        tables.len() == calls.len(),
        tables_fit(rest),
        whole.calls == calls + rest.calls,
        whole.tables == tables + rest.tables,
        whole.names == rest.names,
    ensures
        drive::<A>(state, whole.calls) == drive::<A>(middle, rest.calls),
        table_left::<A, U>(state, whole) == table_left::<A, T>(middle, rest),
{
    lemma_drive_concat::<A>(state, calls, rest.calls);
    lemma_taken_concat::<A>(state, calls, rest.calls);
    lemma_taken::<A>(middle, rest.calls);
}

/// One call made after a run of calls that were all taken.
proof fn lemma_one_more<A: TypeAccumulator>(
    state: A::V,
    calls: Seq<Call>,
    middle: A::V,
    call: Call,
)
    requires
        drive::<A>(state, calls) == (Driven::<A::V> { state: middle, refusal: None }),
    ensures
        drive::<A>(state, calls.push(call)) == (Driven::<A::V> {
            state: A::apply(middle, call),
            refusal: A::refusal(middle, call),
        }),
        A::refusal(middle, call) is None ==> A::open_types(A::apply(middle, call))
            == call.depth_after(A::open_types(middle)) && A::name_prefix(A::apply(middle, call))
            == A::name_prefix(middle),
        taken::<A>(state, calls.push(call)) == if A::refusal(middle, call) is Some {
            calls.len()
        } else {
            calls.len() + 1
        },
{
    assert(calls.push(call).drop_last() =~= calls);
    lemma_taken::<A>(state, calls);
    if A::refusal(middle, call) is None {
        A::lemma_taken_call(middle, call);
    }
}

/// Where giving the accumulator the first `k` fields of an object came to
/// an error, going on to the first `n` comes to the same error and leaves
/// the accumulator in the same state.
proof fn lemma_emit_fields_stops<A: TypeAccumulator>(
    state: A::V,
    names: Names,
    prefix: Seq<char>,
    fields: Seq<(Seq<char>, Tree)>,
    k: nat,
    n: nat,
)
    requires
        k <= n <= fields.len(),
        result_of::<A, ()>(state, emit_fields(names, prefix, fields, k)) is Err,
    ensures
        result_of::<A, ()>(state, emit_fields(names, prefix, fields, n)) == result_of::<A, ()>(
            state,
            emit_fields(names, prefix, fields, k),
        ),
        drive::<A>(state, emit_fields(names, prefix, fields, n).calls) == drive::<A>(
            state,
            emit_fields(names, prefix, fields, k).calls,
        ),
        table_left::<A, ()>(state, emit_fields(names, prefix, fields, n)) == table_left::<A, ()>(
            state,
            emit_fields(names, prefix, fields, k),
        ),
    decreases n,
{
    if n > k {
        lemma_emit_fields_stops::<A>(state, names, prefix, fields, k, (n - 1) as nat);
        let before = emit_fields(names, prefix, fields, (n - 1) as nat);
        lemma_emit_fields_tables(names, prefix, fields, (n - 1) as nat);
        if before.outcome is Ok {
            let field = emit_field(before.names, prefix, fields[n - 1].0, fields[n - 1].1);
            lemma_taken_concat::<A>(state, before.calls, field.calls);
            lemma_taken::<A>(state, before.calls);
            lemma_drive_concat::<A>(state, before.calls, field.calls);
        }
    }
}

/// Where holding the first `k` elements of an array against a type came to
/// an error, going on to the first `n` comes to the same error and leaves
/// the accumulator in the same state.
proof fn lemma_walk_items_stops<A: TypeAccumulator>(
    state: A::V,
    names: Names,
    prefix: Seq<char>,
    items: Seq<Tree>,
    overall: Shape,
    k: nat,
    n: nat,
)
    requires
        k <= n <= items.len(),
        result_of::<A, ()>(state, walk_items(names, prefix, items, overall, k)) is Err,
    ensures
        result_of::<A, ()>(state, walk_items(names, prefix, items, overall, n)) == result_of::<
            A,
            (),
        >(state, walk_items(names, prefix, items, overall, k)),
        drive::<A>(state, walk_items(names, prefix, items, overall, n).calls) == drive::<A>(
            state,
            walk_items(names, prefix, items, overall, k).calls,
        ),
        table_left::<A, ()>(state, walk_items(names, prefix, items, overall, n)) == table_left::<
            A,
            (),
        >(
            state,
            walk_items(names, prefix, items, overall, k),
        ),
    decreases n,
{
    if n > k {
        lemma_walk_items_stops::<A>(state, names, prefix, items, overall, k, (n - 1) as nat);
        let before = walk_items(names, prefix, items, overall, (n - 1) as nat);
        lemma_walk_items_tables(names, prefix, items, overall, (n - 1) as nat);
        if before.outcome is Ok {
            let item = walk_value(before.names, prefix, items[n - 1]);
            lemma_taken_concat::<A>(state, before.calls, item.calls);
            lemma_taken::<A>(state, before.calls);
            lemma_drive_concat::<A>(state, before.calls, item.calls);
        }
    }
}

/// Where typing the first `k` fields of an object came to
/// an error, going on to the first `n` comes to the same error and leaves
/// the accumulator in the same state.
proof fn lemma_walk_signature_stops<A: TypeAccumulator>(
    state: A::V,
    names: Names,
    prefix: Seq<char>,
    fields: Seq<(Seq<char>, Tree)>,
    k: nat,
    n: nat,
)
    requires
        k <= n <= fields.len(),
        result_of::<A, Signature>(state, walk_signature(names, prefix, fields, k)) is Err,
    ensures
        result_of::<A, Signature>(state, walk_signature(names, prefix, fields, n)) == result_of::<
            A,
            Signature,
        >(state, walk_signature(names, prefix, fields, k)),
        drive::<A>(state, walk_signature(names, prefix, fields, n).calls) == drive::<A>(
            state,
            walk_signature(names, prefix, fields, k).calls,
        ),
        table_left::<A, Signature>(state, walk_signature(names, prefix, fields, n))
            == table_left::<A, Signature>(
            state,
            walk_signature(names, prefix, fields, k),
        ),
    decreases n,
{
    if n > k {
        lemma_walk_signature_stops::<A>(state, names, prefix, fields, k, (n - 1) as nat);
        let before = walk_signature(names, prefix, fields, (n - 1) as nat);
        lemma_walk_signature_tables(names, prefix, fields, (n - 1) as nat);
        if before.outcome is Ok {
            let field = walk_value(before.names, prefix, fields[n - 1].1);
            lemma_taken_concat::<A>(state, before.calls, field.calls);
            lemma_taken::<A>(state, before.calls);
            lemma_drive_concat::<A>(state, before.calls, field.calls);
        }
    }
}

/// The type of one value. An object that is met for the first time is
/// declared on the way.
pub fn value_into_json_type<A: TypeAccumulator>(
    accumulator: &mut A,
    obj_table: &mut ObjectTypeTable,
    val: &Value,
) -> (r: Result<JsonType, Error>)
    ensures
        ({
            let walk = walk_value(old(obj_table)@, A::name_prefix(old(accumulator)@), val@);
            &&& type_result(r) == result_of::<A, Shape>(old(accumulator)@, walk)
            &&& landed::<A, Shape>(
                old(accumulator)@,
                walk,
                final(accumulator)@,
                final(obj_table)@,
            )
        }),
    decreases val, 0nat,
{
    let ghost state = accumulator@;
    let ghost walk = walk_value(obj_table@, A::name_prefix(state), val@);
    match val {
        Value::Null => {
            proof {
                lemma_no_calls::<A, Shape>(state, walk);
            }
            Ok(JsonType::Null)
        },
        Value::Boolean(_) => {
            proof {
                lemma_no_calls::<A, Shape>(state, walk);
            }
            Ok(JsonType::Boolean)
        },
        Value::String(_) => {
            proof {
                lemma_no_calls::<A, Shape>(state, walk);
            }
            Ok(JsonType::String)
        },
        Value::Number(n) => {
            proof {
                lemma_no_calls::<A, Shape>(state, walk);
            }
            match value_into_number(n) {
                Ok(kind) => Ok(JsonType::Number(kind)),
                Err(e) => Err(e),
            }
        },
        Value::Object(o) => {
            proof {
                lemma_view_object(val);
            }
            match get_object_type(accumulator, obj_table, o) {
                Ok(name) => Ok(JsonType::Object(name)),
                Err(e) => Err(e),
            }
        },
        Value::Array(a) => {
            proof {
                lemma_view_array(val);
            }
            match get_array_element_type(accumulator, obj_table, a) {
                Ok(element) => Ok(JsonType::Array(Box::new(element))),
                Err(e) => Err(e),
            }
        },
    }
}

/// The type of the elements of an array: the type of the first, which all
/// must have.
pub fn get_array_element_type<A: TypeAccumulator>(
    accumulator: &mut A,
    obj_table: &mut ObjectTypeTable,
    val: &Vec<Value>,
) -> (r: Result<JsonType, Error>)
    ensures
        ({
            let walk = walk_array(
                old(obj_table)@,
                A::name_prefix(old(accumulator)@),
                items_of(val@),
            );
            &&& type_result(r) == result_of::<A, Shape>(old(accumulator)@, walk)
            &&& landed::<A, Shape>(
                old(accumulator)@,
                walk,
                final(accumulator)@,
                final(obj_table)@,
            )
        }),
    decreases val, 1nat,
{
    let ghost state = accumulator@;
    let ghost names = obj_table@;
    let ghost prefix = A::name_prefix(state);
    let ghost items = items_of(val@);
    let ghost walk = walk_array(names, prefix, items);
    if val.len() == 0 {
        proof {
            lemma_no_calls::<A, Shape>(state, walk);
        }
        return Ok(JsonType::Null);
    }
    let ghost first = walk_value(names, prefix, items[0]);
    let overall_type = match value_into_json_type(accumulator, obj_table, &val[0]) {
        Ok(ty) => ty,
        Err(e) => {
            proof {
                let rest = walk_items(first.names, prefix, items, first.outcome->Ok_0, items.len());
                lemma_walk_value_tables(names, prefix, items[0]);
                lemma_error_lasts::<A, Shape, Shape>(
                    state,
                    first,
                    walk,
                    rest.calls,
                    rest.tables,
                    e,
                );
            }
            return Err(e);
        },
    };
    let ghost overall = overall_type@;
    let ghost middle = accumulator@;
    let mut i: usize = 0;
    proof {
        lemma_no_calls::<A, ()>(middle, walk_items(first.names, prefix, items, overall, 0));
    }
    while i < val.len()
        invariant
            i <= val@.len(),
            state == old(accumulator)@,
            names == old(obj_table)@,
            prefix == A::name_prefix(state),
            items == items_of(val@),
            items.len() > 0,
            walk == walk_array(names, prefix, items),
            first == walk_value(names, prefix, items[0]),
            drive::<A>(state, first.calls) == (Driven::<A::V> { state: middle, refusal: None }),
            A::open_types(middle) == A::open_types(state),
            overall == overall_type@,
            first.outcome == Ok::<Shape, Error>(overall),
            ({
                let done = walk_items(first.names, prefix, items, overall, i as nat);
                &&& done.outcome is Ok
                &&& drive::<A>(middle, done.calls) == (Driven::<A::V> {
                    state: accumulator@,
                    refusal: None,
                })
                &&& obj_table@ == done.names
            }),
            A::open_types(accumulator@) == A::open_types(middle),
            A::name_prefix(accumulator@) == prefix,
        decreases val@.len() - i,
    {
        let ghost done = walk_items(first.names, prefix, items, overall, i as nat);
        let ghost next = walk_items(first.names, prefix, items, overall, (i + 1) as nat);
        let ghost item = walk_value(done.names, prefix, items[i as int]);
        let ghost here = accumulator@;
        let found = value_into_json_type(accumulator, obj_table, &val[i]);
        proof {
            lemma_walk_value_tables(names, prefix, items[0]);
            lemma_walk_items_tables(first.names, prefix, items, overall, i as nat);
            lemma_walk_items_tables(first.names, prefix, items, overall, items.len());
            lemma_walk_value_tables(done.names, prefix, items[i as int]);
            lemma_goes_on::<A, Shape, ()>(middle, done.calls, done.tables, here, item, next);
        }
        let same = match found {
            Ok(ty) => overall_type == ty,
            Err(e) => {
                proof {
                    assert(result_of::<A, ()>(middle, next) == Err::<(), Error>(e));
                    lemma_walk_items_stops::<A>(
                        middle,
                        first.names,
                        prefix,
                        items,
                        overall,
                        (i + 1) as nat,
                        items.len(),
                    );
                    let rest = walk_items(first.names, prefix, items, overall, items.len());
                    lemma_goes_on::<A, (), Shape>(
                        state,
                        first.calls,
                        first.tables,
                        middle,
                        rest,
                        walk,
                    );
                }
                return Err(e);
            },
        };
        if !same {
            proof {
                assert(result_of::<A, ()>(middle, next) == Err::<(), Error>(
                    Error::DifferingArrayType,
                ));
                lemma_walk_items_stops::<A>(
                    middle,
                    first.names,
                    prefix,
                    items,
                    overall,
                    (i + 1) as nat,
                    items.len(),
                );
                let rest = walk_items(first.names, prefix, items, overall, items.len());
                lemma_goes_on::<A, (), Shape>(state, first.calls, first.tables, middle, rest, walk);
            }
            return Err(Error::DifferingArrayType);
        }
        i = i + 1;
    }
    proof {
        let rest = walk_items(first.names, prefix, items, overall, items.len());
        lemma_walk_value_tables(names, prefix, items[0]);
        lemma_walk_items_tables(first.names, prefix, items, overall, items.len());
        lemma_goes_on::<A, (), Shape>(state, first.calls, first.tables, middle, rest, walk);
    }
    Ok(overall_type)
}

/// The name of the declaration of an object, which is made now if the
/// object's shape has none yet.
pub fn get_object_type<A: TypeAccumulator>(
    accumulator: &mut A,
    obj_table: &mut ObjectTypeTable,
    val: &Vec<(String, Value)>,
) -> (r: Result<String, Error>)
    ensures
        ({
            let walk = walk_object(
                old(obj_table)@,
                A::name_prefix(old(accumulator)@),
                fields_of(val@),
            );
            &&& name_result(r) == result_of::<A, Seq<char>>(old(accumulator)@, walk)
            &&& landed::<A, Seq<char>>(
                old(accumulator)@,
                walk,
                final(accumulator)@,
                final(obj_table)@,
            )
        }),
    decreases val, 2nat,
{
    let ghost state = accumulator@;
    let ghost names = obj_table@;
    let ghost prefix = A::name_prefix(state);
    let ghost fields = fields_of(val@);
    let ghost walk = walk_object(names, prefix, fields);
    let ghost typed = walk_signature(names, prefix, fields, fields.len());
    let object_fields = match object_into_fields(accumulator, obj_table, val) {
        Ok(object_fields) => object_fields,
        Err(e) => {
            proof {
                let body = emit_fields(typed.names, prefix, fields, fields.len());
                let name = fresh_name(typed.names, prefix);
                lemma_walk_signature_tables(names, prefix, fields, fields.len());
                if typed.outcome is Ok {
                    let key = canonical(typed.outcome->Ok_0);
                    if typed.names.contains_key(key) {
                        assert(typed.calls + Seq::<Call>::empty() =~= typed.calls);
                        assert(typed.tables + Seq::<Names>::empty() =~= typed.tables);
                        lemma_error_lasts::<A, Signature, Seq<char>>(
                            state,
                            typed,
                            walk,
                            Seq::empty(),
                            Seq::empty(),
                            e,
                        );
                    } else {
                        let more = seq![Call::PushObjectType(name)] + body.calls + if body.outcome
                            is Ok {
                            seq![Call::PopObjectType]
                        } else {
                            Seq::<Call>::empty()
                        };
                        let more_tables = seq![typed.names] + body.tables + if body.outcome is Ok {
                            seq![body.names]
                        } else {
                            Seq::<Names>::empty()
                        };
                        assert(walk.calls =~= typed.calls + more);
                        assert(walk.tables =~= typed.tables + more_tables);
                        lemma_error_lasts::<A, Signature, Seq<char>>(
                            state,
                            typed,
                            walk,
                            more,
                            more_tables,
                            e,
                        );
                    }
                } else {
                    lemma_error_lasts::<A, Signature, Seq<char>>(
                        state,
                        typed,
                        walk,
                        Seq::empty(),
                        Seq::empty(),
                        e,
                    );
                }
            }
            return Err(e);
        },
    };
    let ghost key = canonical(signature_of(object_fields@));
    let ghost typed_state = accumulator@;
    let found = obj_table.get_object_name(clone_fields(&object_fields));
    if let Some(name) = found {
        return Ok(name);
    }
    let mut name = accumulator.prefered_object_name();
    let count = decimal_string(obj_table.count());
    name.append(count.as_str());
    let ghost fresh = fresh_name(typed.names, prefix);
    assert(name@ == fresh);
    let ghost body = emit_fields(typed.names, prefix, fields, fields.len());
    let ghost opened = typed.calls.push(Call::PushObjectType(fresh));
    let ghost opened_tables = typed.tables.push(typed.names);
    // The declaration with its fields, before it is closed.
    let ghost unclosed = Walk::<()> {
        names: body.names,
        calls: opened + body.calls,
        tables: opened_tables + body.tables,
        outcome: body.outcome,
    };
    proof {
        lemma_walk_signature_tables(names, prefix, fields, fields.len());
        lemma_emit_fields_tables(typed.names, prefix, fields, fields.len());
        lemma_one_more::<A>(state, typed.calls, typed_state, Call::PushObjectType(fresh));
        assert(walk.calls =~= opened + body.calls + if body.outcome is Ok {
            seq![Call::PopObjectType]
        } else {
            Seq::<Call>::empty()
        });
        assert(walk.tables =~= opened_tables + body.tables + if body.outcome is Ok {
            seq![body.names]
        } else {
            Seq::<Names>::empty()
        });
    }
    match accumulator.push_object_type(name.as_str()) {
        Ok(_) => {},
        Err(e) => {
            proof {
                let rest = body.calls + if body.outcome is Ok {
                    seq![Call::PopObjectType]
                } else {
                    Seq::<Call>::empty()
                };
                lemma_drive_concat::<A>(state, opened, rest);
                lemma_taken_concat::<A>(state, opened, rest);
                assert(walk.calls =~= opened + rest);
                assert(walk.tables[typed.calls.len() as int] == typed.names);
            }
            return Err(e);
        },
    }
    let ghost open_state = accumulator@;
    let made = generate_object(accumulator, obj_table, val);
    proof {
        lemma_goes_on::<A, (), ()>(state, opened, opened_tables, open_state, body, unclosed);
    }
    match made {
        Ok(_) => {},
        Err(e) => {
            proof {
                if body.outcome is Ok {
                    assert(walk.calls =~= unclosed.calls + seq![Call::PopObjectType]);
                    assert(walk.tables =~= unclosed.tables + seq![body.names]);
                    lemma_error_lasts::<A, (), Seq<char>>(
                        state,
                        unclosed,
                        walk,
                        seq![Call::PopObjectType],
                        seq![body.names],
                        e,
                    );
                } else {
                    assert(walk.calls =~= unclosed.calls);
                    assert(walk.tables =~= unclosed.tables);
                }
            }
            return Err(e);
        },
    }
    let ghost body_state = accumulator@;
    proof {
        lemma_one_more::<A>(state, opened + body.calls, body_state, Call::PopObjectType);
        assert(walk.calls =~= (opened + body.calls).push(Call::PopObjectType));
        assert(walk.tables[(opened + body.calls).len() as int] == body.names);
    }
    match accumulator.pop_object_type() {
        Ok(_) => {},
        Err(e) => {
            return Err(e);
        },
    }
    obj_table.insert(name.as_str(), object_fields);
    Ok(name)
}

/// A copy of a list of typed fields.
fn clone_fields(fields: &Vec<(String, JsonType)>) -> (r: Vec<(String, JsonType)>)
    ensures
        signature_of(r@) == signature_of(fields@),
{
    let mut r: Vec<(String, JsonType)> = Vec::new();
    let mut i: usize = 0;
    while i < fields.len()
        invariant
            i <= fields@.len(),
            r@.len() == i,
            forall|k: int| 0 <= k < i ==> signature_of(r@)[k] == signature_of(fields@)[k],
        decreases fields@.len() - i,
    {
        r.push((fields[i].0.clone(), fields[i].1.clone()));
        i = i + 1;
    }
    assert(signature_of(r@) =~= signature_of(fields@));
    r
}

/// The fields of an object, each with the type of its value, in the
/// object's order.
pub fn object_into_fields<A: TypeAccumulator>(
    accumulator: &mut A,
    obj_table: &mut ObjectTypeTable,
    obj: &Vec<(String, Value)>,
) -> (r: Result<Vec<(String, JsonType)>, Error>)
    ensures
        ({
            let walk = walk_signature(
                old(obj_table)@,
                A::name_prefix(old(accumulator)@),
                fields_of(obj@),
                obj@.len(),
            );
            &&& signature_result(r) == result_of::<A, Signature>(old(accumulator)@, walk)
            &&& landed::<A, Signature>(
                old(accumulator)@,
                walk,
                final(accumulator)@,
                final(obj_table)@,
            )
        }),
    decreases obj, 1nat,
{
    let ghost state = accumulator@;
    let ghost names = obj_table@;
    let ghost prefix = A::name_prefix(state);
    let ghost fields = fields_of(obj@);
    let mut typed: Vec<(String, JsonType)> = Vec::new();
    let mut i: usize = 0;
    proof {
        lemma_no_calls::<A, Signature>(state, walk_signature(names, prefix, fields, 0));
        assert(signature_of(typed@) =~= Seq::empty());
    }
    while i < obj.len()
        invariant
            i <= obj@.len(),
            state == old(accumulator)@,
            names == old(obj_table)@,
            prefix == A::name_prefix(state),
            fields == fields_of(obj@),
            ({
                let done = walk_signature(names, prefix, fields, i as nat);
                &&& done.outcome == Ok::<Signature, Error>(signature_of(typed@))
                &&& drive::<A>(state, done.calls) == (Driven::<A::V> {
                    state: accumulator@,
                    refusal: None,
                })
                &&& obj_table@ == done.names
            }),
            A::open_types(accumulator@) == A::open_types(state),
            A::name_prefix(accumulator@) == prefix,
        decreases obj@.len() - i,
    {
        let ghost done = walk_signature(names, prefix, fields, i as nat);
        let ghost next = walk_signature(names, prefix, fields, (i + 1) as nat);
        let ghost field = walk_value(done.names, prefix, fields[i as int].1);
        let ghost here = accumulator@;
        let found = value_into_json_type(accumulator, obj_table, &obj[i].1);
        proof {
            lemma_walk_signature_tables(names, prefix, fields, i as nat);
            lemma_walk_value_tables(done.names, prefix, fields[i as int].1);
            lemma_goes_on::<A, Shape, Signature>(state, done.calls, done.tables, here, field, next);
        }
        match found {
            Ok(ty) => {
                let ghost before = signature_of(typed@);
                typed.push((obj[i].0.clone(), ty));
                assert(signature_of(typed@) =~= before.push((fields[i as int].0, ty@)));
            },
            Err(e) => {
                proof {
                    assert(result_of::<A, Signature>(state, next) == Err::<Signature, Error>(e));
                    lemma_walk_signature_stops::<A>(
                        state,
                        names,
                        prefix,
                        fields,
                        (i + 1) as nat,
                        fields.len(),
                    );
                }
                return Err(e);
            },
        }
        i = i + 1;
    }
    Ok(typed)
}

/// Gives the accumulator one field of the open declaration: its name, and
/// what its value is.
pub fn generate_field<A: TypeAccumulator>(
    accumulator: &mut A,
    obj_table: &mut ObjectTypeTable,
    name: &str,
    val: &Value,
) -> (r: Result<(), Error>)
    requires
        A::open_types(old(accumulator)@) > 0,
    ensures
        ({
            let walk = emit_field(
                old(obj_table)@,
                A::name_prefix(old(accumulator)@),
                name@,
                val@,
            );
            &&& r == result_of::<A, ()>(old(accumulator)@, walk)
            &&& landed::<A, ()>(
                old(accumulator)@,
                walk,
                final(accumulator)@,
                final(obj_table)@,
            )
        }),
    decreases val, 0nat,
{
    let ghost here = accumulator@;
    let ghost names = obj_table@;
    let ghost prefix = A::name_prefix(here);
    let ghost field = emit_field(names, prefix, name@, val@);
    match val {
        Value::Null => {
            proof {
                lemma_one_more::<A>(here, Seq::empty(), here, Call::Unknown(name@));
                assert(field.calls =~= Seq::<Call>::empty().push(Call::Unknown(name@)));
                assert(field.tables[0] == names);
            }
            accumulator.unknown(name)
        },
        Value::String(_) => {
            proof {
                lemma_one_more::<A>(here, Seq::empty(), here, Call::String(name@));
                assert(field.calls =~= Seq::<Call>::empty().push(Call::String(name@)));
                assert(field.tables[0] == names);
            }
            accumulator.string(name)
        },
        Value::Number(n) => match value_into_number(n) {
            Ok(number) => {
                proof {
                    lemma_one_more::<A>(here, Seq::empty(), here, Call::Number(name@, number));
                    assert(field.calls =~= Seq::<Call>::empty().push(
                        Call::Number(name@, number),
                    ));
                    assert(field.tables[0] == names);
                }
                accumulator.number(name, number)
            },
            Err(e) => {
                proof {
                    lemma_no_calls::<A, ()>(here, field);
                }
                Err(e)
            },
        },
        Value::Boolean(_) => {
            proof {
                lemma_one_more::<A>(here, Seq::empty(), here, Call::Boolean(name@));
                assert(field.calls =~= Seq::<Call>::empty().push(Call::Boolean(name@)));
                assert(field.tables[0] == names);
            }
            accumulator.boolean(name)
        },
        Value::Array(a) => {
            proof {
                lemma_view_array(val);
            }
            let ghost inner = walk_array(names, prefix, items_of(a@));
            match get_array_element_type(accumulator, obj_table, a) {
                Ok(ty) => {
                    proof {
                        lemma_walk_array_tables(names, prefix, items_of(a@));
                        lemma_one_more::<A>(
                            here,
                            inner.calls,
                            accumulator@,
                            Call::Array(name@, ty@),
                        );
                    }
                    accumulator.array(name, ty)
                },
                Err(e) => {
                    proof {
                        let call = Call::Array(name@, inner.outcome->Ok_0);
                        assert(inner.calls.push(call) =~= inner.calls + seq![call]);
                        assert(inner.tables.push(inner.names) =~= inner.tables + seq![inner.names]);
                        lemma_walk_array_tables(names, prefix, items_of(a@));
                        lemma_error_lasts::<A, Shape, ()>(
                            here,
                            inner,
                            field,
                            seq![call],
                            seq![inner.names],
                            e,
                        );
                    }
                    Err(e)
                },
            }
        },
        Value::Object(o) => {
            proof {
                lemma_view_object(val);
            }
            let ghost inner = walk_object(names, prefix, fields_of(o@));
            match get_object_type(accumulator, obj_table, o) {
                Ok(object_name) => {
                    proof {
                        lemma_walk_object_tables(names, prefix, fields_of(o@));
                        lemma_one_more::<A>(
                            here,
                            inner.calls,
                            accumulator@,
                            Call::Object(name@, object_name@),
                        );
                    }
                    accumulator.object(name, object_name.as_str())
                },
                Err(e) => {
                    proof {
                        let call = Call::Object(name@, inner.outcome->Ok_0);
                        assert(inner.calls.push(call) =~= inner.calls + seq![call]);
                        assert(inner.tables.push(inner.names) =~= inner.tables + seq![inner.names]);
                        lemma_walk_object_tables(names, prefix, fields_of(o@));
                        lemma_error_lasts::<A, Seq<char>, ()>(
                            here,
                            inner,
                            field,
                            seq![call],
                            seq![inner.names],
                            e,
                        );
                    }
                    Err(e)
                },
            }
        },
    }
}

/// Gives the accumulator the fields of an object, in the object's order.
/// A declaration must be open.
pub fn generate_object<A: TypeAccumulator>(
    accumulator: &mut A,
    obj_table: &mut ObjectTypeTable,
    val: &Vec<(String, Value)>,
) -> (r: Result<(), Error>)
    requires
        A::open_types(old(accumulator)@) > 0,
    ensures
        ({
            let walk = emit_fields(
                old(obj_table)@,
                A::name_prefix(old(accumulator)@),
                fields_of(val@),
                val@.len(),
            );
            &&& r == result_of::<A, ()>(old(accumulator)@, walk)
            &&& landed::<A, ()>(
                old(accumulator)@,
                walk,
                final(accumulator)@,
                final(obj_table)@,
            )
        }),
    decreases val, 1nat,
{
    let ghost state = accumulator@;
    let ghost names = obj_table@;
    let ghost prefix = A::name_prefix(state);
    let ghost fields = fields_of(val@);
    let mut i: usize = 0;
    proof {
        lemma_no_calls::<A, ()>(state, emit_fields(names, prefix, fields, 0));
    }
    while i < val.len()
        invariant
            i <= val@.len(),
            state == old(accumulator)@,
            names == old(obj_table)@,
            prefix == A::name_prefix(state),
            fields == fields_of(val@),
            ({
                let done = emit_fields(names, prefix, fields, i as nat);
                &&& done.outcome == Ok::<(), Error>(())
                &&& drive::<A>(state, done.calls) == (Driven::<A::V> {
                    state: accumulator@,
                    refusal: None,
                })
                &&& obj_table@ == done.names
            }),
            A::open_types(accumulator@) == A::open_types(state),
            A::open_types(state) > 0,
            A::name_prefix(accumulator@) == prefix,
        decreases val@.len() - i,
    {
        let ghost done = emit_fields(names, prefix, fields, i as nat);
        let ghost next = emit_fields(names, prefix, fields, (i + 1) as nat);
        let ghost field = emit_field(done.names, prefix, fields[i as int].0, fields[i as int].1);
        let ghost here = accumulator@;
        let res = generate_field(accumulator, obj_table, val[i].0.as_str(), &val[i].1);
        proof {
            lemma_emit_fields_tables(names, prefix, fields, i as nat);
            lemma_emit_field_tables(done.names, prefix, fields[i as int].0, fields[i as int].1);
            lemma_goes_on::<A, (), ()>(state, done.calls, done.tables, here, field, next);
        }
        match res {
            Ok(_) => {},
            Err(e) => {
                proof {
                    assert(result_of::<A, ()>(state, next) == Err::<(), Error>(e));
                    lemma_emit_fields_stops::<A>(
                        state,
                        names,
                        prefix,
                        fields,
                        (i + 1) as nat,
                        fields.len(),
                    );
                }
                return Err(e);
            },
        }
        i = i + 1;
    }
    Ok(())
}

/// What a run on a document comes to on an accumulator in `state`: the
/// text that the accumulator gives at the end, or the error that ended the
/// run. A document whose root is no object is turned down before anything
/// else is looked at.
pub open spec fn rendering<A: TypeAccumulator>(state: A::V, name: Seq<char>, document: Tree) -> Result<
    Seq<char>,
    Error,
> {
    match document {
        Tree::Object(fields) => {
            let walk = walk_root(A::name_prefix(state), name, fields);
            match result_of::<A, ()>(state, walk) {
                Ok(_) => Ok(A::rendered(drive::<A>(state, walk.calls).state)),
                Err(e) => Err(e),
            }
        },
        _ => Err(Error::ExpectedObject),
    }
}

/// The state in which a run on a document leaves an accumulator that was
/// in `state`: that after the last call made, and after `end` where the run
/// came so far. A document whose root is no object leaves it as it was.
pub open spec fn left<A: TypeAccumulator>(state: A::V, name: Seq<char>, document: Tree) -> A::V {
    match document {
        Tree::Object(fields) => {
            let walk = walk_root(A::name_prefix(state), name, fields);
            let driven = drive::<A>(state, walk.calls).state;
            if result_of::<A, ()>(state, walk) is Ok {
                A::ended(driven)
            } else {
                driven
            }
        },
        _ => state,
    }
}

/// What [`generate`] comes to: for a text that could not be read, the
/// error of the reading, for any other what [`rendering`] says of its
/// document.
pub open spec fn generated<A: TypeAccumulator>(
    state: A::V,
    name: Seq<char>,
    read: Result<Tree, Error>,
) -> Result<Seq<char>, Error> {
    match read {
        Ok(document) => rendering::<A>(state, name, document),
        Err(e) => Err(e),
    }
}

/// What a function that gives a text gave, with the text as its
/// characters.
pub open spec fn text_result(r: Result<String, Error>) -> Result<Seq<char>, Error> {
    match r {
        Ok(text) => Ok(text@),
        Err(e) => Err(e),
    }
}

/// Declares the types of a JSON text on `accumulator`, the root under
/// `name`, and gives the accumulator's text.
///
/// The result is a function of the accumulator's state, the name and the
/// text alone, so the same call gives the same text again. A text that
/// could not be read, and a document whose root is no object, leave the
/// accumulator as it was.
pub fn generate<A: TypeAccumulator>(accumulator: &mut A, name: &str, json_str: &str) -> (r: Result<
    String,
    Error,
>)
    ensures
        text_result(r) == generated::<A>(old(accumulator)@, name@, read_json(json_str@)),
        read_json(json_str@) matches Ok(document) ==> final(accumulator)@ == left::<A>(
            old(accumulator)@,
            name@,
            document,
        ),
        read_json(json_str@) matches Err(e) ==> r == Err::<String, Error>(e)
            && final(accumulator)@ == old(accumulator)@,
        read_json(json_str@) matches Ok(document) && document !is Object ==> r == Err::<
            String,
            Error,
        >(Error::ExpectedObject) && final(accumulator)@ == old(accumulator)@,
{
    match parse(json_str) {
        Ok(val) => generate_from_value(accumulator, name, &val),
        Err(e) => Err(e),
    }
}

/// Declares the types of a document on `accumulator`, the root under
/// `name`, and gives the accumulator's text.
///
/// The accumulator gets the calls of the run in order, up to the first that
/// it turns down or to the error that ends the run, and no other; at the end
/// of a run that came to no error it is asked for its text.
pub fn generate_from_value<A: TypeAccumulator>(accumulator: &mut A, name: &str, val: &Value) -> (r:
    Result<String, Error>)
    ensures
        text_result(r) == rendering::<A>(old(accumulator)@, name@, val@),
        final(accumulator)@ == left::<A>(old(accumulator)@, name@, val@),
        val@ !is Object ==> r == Err::<String, Error>(Error::ExpectedObject)
            && final(accumulator)@ == old(accumulator)@,
{
    let ghost state = accumulator@;
    let ghost prefix = A::name_prefix(state);
    let mut obj_table = ObjectTypeTable::new();
    match val {
        Value::Object(fields) => {
            proof {
                lemma_view_object(val);
            }
            let ghost walk = walk_root(prefix, name@, fields_of(fields@));
            let ghost body = emit_fields(Names::empty(), prefix, fields_of(fields@), fields@.len());
            let ghost open = seq![Call::PushObjectType(name@)];
            let ghost more = body.calls + if body.outcome is Ok {
                seq![Call::PopObjectType]
            } else {
                Seq::<Call>::empty()
            };
            proof {
                lemma_drive_one::<A>(state, Call::PushObjectType(name@));
                lemma_drive_concat::<A>(state, open, more);
                assert(walk.calls =~= open + more);
                if A::refusal(state, Call::PushObjectType(name@)) is None {
                    A::lemma_taken_call(state, Call::PushObjectType(name@));
                }
            }
            match accumulator.push_object_type(name) {
                Ok(_) => {},
                Err(e) => {
                    return Err(e);
                },
            }
            let ghost opened = accumulator@;
            proof {
                lemma_drive_concat::<A>(state, open, body.calls);
                lemma_drive_concat::<A>(state, open + body.calls, seq![Call::PopObjectType]);
                assert(body.outcome is Ok ==> walk.calls =~= (open + body.calls)
                    + seq![Call::PopObjectType]);
                assert(body.outcome is Err ==> walk.calls =~= open + body.calls);
            }
            match generate_object(accumulator, &mut obj_table, fields) {
                Ok(_) => {},
                Err(e) => {
                    return Err(e);
                },
            }
            proof {
                lemma_drive_one::<A>(accumulator@, Call::PopObjectType);
            }
            match accumulator.pop_object_type() {
                Ok(_) => {},
                Err(e) => {
                    return Err(e);
                },
            }
            Ok(accumulator.end())
        },
        _ => Err(Error::ExpectedObject),
    }
}

} // verus!
