//! Reading a text as JSON, which the `json` crate does.
//!
//! The crate's value is taken over into a [`Value`] part by part. What the
//! crate gives and what its value holds is not proved here: the functions
//! of this file that call the crate say it, each for one call. A text with
//! a fraction that the crate's parser cannot count is not handed to it
//! whole.

use crate::scan::{find_danger, first_danger, has_danger, is_first_danger, lemma_first_danger};
use crate::types::Error;
use crate::value::{NumberParts, Tree, Value};
use vstd::utf8::encode_utf8;
use vstd::prelude::*;
use vstd::string::*;

verus! {

#[verifier::external_type_specification]
#[verifier::external_body]
pub struct ExJsonValue(json::JsonValue);

/// What `json::parse` makes of a text: the document, or the error with
/// which it turns the text down.
pub uninterp spec fn parsed_json(text: Seq<char>) -> Result<Tree, json::JsonError>;

/// What a value of the `json` crate holds: a short and a long string alike
/// as a string, a number as the parts that `Number::as_parts` gives, the
/// elements of an array in their order, the fields of an object in the
/// order of `Object::iter`, which is that of the document.
pub uninterp spec fn json_tree(value: json::JsonValue) -> Tree;

/// What each of a list of values holds.
pub open spec fn json_trees(values: Seq<json::JsonValue>) -> Seq<Tree> {
    Seq::new(values.len(), |i: int| json_tree(values[i]))
}

/// What each of a list of fields holds, under its name.
pub open spec fn json_fields(entries: Seq<(&str, &json::JsonValue)>) -> Seq<(Seq<char>, Tree)> {
    Seq::new(entries.len(), |i: int| (entries[i].0@, json_tree(*entries[i].1)))
}

/// Whether `json::parse`, given the first `n` bytes of a text, reads them
/// all: it gives a document for them, or finds them at their end too early.
pub uninterp spec fn reads_start(text: Seq<char>, n: nat) -> bool;

/// Calls `json::parse`. A document that it gives has no object with two
/// fields of one name: of two, the crate's `Object` keeps the place of the
/// first and the value of the last.
///
/// The parser keeps the exponent of a number in an `i16`, and only where it
/// reads a fraction does it take from the exponent without looking: one for
/// every digit behind the point that the mantissa still takes, which are
/// the digits that `counted` counts. A mantissa that is not zero takes
/// twenty digits at most, and the fraction starts with a mantissa of zero
/// only behind a number that is a single zero. The parser reads a point as
/// that of a number only outside every string, and it opens and closes a
/// string as `place_at` has it: at a double quote, but for one that stands
/// inside a string behind a backslash that takes it. So the text may hold
/// no fraction that `danger_at` finds.
#[verifier::external_body]
fn parse_text(text: &str) -> (r: Result<json::JsonValue, json::JsonError>)
    requires
        !has_danger(encode_utf8(text@)),
    ensures
        match r {
            Ok(value) => parsed_json(text@) == Ok::<Tree, json::JsonError>(json_tree(value))
                && json_tree(value).well_formed(),
            Err(e) => parsed_json(text@) == Err::<Tree, json::JsonError>(e),
        },
{
    json::parse(text)
}

/// Calls `json::parse` on the first `n` bytes of a text, which end behind
/// the first digit of the first fraction that the parser cannot count; up
/// to there it can count every fraction. It gives the error with which the
/// parser turns those bytes down, but for `UnexpectedEndOfJson`.
///
/// The parser reads a text from left to right and turns it down at the
/// first byte that cannot stand where it stands, with an error made of that
/// byte and of what stands before it; it finds a text at its end too early
/// only where it has read all of it. So where it turns the start down with
/// another error, it turns the whole text down with the same, before it
/// comes to the fraction.
#[verifier::external_body]
fn parse_start(text: &str, n: usize) -> (r: Option<json::JsonError>)
    requires
        2 <= n <= encode_utf8(text@).len(),
        is_first_danger(encode_utf8(text@), n - 2),
    ensures
        match r {
            None => reads_start(text@, n as nat),
            Some(e) => !reads_start(text@, n as nat) && parsed_json(text@) == Err::<
                Tree,
                json::JsonError,
            >(e),
        },
{
    match json::parse(&text[..n]) {
        Ok(_) => None,
        Err(json::JsonError::UnexpectedEndOfJson) => None,
        Err(e) => Some(e),
    }
}

/// Calls `JsonValue::as_bool`, which gives what a boolean holds and nothing
/// for any other value.
#[verifier::external_body]
fn json_bool(value: &json::JsonValue) -> (r: Option<bool>)
    ensures
        match r {
            Some(b) => json_tree(*value) == Tree::Boolean(b),
            None => !(json_tree(*value) is Boolean),
        },
{
    value.as_bool()
}

/// Calls `JsonValue::as_str`, which gives the text of a string, short or
/// long, and nothing for any other value.
#[verifier::external_body]
fn json_str(value: &json::JsonValue) -> (r: Option<&str>)
    ensures
        match r {
            Some(text) => json_tree(*value) == Tree::String(text@),
            None => !(json_tree(*value) is String),
        },
{
    value.as_str()
}

/// Calls `JsonValue::as_number`, which gives nothing for a value that is no
/// number, and `Number::as_parts` on the number that it gives.
#[verifier::external_body]
fn json_number(value: &json::JsonValue) -> (r: Option<NumberParts>)
    ensures
        match r {
            Some(parts) => json_tree(*value) == Tree::Number(parts),
            None => !(json_tree(*value) is Number),
        },
{
    match value.as_number() {
        Some(number) => {
            let (positive, mantissa, exponent) = number.as_parts();
            Some(NumberParts { positive, mantissa, exponent })
        },
        None => None,
    }
}

/// The elements of an array, and nothing for any other value.
#[verifier::external_body]
fn json_members(value: &json::JsonValue) -> (r: Option<&[json::JsonValue]>)
    ensures
        match r {
            Some(items) => json_tree(*value) == Tree::Array(json_trees(items@)),
            None => !(json_tree(*value) is Array),
        },
{
    match value {
        json::JsonValue::Array(items) => Some(items.as_slice()),
        _ => None,
    }
}

/// The fields of an object, as `Object::iter` gives them, and nothing for
/// any other value.
#[verifier::external_body]
fn json_entries(value: &json::JsonValue) -> (r: Option<Vec<(&str, &json::JsonValue)>>)
    ensures
        match r {
            Some(entries) => json_tree(*value) == Tree::Object(json_fields(entries@)),
            None => !(json_tree(*value) is Object),
        },
{
    match value {
        json::JsonValue::Object(object) => Some(object.iter().collect()),
        _ => None,
    }
}

/// Takes a value of the `json` crate over, part by part.
fn lift(value: &json::JsonValue) -> (r: Value)
    ensures
        r@ == json_tree(*value),
    decreases json_tree(*value),
{
    if let Some(b) = json_bool(value) {
        Value::Boolean(b)
    } else if let Some(text) = json_str(value) {
        Value::String(String::from_str(text))
    } else if let Some(parts) = json_number(value) {
        Value::Number(parts)
    } else if let Some(items) = json_members(value) {
        let mut lifted: Vec<Value> = Vec::new();
        let mut i: usize = 0;
        while i < items.len()
            invariant
                i <= items@.len(),
                lifted@.len() == i,
                json_tree(*value) == Tree::Array(json_trees(items@)),
                forall|k: int| 0 <= k < i ==> (#[trigger] lifted@[k])@ == json_tree(items@[k]),
            decreases items@.len() - i,
        {
            proof {
                let tree = json_tree(*value);
                let trees = json_trees(items@);
                assert(trees[i as int] == json_tree(items@[i as int]));
                assert(decreases_to!(tree => tree->Array_0));
                assert(decreases_to!(trees => trees[i as int]));
            }
            let item = lift(&items[i]);
            lifted.push(item);
            i = i + 1;
        }
        let r = Value::Array(lifted);
        proof {
            crate::value::lemma_view_array(&r);
            assert(crate::value::items_of(lifted@) =~= json_trees(items@));
        }
        r
    } else if let Some(entries) = json_entries(value) {
        let mut lifted: Vec<(String, Value)> = Vec::new();
        let mut i: usize = 0;
        while i < entries.len()
            invariant
                i <= entries@.len(),
                lifted@.len() == i,
                json_tree(*value) == Tree::Object(json_fields(entries@)),
                forall|k: int|
                    0 <= k < i ==> (#[trigger] lifted@[k]).0@ == entries@[k].0@ && lifted@[k].1@
                        == json_tree(*entries@[k].1),
            decreases entries@.len() - i,
        {
            proof {
                let tree = json_tree(*value);
                let fields = json_fields(entries@);
                assert(fields[i as int] == (
                    entries@[i as int].0@,
                    json_tree(*entries@[i as int].1),
                ));
                assert(decreases_to!(tree => tree->Object_0));
                assert(decreases_to!(fields => fields[i as int]));
                assert(decreases_to!(fields[i as int] => fields[i as int].1));
            }
            let field = lift(entries[i].1);
            lifted.push((String::from_str(entries[i].0), field));
            i = i + 1;
        }
        let r = Value::Object(lifted);
        proof {
            crate::value::lemma_view_object(&r);
            assert(crate::value::fields_of(lifted@) =~= json_fields(entries@));
        }
        r
    } else {
        Value::Null
    }
}

/// Whether the parser cannot read a text for a fraction it cannot count:
/// the text holds such a fraction, and the parser reads the text up to the
/// first of them.
pub open spec fn uncounted(text: Seq<char>) -> bool {
    has_danger(encode_utf8(text)) && reads_start(
        text,
        (first_danger(encode_utf8(text)) + 2) as nat,
    )
}

/// What reading a text as JSON gives: the document that the parser gives,
/// or `Parse` with the error with which it turns the text down; and
/// `BadNumber` for a text in which it comes to a fraction that it cannot
/// count.
pub open spec fn read_json(text: Seq<char>) -> Result<Tree, Error> {
    if uncounted(text) {
        Err(Error::BadNumber)
    } else {
        match parsed_json(text) {
            Ok(document) => Ok(document),
            Err(e) => Err(Error::Parse(e)),
        }
    }
}

/// What a reading gave, with the document as its mathematical value.
pub open spec fn read_result(r: Result<Value, Error>) -> Result<Tree, Error> {
    match r {
        Ok(value) => Ok(value@),
        Err(e) => Err(e),
    }
}

/// Reads a text as JSON. A text that holds a fraction which the parser
/// cannot count is given to the parser only up to the first of them, to see
/// whether the parser comes to it.
pub fn parse(text: &str) -> (r: Result<Value, Error>)
    ensures
        read_result(r) == read_json(text@),
        r matches Ok(value) ==> value@.well_formed(),
{
    match find_danger(text) {
        None => match parse_text(text) {
            Ok(value) => Ok(lift(&value)),
            Err(e) => Err(Error::Parse(e)),
        },
        Some(at) => {
            proof {
                lemma_first_danger(encode_utf8(text@), at as int);
            }
            match parse_start(text, at + 2) {
                None => Err(Error::BadNumber),
                Some(e) => Err(Error::Parse(e)),
            }
        },
    }
}

} // verus!
