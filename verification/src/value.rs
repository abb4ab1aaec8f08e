//! The JSON document as the engine reads it.

use vstd::prelude::*;

verus! {

/// A JSON number as written: its sign, its digits without the point, and
/// the power of ten that puts the point back. It stands for
/// `mantissa * 10^exponent`, negated where `positive` is false.
#[derive(Debug, Clone, Copy, PartialEq, Eq, Structural)]
pub struct NumberParts {
    pub positive: bool,
    pub mantissa: u64,
    pub exponent: i16,
}

/// A parsed JSON value. An object keeps its fields in the order in which
/// the document gives them.
#[derive(Debug, PartialEq, Eq)]
pub enum Value {
    Null,
    Boolean(bool),
    String(String),
    Number(NumberParts),
    Array(Vec<Value>),
    Object(Vec<(String, Value)>),
}

/// The mathematical value of a [`Value`].
pub enum Tree {
    Null,
    Boolean(bool),
    String(Seq<char>),
    Number(NumberParts),
    Array(Seq<Tree>),
    Object(Seq<(Seq<char>, Tree)>),
}

impl View for Value {
    type V = Tree;

    open spec fn view(&self) -> Tree
        decreases self,
    {
        match self {
            Value::Null => Tree::Null,
            Value::Boolean(b) => Tree::Boolean(*b),
            Value::String(s) => Tree::String(s@),
            Value::Number(n) => Tree::Number(*n),
            Value::Array(items) => Tree::Array(
                Seq::new(
                    items@.len(),
                    |i: int|
                        if 0 <= i < items@.len() {
                            items@[i]@
                        } else {
                            Tree::Null
                        },
                ),
            ),
            Value::Object(fields) => Tree::Object(
                Seq::new(
                    fields@.len(),
                    |i: int|
                        if 0 <= i < fields@.len() {
                            (fields@[i].0@, fields@[i].1@)
                        } else {
                            (Seq::empty(), Tree::Null)
                        },
                ),
            ),
        }
    }
}

/// The elements of an array, each as its mathematical value.
pub open spec fn items_of(items: Seq<Value>) -> Seq<Tree> {
    Seq::new(items.len(), |i: int| items[i]@)
}

/// The fields of an object, each as its name and its mathematical value.
pub open spec fn fields_of(fields: Seq<(String, Value)>) -> Seq<(Seq<char>, Tree)> {
    Seq::new(fields.len(), |i: int| (fields[i].0@, fields[i].1@))
}

/// What the view of an array is, in terms of its elements.
pub proof fn lemma_view_array(value: &Value)
    requires
        value is Array,
    ensures
        value@ == Tree::Array(items_of(value->Array_0@)),
{
    reveal_with_fuel(<Value as View>::view, 2);
    match value {
        Value::Array(items) => {
            assert(value@->Array_0.len() == items@.len());
            assert(value@->Array_0 =~= items_of(items@));
        },
        _ => {},
    }
}

/// What the view of an object is, in terms of its fields.
pub proof fn lemma_view_object(value: &Value)
    requires
        value is Object,
    ensures
        value@ == Tree::Object(fields_of(value->Object_0@)),
{
    reveal_with_fuel(<Value as View>::view, 2);
    match value {
        Value::Object(fields) => {
            assert(value@->Object_0.len() == fields@.len());
            assert(value@->Object_0 =~= fields_of(fields@));
        },
        _ => {},
    }
}

impl Tree {
    /// Whether no object in the tree has two fields of one name.
    pub open spec fn well_formed(self) -> bool
        decreases self,
    {
        match self {
            Tree::Array(items) => forall|i: int|
                0 <= i < items.len() ==> (#[trigger] items[i]).well_formed(),
            Tree::Object(fields) => distinct_names(fields) && forall|i: int|
                0 <= i < fields.len() ==> (#[trigger] fields[i]).1.well_formed(),
            _ => true,
        }
    }
}

/// Whether no name stands twice in `fields`.
pub open spec fn distinct_names<T>(fields: Seq<(Seq<char>, T)>) -> bool {
    forall|i: int, j: int| 0 <= i < j < fields.len() ==> fields[i].0 != fields[j].0
}

} // verus!
