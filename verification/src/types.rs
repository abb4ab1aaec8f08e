//! The inferred types and the errors of a generation run.

use vstd::prelude::*;
use vstd::std_specs::cmp::PartialEqSpecImpl;

verus! {

/// The two kinds of number that a schema tells apart.
#[derive(Debug, Clone, Copy, Hash, PartialEq, Eq, Structural)]
pub enum Number {
    Int,
    Float,
}

/// The type inferred for one JSON value.
#[derive(Debug, Hash, Eq)]
pub enum JsonType {
    /// Nothing is known of the value.
    Null,
    Number(Number),
    Boolean,
    String,
    /// An object, by the name of its declaration.
    Object(String),
    /// An array, by the type of its elements.
    Array(Box<JsonType>),
}

/// The mathematical value of a [`JsonType`]: the same tree, with the name of
/// an object as a sequence of characters.
pub enum Shape {
    Null,
    Number(Number),
    Boolean,
    String,
    Object(Seq<char>),
    Array(Box<Shape>),
}

impl View for JsonType {
    type V = Shape;

    open spec fn view(&self) -> Shape
        decreases self,
    {
        match self {
            JsonType::Null => Shape::Null,
            JsonType::Number(n) => Shape::Number(*n),
            JsonType::Boolean => Shape::Boolean,
            JsonType::String => Shape::String,
            JsonType::Object(name) => Shape::Object(name@),
            JsonType::Array(inner) => Shape::Array(Box::new((**inner)@)),
        }
    }
}

impl Shape {
    /// How many arrays are nested at the top of this type.
    pub open spec fn array_depth(self) -> nat
        decreases self,
    {
        match self {
            Shape::Array(inner) => 1 + inner.array_depth(),
            _ => 0,
        }
    }

    /// The type inside all arrays at the top of this type.
    pub open spec fn innermost(self) -> Shape
        decreases self,
    {
        match self {
            Shape::Array(inner) => inner.innermost(),
            _ => self,
        }
    }
}

impl PartialEq for JsonType {
    /// Structural equality: the same variant, the same name, the same
    /// element type.
    fn eq(&self, other: &JsonType) -> (r: bool)
        decreases self,
    {
        match (self, other) {
            (JsonType::Null, JsonType::Null) => true,
            (JsonType::Number(a), JsonType::Number(b)) => *a == *b,
            (JsonType::Boolean, JsonType::Boolean) => true,
            (JsonType::String, JsonType::String) => true,
            (JsonType::Object(a), JsonType::Object(b)) => *a == *b,
            (JsonType::Array(a), JsonType::Array(b)) => (**a).eq(&**b),
            _ => false,
        }
    }
}

impl PartialEqSpecImpl for JsonType {
    open spec fn obeys_eq_spec() -> bool {
        true
    }

    open spec fn eq_spec(&self, other: &JsonType) -> bool {
        self@ == other@
    }
}

impl Clone for JsonType {
    fn clone(&self) -> (r: JsonType)
        ensures
            r@ == self@,
        decreases self,
    {
        match self {
            JsonType::Null => JsonType::Null,
            JsonType::Number(n) => JsonType::Number(*n),
            JsonType::Boolean => JsonType::Boolean,
            JsonType::String => JsonType::String,
            JsonType::Object(name) => JsonType::Object(name.clone()),
            JsonType::Array(inner) => JsonType::Array(Box::new((**inner).clone())),
        }
    }
}

#[verifier::external_type_specification]
#[verifier::external_body]
pub struct ExJsonError(json::JsonError);

/// Why a generation run failed.
#[derive(Debug, PartialEq, Eq)]
pub enum Error {
    /// The text is not JSON; the parser's own error is inside.
    Parse(json::JsonError),
    /// The document's root is not an object `{ ... }`.
    ExpectedObject,
    /// A number fits neither a 64-bit signed integer nor a double, or the
    /// parser came to a fraction with more digits than it can count.
    BadNumber,
    /// The accumulator cannot render a type in its language.
    TypeNotSupported,
    /// Two elements of one array have different types.
    DifferingArrayType,
}

} // verus!
