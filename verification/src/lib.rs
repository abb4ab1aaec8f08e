//! Infers a small set of named object types from one JSON document and
//! renders them through an accumulator for a target language.
//!
//! [`generate`] reads a text as JSON and declares the document's root under
//! the name it is given. Every object in the document gets a declaration;
//! objects whose fields have the same names and types share one. The
//! declarations are written by a [`TypeAccumulator`], of which [`codegen`]
//! has one for each language.
//!
//! ```
//! use schemajen::{generate, RustAccumulator};
//!
//! let mut accumulator = RustAccumulator::begin();
//! let text = generate(&mut accumulator, "MyType", r#"{"a": 10}"#).unwrap();
//! assert_eq!(
//!     text,
//!     "#[derive(Serialize, Deserialize)]\npub struct MyType {\n\ta: i64,\n}\n\n"
//! );
//! ```
//!
//! [`accumulator_choose_with_str`] gives the accumulator for a language by
//! its name, of those in [`ACCUMULATOR_SUPPORT_LIST`].
//!
//! What a run does is laid down in [`plan`] as a function of the document:
//! the names it gives, the calls it makes on the accumulator, and where it
//! stops. [`engine`] does it. [`laws`] proves what holds of every run.
//!
//! The text is read by the `json` crate, behind [`parse`]; [`scan`] finds
//! the fractions whose digits that crate cannot count.

pub mod accumulator;
pub mod codegen;
pub mod engine;
pub mod laws;
pub mod number;
pub mod parse;
pub mod plan;
pub mod scan;
pub mod table;
pub mod text;
pub mod types;
pub mod value;

pub use accumulator::{Call, TypeAccumulator};
pub use codegen::{
    accumulator_choose_with_str, supported_accumulators_text, AnyAccumulator, ArrayField,
    DartAccumulator, JavaAccumulator, KotlinAccumulator, MockAccumulator, PythonAccumulator,
    RustAccumulator, SwiftAccumulator, TypescriptAccumulator, ACCUMULATOR_SUPPORT_LIST,
};
pub use engine::{
    generate, generate_field, generate_from_value, generate_object, get_array_element_type,
    get_object_type, object_into_fields, value_into_json_type,
};
pub use table::ObjectTypeTable;
pub use types::{Error, JsonType, Number, Shape};
pub use value::{NumberParts, Tree, Value};

pub use json;
