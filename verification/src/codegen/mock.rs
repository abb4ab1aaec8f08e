//! An accumulator that writes down the calls it gets, one line each.

use crate::accumulator::{Call, TypeAccumulator};
use crate::types::{Error, JsonType, Number, Shape};
use vstd::prelude::*;
use vstd::string::*;

verus! {

/// A string as `{:?}` writes it: between double quotes, with the characters
/// escaped that Rust escapes in a string literal.
pub uninterp spec fn debug_quoted(text: Seq<char>) -> Seq<char>;

/// Formats a string with `{:?}`, which is `<str as Debug>::fmt`.
#[verifier::external_body]
fn debug_quote(text: &str) -> (r: String)
    ensures
        r@ == debug_quoted(text@),
{
    format!("{:?}", text)
}

/// The name of a kind of number.
pub open spec fn number_text(number: Number) -> Seq<char> {
    match number {
        Number::Int => "Int"@,
        Number::Float => "Float"@,
    }
}

/// A type written as a term: the variant's name, and in brackets what it
/// holds.
pub open spec fn type_text(ty: Shape) -> Seq<char>
    decreases ty,
{
    match ty {
        Shape::Null => "Null"@,
        Shape::Number(number) => "Number("@ + number_text(number) + ")"@,
        Shape::Boolean => "Boolean"@,
        Shape::String => "String"@,
        Shape::Object(name) => "Object("@ + debug_quoted(name) + ")"@,
        Shape::Array(element) => "Array("@ + type_text(*element) + ")"@,
    }
}

/// The line that the mock writes for a call.
pub open spec fn mock_line(call: Call) -> Seq<char> {
    match call {
        Call::PushObjectType(name) => "ty:"@ + name + "\n"@,
        Call::PopObjectType => "popty\n"@,
        Call::Number(key, number) => "num:"@ + key + ":"@ + number_text(number) + "\n"@,
        Call::Boolean(key) => "bool:"@ + key + "\n"@,
        Call::String(key) => "str:"@ + key + "\n"@,
        Call::Unknown(key) => "null:"@ + key + "\n"@,
        Call::Array(key, element) => "arr:"@ + key + ":"@ + type_text(element) + "\n"@,
        Call::Object(key, name) => "obj:"@ + key + ":"@ + name + "\n"@,
    }
}

fn number_string(number: Number) -> (r: &'static str)
    ensures
        r@ == number_text(number),
{
    match number {
        Number::Int => "Int",
        Number::Float => "Float",
    }
}

fn type_string(ty: &JsonType) -> (r: String)
    ensures
        r@ == type_text(ty@),
    decreases ty,
{
    match ty {
        JsonType::Null => String::from_str("Null"),
        JsonType::Number(number) => {
            let mut r = String::from_str("Number(");
            r.append(number_string(*number));
            r.append(")");
            r
        },
        JsonType::Boolean => String::from_str("Boolean"),
        JsonType::String => String::from_str("String"),
        JsonType::Object(name) => {
            let mut r = String::from_str("Object(");
            let quoted = debug_quote(name.as_str());
            r.append(quoted.as_str());
            r.append(")");
            r
        },
        JsonType::Array(element) => {
            let mut r = String::from_str("Array(");
            let inner = type_string(&**element);
            r.append(inner.as_str());
            r.append(")");
            r
        },
    }
}

/// Writes down every call as a line of text. It is there to try the engine
/// out.
pub struct MockAccumulator {
    text: String,
    open: Ghost<nat>,
}

/// What a [`MockAccumulator`] holds.
pub struct MockState {
    /// The lines written so far.
    pub text: Seq<char>,
    /// How many declarations are open.
    pub open: nat,
}

impl View for MockAccumulator {
    type V = MockState;

    closed spec fn view(&self) -> MockState {
        MockState { text: self.text@, open: self.open@ }
    }
}

impl MockAccumulator {
    /// A mock that has written nothing.
    pub fn begin() -> (r: MockAccumulator)
        ensures
            r@ == (MockState { text: Seq::empty(), open: 0 }),
    {
        MockAccumulator { text: String::new(), open: Ghost(0) }
    }

    fn write(&mut self, line: String, Ghost(call): Ghost<Call>)
        requires
            line@ == mock_line(call),
        ensures
            final(self)@ == Self::apply(old(self)@, call),
    {
        self.text.append(line.as_str());
        self.open = Ghost(call.depth_after(self.open@));
    }
}

impl TypeAccumulator for MockAccumulator {
    open spec fn open_types(state: MockState) -> nat {
        state.open
    }

    open spec fn name_prefix(state: MockState) -> Seq<char> {
        "_"@
    }

    open spec fn refusal(state: MockState, call: Call) -> Option<Error> {
        None
    }

    open spec fn apply(state: MockState, call: Call) -> MockState {
        MockState { text: state.text + mock_line(call), open: call.depth_after(state.open) }
    }

    open spec fn rendered(state: MockState) -> Seq<char> {
        state.text
    }

    open spec fn ended(state: MockState) -> MockState {
        state
    }

    proof fn lemma_taken_call(state: MockState, call: Call) {
    }

    fn end(&mut self) -> (text: String) {
        self.text.clone()
    }

    fn number(&mut self, key: &str, number: Number) -> (r: Result<(), Error>) {
        let mut line = String::from_str("num:");
        line.append(key);
        line.append(":");
        line.append(number_string(number));
        line.append("\n");
        self.write(line, Ghost(Call::Number(key@, number)));
        Ok(())
    }

    fn boolean(&mut self, key: &str) -> (r: Result<(), Error>) {
        let mut line = String::from_str("bool:");
        line.append(key);
        line.append("\n");
        self.write(line, Ghost(Call::Boolean(key@)));
        Ok(())
    }

    fn string(&mut self, key: &str) -> (r: Result<(), Error>) {
        let mut line = String::from_str("str:");
        line.append(key);
        line.append("\n");
        self.write(line, Ghost(Call::String(key@)));
        Ok(())
    }

    fn unknown(&mut self, key: &str) -> (r: Result<(), Error>) {
        let mut line = String::from_str("null:");
        line.append(key);
        line.append("\n");
        self.write(line, Ghost(Call::Unknown(key@)));
        Ok(())
    }

    fn array(&mut self, key: &str, ty: JsonType) -> (r: Result<(), Error>) {
        let mut line = String::from_str("arr:");
        line.append(key);
        line.append(":");
        let element = type_string(&ty);
        line.append(element.as_str());
        line.append("\n");
        self.write(line, Ghost(Call::Array(key@, ty@)));
        Ok(())
    }

    fn object(&mut self, key: &str, object_name: &str) -> (r: Result<(), Error>) {
        let mut line = String::from_str("obj:");
        line.append(key);
        line.append(":");
        line.append(object_name);
        line.append("\n");
        self.write(line, Ghost(Call::Object(key@, object_name@)));
        Ok(())
    }

    fn push_object_type(&mut self, object_name: &str) -> (r: Result<(), Error>) {
        let mut line = String::from_str("ty:");
        line.append(object_name);
        line.append("\n");
        self.write(line, Ghost(Call::PushObjectType(object_name@)));
        Ok(())
    }

    fn pop_object_type(&mut self) -> (r: Result<(), Error>) {
        self.write(String::from_str("popty\n"), Ghost(Call::PopObjectType));
        Ok(())
    }

    fn prefered_object_name(&self) -> (name: String) {
        String::from_str("_")
    }
}

} // verus!
