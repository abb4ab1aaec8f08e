//! Rust: a struct with serde's derives for every declaration.

use crate::accumulator::{Call, TypeAccumulator};
use crate::codegen::declarations::{
    add_all, add_to_current, close_current, concat, names_unknown, open_with, texts,
    Declarations,
};
use crate::types::{Error, JsonType, Number, Shape};
use vstd::prelude::*;
use vstd::string::*;

verus! {

/// The Rust type of a kind of number.
pub open spec fn rust_number(number: Number) -> Seq<char> {
    match number {
        Number::Int => "i64"@,
        Number::Float => "f64"@,
    }
}

/// The Rust type for a type.
pub open spec fn rust_type(ty: Shape) -> Seq<char>
    decreases ty,
{
    match ty {
        Shape::Null => "Unknown"@,
        Shape::Number(number) => rust_number(number),
        Shape::Boolean => "bool"@,
        Shape::String => "String"@,
        Shape::Object(name) => name,
        Shape::Array(element) => "Vec<"@ + rust_type(*element) + ">"@,
    }
}

/// What a call adds to the text of a declaration.
pub open spec fn rust_text(call: Call) -> Seq<char> {
    match call {
        Call::PushObjectType(name) => "#[derive(Serialize, Deserialize)]\npub struct "@ + name
            + " {\n"@,
        Call::PopObjectType => "}\n\n"@,
        Call::Number(key, number) => "\t"@ + key + ": "@ + rust_number(number) + ",\n"@,
        Call::Boolean(key) => "\t"@ + key + ": bool,\n"@,
        Call::String(key) => "\t"@ + key + ": String,\n"@,
        Call::Unknown(key) => "\t"@ + key + ": Unknown,\n"@,
        Call::Array(key, element) => "\t"@ + key + ": Vec<"@ + rust_type(element) + ">,\n"@,
        Call::Object(key, name) => "\t"@ + key + ": "@ + name + ",\n"@,
    }
}

/// What the text declares where a field of unknown type was met.
pub const RUST_UNKNOWN: &'static str = "type Unknown = Option<()>;\n\n";

/// Writes Rust.
pub struct RustAccumulator {
    use_unknown: bool,
    struct_stack: Vec<String>,
    done_list: Vec<String>,
}

impl View for RustAccumulator {
    type V = Declarations;

    closed spec fn view(&self) -> Declarations {
        Declarations {
            use_unknown: self.use_unknown,
            open: texts(self.struct_stack@),
            closed: texts(self.done_list@),
        }
    }
}

impl RustAccumulator {
    /// An accumulator without a declaration.
    pub fn begin() -> (r: RustAccumulator)
        ensures
            r@ == Declarations::none(),
    {
        let r = RustAccumulator {
            use_unknown: false,
            struct_stack: Vec::new(),
            done_list: Vec::new(),
        };
        assert(texts(r.struct_stack@) =~= Seq::empty());
        assert(texts(r.done_list@) =~= Seq::empty());
        r
    }

    fn get_type(&mut self, ty: &JsonType) -> (r: String)
        ensures
            r@ == rust_type(ty@),
            final(self).struct_stack == old(self).struct_stack,
            final(self).done_list == old(self).done_list,
            final(self).use_unknown == (old(self).use_unknown || ty@.innermost() is Null),
        decreases ty,
    {
        match ty {
            JsonType::Null => {
                self.use_unknown = true;
                String::from_str("Unknown")
            },
            JsonType::Number(n) => String::from_str(Self::get_number(*n)),
            JsonType::Boolean => String::from_str("bool"),
            JsonType::String => String::from_str("String"),
            JsonType::Object(name) => name.clone(),
            JsonType::Array(element) => {
                let mut r = String::from_str("Vec<");
                let inner = self.get_type(&**element);
                r.append(inner.as_str());
                r.append(">");
                r
            },
        }
    }

    fn get_number(num: Number) -> (r: &'static str)
        ensures
            r@ == rust_number(num),
    {
        match num {
            Number::Int => "i64",
            Number::Float => "f64",
        }
    }
}

impl Default for RustAccumulator {
    fn default() -> (r: RustAccumulator)
        ensures
            r@ == Declarations::none(),
    {
        RustAccumulator::begin()
    }
}

impl TypeAccumulator for RustAccumulator {
    open spec fn open_types(state: Declarations) -> nat {
        state.open.len()
    }

    open spec fn name_prefix(state: Declarations) -> Seq<char> {
        "_Type"@
    }

    open spec fn refusal(state: Declarations, call: Call) -> Option<Error> {
        None
    }

    open spec fn apply(state: Declarations, call: Call) -> Declarations {
        state.step(call, rust_text(call), names_unknown(call))
    }

    open spec fn rendered(state: Declarations) -> Seq<char> {
        (if state.use_unknown {
            RUST_UNKNOWN@
        } else {
            Seq::empty()
        }) + concat(state.closed)
    }

    open spec fn ended(state: Declarations) -> Declarations {
        state
    }

    proof fn lemma_taken_call(state: Declarations, call: Call) {
    }

    fn end(&mut self) -> (text: String) {
        let mut end_str = String::new();
        if self.use_unknown {
            end_str.append(RUST_UNKNOWN);
        }
        add_all(&mut end_str, &self.done_list);
        end_str
    }

    fn number(&mut self, key: &str, number: Number) -> (r: Result<(), Error>) {
        let mut line = String::from_str("\t");
        line.append(key);
        line.append(": ");
        line.append(Self::get_number(number));
        line.append(",\n");
        add_to_current(&mut self.struct_stack, line.as_str());
        Ok(())
    }

    fn boolean(&mut self, key: &str) -> (r: Result<(), Error>) {
        let mut line = String::from_str("\t");
        line.append(key);
        line.append(": bool,\n");
        add_to_current(&mut self.struct_stack, line.as_str());
        Ok(())
    }

    fn string(&mut self, key: &str) -> (r: Result<(), Error>) {
        let mut line = String::from_str("\t");
        line.append(key);
        line.append(": String,\n");
        add_to_current(&mut self.struct_stack, line.as_str());
        Ok(())
    }

    fn unknown(&mut self, key: &str) -> (r: Result<(), Error>) {
        self.use_unknown = true;
        let mut line = String::from_str("\t");
        line.append(key);
        line.append(": Unknown,\n");
        add_to_current(&mut self.struct_stack, line.as_str());
        Ok(())
    }

    fn array(&mut self, key: &str, ty: JsonType) -> (r: Result<(), Error>) {
        let element = self.get_type(&ty);
        let mut line = String::from_str("\t");
        line.append(key);
        line.append(": Vec<");
        line.append(element.as_str());
        line.append(">,\n");
        add_to_current(&mut self.struct_stack, line.as_str());
        Ok(())
    }

    fn object(&mut self, key: &str, object_name: &str) -> (r: Result<(), Error>) {
        let mut line = String::from_str("\t");
        line.append(key);
        line.append(": ");
        line.append(object_name);
        line.append(",\n");
        add_to_current(&mut self.struct_stack, line.as_str());
        Ok(())
    }

    fn push_object_type(&mut self, object_name: &str) -> (r: Result<(), Error>) {
        let mut header = String::from_str("#[derive(Serialize, Deserialize)]\npub struct ");
        header.append(object_name);
        header.append(" {\n");
        open_with(&mut self.struct_stack, header);
        Ok(())
    }

    fn pop_object_type(&mut self) -> (r: Result<(), Error>) {
        close_current(&mut self.struct_stack, &mut self.done_list, "}\n\n");
        Ok(())
    }

    fn prefered_object_name(&self) -> (name: String) {
        String::from_str("_Type")
    }
}

} // verus!
