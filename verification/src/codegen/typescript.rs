//! TypeScript: a type alias for every declaration.

use crate::accumulator::{Call, TypeAccumulator};
use crate::codegen::declarations::{
    add_all, add_to_current, close_current, concat, open_with, texts, Declarations,
};
use crate::types::{Error, JsonType, Number, Shape};
use vstd::prelude::*;
use vstd::string::*;

verus! {

/// The TypeScript type for a type.
pub open spec fn typescript_type(ty: Shape) -> Seq<char>
    decreases ty,
{
    match ty {
        Shape::Null => "unknown"@,
        Shape::Number(_) => "number"@,
        Shape::Boolean => "boolean"@,
        Shape::String => "string"@,
        Shape::Object(name) => name,
        Shape::Array(element) => typescript_type(*element) + "[]"@,
    }
}

/// What a call adds to the text of a declaration.
pub open spec fn typescript_text(call: Call) -> Seq<char> {
    match call {
        Call::PushObjectType(name) => "type "@ + name + " = {\n"@,
        Call::PopObjectType => "}\n\n"@,
        Call::Number(key, _) => "\t"@ + key + ": number;\n"@,
        Call::Boolean(key) => "\t"@ + key + ": boolean;\n"@,
        Call::String(key) => "\t"@ + key + ": string;\n"@,
        Call::Unknown(key) => "\t"@ + key + ": unknown;\n"@,
        Call::Array(key, element) => "\t"@ + key + ": "@ + typescript_type(element) + "[];\n"@,
        Call::Object(key, name) => "\t"@ + key + ": "@ + name + ";\n"@,
    }
}

/// Writes TypeScript.
pub struct TypescriptAccumulator {
    struct_stack: Vec<String>,
    done_list: Vec<String>,
}

impl View for TypescriptAccumulator {
    type V = Declarations;

    closed spec fn view(&self) -> Declarations {
        Declarations {
            use_unknown: false,
            open: texts(self.struct_stack@),
            closed: texts(self.done_list@),
        }
    }
}

impl TypescriptAccumulator {
    /// An accumulator without a declaration.
    pub fn begin() -> (r: TypescriptAccumulator)
        ensures
            r@ == Declarations::none(),
    {
        let r = TypescriptAccumulator { struct_stack: Vec::new(), done_list: Vec::new() };
        assert(texts(r.struct_stack@) =~= Seq::empty());
        assert(texts(r.done_list@) =~= Seq::empty());
        r
    }

    fn get_type(ty: &JsonType) -> (r: String)
        ensures
            r@ == typescript_type(ty@),
        decreases ty,
    {
        match ty {
            JsonType::Null => String::from_str("unknown"),
            JsonType::Number(_) => String::from_str("number"),
            JsonType::Boolean => String::from_str("boolean"),
            JsonType::String => String::from_str("string"),
            JsonType::Object(name) => name.clone(),
            JsonType::Array(element) => {
                let mut r = Self::get_type(&**element);
                r.append("[]");
                r
            },
        }
    }
}

impl Default for TypescriptAccumulator {
    fn default() -> (r: TypescriptAccumulator)
        ensures
            r@ == Declarations::none(),
    {
        TypescriptAccumulator::begin()
    }
}

impl TypeAccumulator for TypescriptAccumulator {
    open spec fn open_types(state: Declarations) -> nat {
        state.open.len()
    }

    open spec fn name_prefix(state: Declarations) -> Seq<char> {
        "_Type"@
    }

    open spec fn refusal(state: Declarations, call: Call) -> Option<Error> {
        None
    }

    open spec fn apply(state: Declarations, call: Call) -> Declarations {
        state.step(call, typescript_text(call), false)
    }

    open spec fn rendered(state: Declarations) -> Seq<char> {
        concat(state.closed)
    }

    open spec fn ended(state: Declarations) -> Declarations {
        state
    }

    proof fn lemma_taken_call(state: Declarations, call: Call) {
    }

    fn end(&mut self) -> (text: String) {
        let mut end_str = String::new();
        add_all(&mut end_str, &self.done_list);
        end_str
    }

    fn number(&mut self, key: &str, _number: Number) -> (r: Result<(), Error>) {
        let mut line = String::from_str("\t");
        line.append(key);
        line.append(": number;\n");
        add_to_current(&mut self.struct_stack, line.as_str());
        Ok(())
    }

    fn boolean(&mut self, key: &str) -> (r: Result<(), Error>) {
        let mut line = String::from_str("\t");
        line.append(key);
        line.append(": boolean;\n");
        add_to_current(&mut self.struct_stack, line.as_str());
        Ok(())
    }

    fn string(&mut self, key: &str) -> (r: Result<(), Error>) {
        let mut line = String::from_str("\t");
        line.append(key);
        line.append(": string;\n");
        add_to_current(&mut self.struct_stack, line.as_str());
        Ok(())
    }

    fn unknown(&mut self, key: &str) -> (r: Result<(), Error>) {
        let mut line = String::from_str("\t");
        line.append(key);
        line.append(": unknown;\n");
        add_to_current(&mut self.struct_stack, line.as_str());
        Ok(())
    }

    fn array(&mut self, key: &str, ty: JsonType) -> (r: Result<(), Error>) {
        let element = Self::get_type(&ty);
        let mut line = String::from_str("\t");
        line.append(key);
        line.append(": ");
        line.append(element.as_str());
        line.append("[];\n");
        add_to_current(&mut self.struct_stack, line.as_str());
        Ok(())
    }

    fn object(&mut self, key: &str, object_name: &str) -> (r: Result<(), Error>) {
        let mut line = String::from_str("\t");
        line.append(key);
        line.append(": ");
        line.append(object_name);
        line.append(";\n");
        add_to_current(&mut self.struct_stack, line.as_str());
        Ok(())
    }

    fn push_object_type(&mut self, object_name: &str) -> (r: Result<(), Error>) {
        let mut header = String::from_str("type ");
        header.append(object_name);
        header.append(" = {\n");
        open_with(&mut self.struct_stack, header);
        Ok(())
    }

    fn pop_object_type(&mut self) -> (r: Result<(), Error>) {
        close_current(&mut self.struct_stack, &mut self.done_list, "}\n\n");
        Ok(())
    }

    fn prefered_object_name(&self) -> (name: String) {
        String::from_str("_Type")
    }
}

} // verus!
