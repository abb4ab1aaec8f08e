//! Kotlin: a serializable class for every declaration.

use crate::accumulator::{Call, TypeAccumulator};
use crate::codegen::declarations::{
    add_all, add_to_current, close_current, concat, names_unknown, open_with, texts,
    Declarations,
};
use crate::types::{Error, JsonType, Number, Shape};
use vstd::prelude::*;
use vstd::string::*;

verus! {

/// The Kotlin type of a kind of number.
pub open spec fn kotlin_number(number: Number) -> Seq<char> {
    match number {
        Number::Int => "Int"@,
        Number::Float => "Double"@,
    }
}

/// The Kotlin type for a type.
pub open spec fn kotlin_type(ty: Shape) -> Seq<char>
    decreases ty,
{
    match ty {
        Shape::Null => "Unknown"@,
        Shape::Number(number) => kotlin_number(number),
        Shape::Boolean => "Boolean"@,
        Shape::String => "String"@,
        Shape::Object(name) => name,
        Shape::Array(element) => "Array<"@ + kotlin_type(*element) + ">"@,
    }
}

/// What a call adds to the text of a declaration.
pub open spec fn kotlin_text(call: Call) -> Seq<char> {
    match call {
        Call::PushObjectType(name) => "@Serializable\nclass "@ + name + " {\n"@,
        Call::PopObjectType => "}\n\n"@,
        Call::Number(key, number) => "\tval "@ + key + ": "@ + kotlin_number(number) + ",\n"@,
        Call::Boolean(key) => "\tval "@ + key + ": bool,\n"@,
        Call::String(key) => "\tval "@ + key + ": String,\n"@,
        Call::Unknown(key) => "\tval "@ + key + ": Unknown,\n"@,
        Call::Array(key, element) => "\tval "@ + key + ": Array<"@ + kotlin_type(element)
            + ">,\n"@,
        Call::Object(key, name) => "\tval "@ + key + ": "@ + name + ",\n"@,
    }
}

/// What the text declares where a field of unknown type was met.
pub const KOTLIN_UNKNOWN: &'static str = "class Unknown;\n\n";

/// What the text ends with.
pub const KOTLIN_END: &'static str =
    "//  import kotlinx.serialization.Serializable\n//  import kotlinx.serialization.json.Json\n//  import kotlinx.serialization.encodeToString\n//\n//  val json = Json.encodeToString(T)\n//  val ty = Json.decodeFromString<T>(json)";

/// Writes Kotlin.
pub struct KotlinAccumulator {
    use_unknown: bool,
    struct_stack: Vec<String>,
    done_list: Vec<String>,
}

impl View for KotlinAccumulator {
    type V = Declarations;

    closed spec fn view(&self) -> Declarations {
        Declarations {
            use_unknown: self.use_unknown,
            open: texts(self.struct_stack@),
            closed: texts(self.done_list@),
        }
    }
}

impl KotlinAccumulator {
    /// An accumulator without a declaration.
    pub fn begin() -> (r: KotlinAccumulator)
        ensures
            r@ == Declarations::none(),
    {
        let r = KotlinAccumulator {
            use_unknown: false,
            struct_stack: Vec::new(),
            done_list: Vec::new(),
        };
        assert(texts(r.struct_stack@) =~= Seq::empty());
        assert(texts(r.done_list@) =~= Seq::empty());
        r
    }

    fn get_type(&mut self, ty: &JsonType) -> (r: String)
        ensures
            r@ == kotlin_type(ty@),
            final(self).struct_stack == old(self).struct_stack,
            final(self).done_list == old(self).done_list,
            final(self).use_unknown == (old(self).use_unknown || ty@.innermost() is Null),
        decreases ty,
    {
        match ty {
            JsonType::Null => {
                self.use_unknown = true;
                String::from_str("Unknown")
            },
            JsonType::Number(n) => String::from_str(Self::get_number(*n)),
            JsonType::Boolean => String::from_str("Boolean"),
            JsonType::String => String::from_str("String"),
            JsonType::Object(name) => name.clone(),
            JsonType::Array(element) => {
                let mut r = String::from_str("Array<");
                let inner = self.get_type(&**element);
                r.append(inner.as_str());
                r.append(">");
                r
            },
        }
    }

    fn get_number(num: Number) -> (r: &'static str)
        ensures
            r@ == kotlin_number(num),
    {
        match num {
            Number::Int => "Int",
            Number::Float => "Double",
        }
    }
}

impl Default for KotlinAccumulator {
    fn default() -> (r: KotlinAccumulator)
        ensures
            r@ == Declarations::none(),
    {
        KotlinAccumulator::begin()
    }
}

impl TypeAccumulator for KotlinAccumulator {
    open spec fn open_types(state: Declarations) -> nat {
        state.open.len()
    }

    open spec fn name_prefix(state: Declarations) -> Seq<char> {
        "_Type"@
    }

    open spec fn refusal(state: Declarations, call: Call) -> Option<Error> {
        None
    }

    open spec fn apply(state: Declarations, call: Call) -> Declarations {
        state.step(call, kotlin_text(call), names_unknown(call))
    }

    open spec fn rendered(state: Declarations) -> Seq<char> {
        (if state.use_unknown {
            KOTLIN_UNKNOWN@
        } else {
            Seq::empty()
        }) + concat(state.closed) + KOTLIN_END@
    }

    open spec fn ended(state: Declarations) -> Declarations {
        state
    }

    proof fn lemma_taken_call(state: Declarations, call: Call) {
    }

    fn end(&mut self) -> (text: String) {
        let mut end_str = String::new();
        if self.use_unknown {
            end_str.append(KOTLIN_UNKNOWN);
        }
        add_all(&mut end_str, &self.done_list);
        end_str.append(KOTLIN_END);
        end_str
    }

    fn number(&mut self, key: &str, number: Number) -> (r: Result<(), Error>) {
        let mut line = String::from_str("\tval ");
        line.append(key);
        line.append(": ");
        line.append(Self::get_number(number));
        line.append(",\n");
        add_to_current(&mut self.struct_stack, line.as_str());
        Ok(())
    }

    fn boolean(&mut self, key: &str) -> (r: Result<(), Error>) {
        let mut line = String::from_str("\tval ");
        line.append(key);
        line.append(": bool,\n");
        add_to_current(&mut self.struct_stack, line.as_str());
        Ok(())
    }

    fn string(&mut self, key: &str) -> (r: Result<(), Error>) {
        let mut line = String::from_str("\tval ");
        line.append(key);
        line.append(": String,\n");
        add_to_current(&mut self.struct_stack, line.as_str());
        Ok(())
    }

    fn unknown(&mut self, key: &str) -> (r: Result<(), Error>) {
        self.use_unknown = true;
        let mut line = String::from_str("\tval ");
        line.append(key);
        line.append(": Unknown,\n");
        add_to_current(&mut self.struct_stack, line.as_str());
        Ok(())
    }

    fn array(&mut self, key: &str, ty: JsonType) -> (r: Result<(), Error>) {
        let element = self.get_type(&ty);
        let mut line = String::from_str("\tval ");
        line.append(key);
        line.append(": Array<");
        line.append(element.as_str());
        line.append(">,\n");
        add_to_current(&mut self.struct_stack, line.as_str());
        Ok(())
    }

    fn object(&mut self, key: &str, object_name: &str) -> (r: Result<(), Error>) {
        let mut line = String::from_str("\tval ");
        line.append(key);
        line.append(": ");
        line.append(object_name);
        line.append(",\n");
        add_to_current(&mut self.struct_stack, line.as_str());
        Ok(())
    }

    fn push_object_type(&mut self, object_name: &str) -> (r: Result<(), Error>) {
        let mut header = String::from_str("@Serializable\nclass ");
        header.append(object_name);
        header.append(" {\n");
        open_with(&mut self.struct_stack, header);
        Ok(())
    }

    fn pop_object_type(&mut self) -> (r: Result<(), Error>) {
        close_current(&mut self.struct_stack, &mut self.done_list, "}\n\n");
        Ok(())
    }

    fn prefered_object_name(&self) -> (name: String) {
        String::from_str("_Type")
    }
}

} // verus!
