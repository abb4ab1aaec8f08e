//! The accumulators: one for each language, and one that writes down the
//! calls it gets.

pub mod dart;
pub mod declarations;
pub mod java;
pub mod kotlin;
pub mod mock;
pub mod python;
pub mod rust;
pub mod swift;
pub mod typescript;

pub use dart::{ArrayField, DartAccumulator};
pub use java::JavaAccumulator;
pub use kotlin::KotlinAccumulator;
pub use mock::MockAccumulator;
pub use python::PythonAccumulator;
pub use rust::RustAccumulator;
pub use swift::SwiftAccumulator;
pub use typescript::TypescriptAccumulator;

use crate::accumulator::{Call, TypeAccumulator};
use crate::text::same_text;
use crate::types::{Error, JsonType, Number};
use dart::DartState;
use declarations::Declarations;
use mock::MockState;
use vstd::prelude::*;
use vstd::string::*;

verus! {

/// The names under which [`accumulator_choose_with_str`] knows an
/// accumulator.
pub const ACCUMULATOR_SUPPORT_LIST: [&'static str; 7] = [
    "typescript",
    "python",
    "dart",
    "rust",
    "java",
    "kotlin",
    "mock",
];

/// One of the accumulators that have a name.
pub enum AnyAccumulator {
    Typescript(TypescriptAccumulator),
    Rust(RustAccumulator),
    Java(JavaAccumulator),
    Dart(DartAccumulator),
    Kotlin(KotlinAccumulator),
    Python(PythonAccumulator),
    Mock(MockAccumulator),
}

/// What an [`AnyAccumulator`] holds: the state of the accumulator it is.
pub enum AnyState {
    Typescript(Declarations),
    Rust(Declarations),
    Java(Declarations),
    Dart(DartState),
    Kotlin(Declarations),
    Python(Declarations),
    Mock(MockState),
}

impl View for AnyAccumulator {
    type V = AnyState;

    open spec fn view(&self) -> AnyState {
        match self {
            AnyAccumulator::Typescript(a) => AnyState::Typescript(a@),
            AnyAccumulator::Rust(a) => AnyState::Rust(a@),
            AnyAccumulator::Java(a) => AnyState::Java(a@),
            AnyAccumulator::Dart(a) => AnyState::Dart(a@),
            AnyAccumulator::Kotlin(a) => AnyState::Kotlin(a@),
            AnyAccumulator::Python(a) => AnyState::Python(a@),
            AnyAccumulator::Mock(a) => AnyState::Mock(a@),
        }
    }
}

/// The accumulator that a name stands for, as it begins.
pub open spec fn chosen(name: Seq<char>) -> Option<AnyState> {
    if name == "typescript"@ {
        Some(AnyState::Typescript(Declarations::none()))
    } else if name == "rust"@ {
        Some(AnyState::Rust(Declarations::none()))
    } else if name == "java"@ {
        Some(AnyState::Java(Declarations::none()))
    } else if name == "dart"@ {
        Some(AnyState::Dart(DartState { open: Seq::empty(), closed: Seq::empty() }))
    } else if name == "kotlin"@ {
        Some(AnyState::Kotlin(Declarations::none()))
    } else if name == "python"@ {
        Some(AnyState::Python(Declarations::none()))
    } else if name == "mock"@ {
        Some(AnyState::Mock(MockState { text: Seq::empty(), open: 0 }))
    } else {
        None
    }
}

/// The first `n` of a list of names, each between double quotes, with
/// commas between them.
pub open spec fn listed(names: Seq<&'static str>, n: nat) -> Seq<char>
    decreases n,
{
    if n == 0 || n > names.len() {
        Seq::empty()
    } else if n == 1 {
        "\""@ + names[0]@ + "\""@
    } else {
        listed(names, (n - 1) as nat) + ","@ + "\""@ + names[n - 1]@ + "\""@
    }
}

/// The names of [`ACCUMULATOR_SUPPORT_LIST`] as the text of a JSON array of
/// strings.
pub fn supported_accumulators_text() -> (r: String)
    ensures
        r@ == "["@ + listed(ACCUMULATOR_SUPPORT_LIST@, 7) + "]"@,
        r@ == "[\"typescript\",\"python\",\"dart\",\"rust\",\"java\",\"kotlin\",\"mock\"]"@,
{
    let mut text = String::from_str("[");
    let mut i: usize = 0;
    assert(text@ =~= "["@ + listed(ACCUMULATOR_SUPPORT_LIST@, 0));
    while i < 7
        invariant
            i <= 7,
            text@ == "["@ + listed(ACCUMULATOR_SUPPORT_LIST@, i as nat),
        decreases 7 - i,
    {
        if i > 0 {
            text.append(",");
        }
        text.append("\"");
        text.append(ACCUMULATOR_SUPPORT_LIST[i]);
        text.append("\"");
        assert(text@ =~= "["@ + listed(ACCUMULATOR_SUPPORT_LIST@, (i + 1) as nat));
        i = i + 1;
    }
    text.append("]");
    proof {
        reveal_with_fuel(listed, 8);
        reveal_strlit("[");
        reveal_strlit("]");
        reveal_strlit(",");
        reveal_strlit("\"");
        reveal_strlit("typescript");
        reveal_strlit("python");
        reveal_strlit("dart");
        reveal_strlit("rust");
        reveal_strlit("java");
        reveal_strlit("kotlin");
        reveal_strlit("mock");
        reveal_strlit(
            "[\"typescript\",\"python\",\"dart\",\"rust\",\"java\",\"kotlin\",\"mock\"]",
        );
        assert(text@ =~= "[\"typescript\",\"python\",\"dart\",\"rust\",\"java\",\"kotlin\",\"mock\"]"@);
    }
    text
}

/// The accumulator of that name, if there is one.
pub fn accumulator_choose_with_str(s: &str) -> (r: Option<AnyAccumulator>)
    ensures
        match r {
            Some(accumulator) => chosen(s@) == Some(accumulator@),
            None => chosen(s@) is None,
        },
{
    if same_text(s, "typescript") {
        Some(AnyAccumulator::Typescript(TypescriptAccumulator::begin()))
    } else if same_text(s, "rust") {
        Some(AnyAccumulator::Rust(RustAccumulator::begin()))
    } else if same_text(s, "java") {
        Some(AnyAccumulator::Java(JavaAccumulator::begin()))
    } else if same_text(s, "dart") {
        Some(AnyAccumulator::Dart(DartAccumulator::begin()))
    } else if same_text(s, "kotlin") {
        Some(AnyAccumulator::Kotlin(KotlinAccumulator::begin()))
    } else if same_text(s, "python") {
        Some(AnyAccumulator::Python(PythonAccumulator::begin()))
    } else if same_text(s, "mock") {
        Some(AnyAccumulator::Mock(MockAccumulator::begin()))
    } else {
        None
    }
}

impl TypeAccumulator for AnyAccumulator {
    open spec fn open_types(state: AnyState) -> nat {
        match state {
            AnyState::Typescript(s) => TypescriptAccumulator::open_types(s),
            AnyState::Rust(s) => RustAccumulator::open_types(s),
            AnyState::Java(s) => JavaAccumulator::open_types(s),
            AnyState::Dart(s) => DartAccumulator::open_types(s),
            AnyState::Kotlin(s) => KotlinAccumulator::open_types(s),
            AnyState::Python(s) => PythonAccumulator::open_types(s),
            AnyState::Mock(s) => MockAccumulator::open_types(s),
        }
    }

    open spec fn name_prefix(state: AnyState) -> Seq<char> {
        match state {
            AnyState::Typescript(s) => TypescriptAccumulator::name_prefix(s),
            AnyState::Rust(s) => RustAccumulator::name_prefix(s),
            AnyState::Java(s) => JavaAccumulator::name_prefix(s),
            AnyState::Dart(s) => DartAccumulator::name_prefix(s),
            AnyState::Kotlin(s) => KotlinAccumulator::name_prefix(s),
            AnyState::Python(s) => PythonAccumulator::name_prefix(s),
            AnyState::Mock(s) => MockAccumulator::name_prefix(s),
        }
    }

    open spec fn refusal(state: AnyState, call: Call) -> Option<Error> {
        match state {
            AnyState::Typescript(s) => TypescriptAccumulator::refusal(s, call),
            AnyState::Rust(s) => RustAccumulator::refusal(s, call),
            AnyState::Java(s) => JavaAccumulator::refusal(s, call),
            AnyState::Dart(s) => DartAccumulator::refusal(s, call),
            AnyState::Kotlin(s) => KotlinAccumulator::refusal(s, call),
            AnyState::Python(s) => PythonAccumulator::refusal(s, call),
            AnyState::Mock(s) => MockAccumulator::refusal(s, call),
        }
    }

    open spec fn apply(state: AnyState, call: Call) -> AnyState {
        match state {
            AnyState::Typescript(s) => AnyState::Typescript(TypescriptAccumulator::apply(s, call)),
            AnyState::Rust(s) => AnyState::Rust(RustAccumulator::apply(s, call)),
            AnyState::Java(s) => AnyState::Java(JavaAccumulator::apply(s, call)),
            AnyState::Dart(s) => AnyState::Dart(DartAccumulator::apply(s, call)),
            AnyState::Kotlin(s) => AnyState::Kotlin(KotlinAccumulator::apply(s, call)),
            AnyState::Python(s) => AnyState::Python(PythonAccumulator::apply(s, call)),
            AnyState::Mock(s) => AnyState::Mock(MockAccumulator::apply(s, call)),
        }
    }

    open spec fn rendered(state: AnyState) -> Seq<char> {
        match state {
            AnyState::Typescript(s) => TypescriptAccumulator::rendered(s),
            AnyState::Rust(s) => RustAccumulator::rendered(s),
            AnyState::Java(s) => JavaAccumulator::rendered(s),
            AnyState::Dart(s) => DartAccumulator::rendered(s),
            AnyState::Kotlin(s) => KotlinAccumulator::rendered(s),
            AnyState::Python(s) => PythonAccumulator::rendered(s),
            AnyState::Mock(s) => MockAccumulator::rendered(s),
        }
    }

    open spec fn ended(state: AnyState) -> AnyState {
        match state {
            AnyState::Typescript(s) => AnyState::Typescript(TypescriptAccumulator::ended(s)),
            AnyState::Rust(s) => AnyState::Rust(RustAccumulator::ended(s)),
            AnyState::Java(s) => AnyState::Java(JavaAccumulator::ended(s)),
            AnyState::Dart(s) => AnyState::Dart(DartAccumulator::ended(s)),
            AnyState::Kotlin(s) => AnyState::Kotlin(KotlinAccumulator::ended(s)),
            AnyState::Python(s) => AnyState::Python(PythonAccumulator::ended(s)),
            AnyState::Mock(s) => AnyState::Mock(MockAccumulator::ended(s)),
        }
    }

    proof fn lemma_taken_call(state: AnyState, call: Call) {
        match state {
            AnyState::Typescript(s) => TypescriptAccumulator::lemma_taken_call(s, call),
            AnyState::Rust(s) => RustAccumulator::lemma_taken_call(s, call),
            AnyState::Java(s) => JavaAccumulator::lemma_taken_call(s, call),
            AnyState::Dart(s) => DartAccumulator::lemma_taken_call(s, call),
            AnyState::Kotlin(s) => KotlinAccumulator::lemma_taken_call(s, call),
            AnyState::Python(s) => PythonAccumulator::lemma_taken_call(s, call),
            AnyState::Mock(s) => MockAccumulator::lemma_taken_call(s, call),
        }
    }

    fn end(&mut self) -> (text: String) {
        match self {
            AnyAccumulator::Typescript(a) => a.end(),
            AnyAccumulator::Rust(a) => a.end(),
            AnyAccumulator::Java(a) => a.end(),
            AnyAccumulator::Dart(a) => a.end(),
            AnyAccumulator::Kotlin(a) => a.end(),
            AnyAccumulator::Python(a) => a.end(),
            AnyAccumulator::Mock(a) => a.end(),
        }
    }

    fn number(&mut self, key: &str, number: Number) -> (r: Result<(), Error>) {
        match self {
            AnyAccumulator::Typescript(a) => a.number(key, number),
            AnyAccumulator::Rust(a) => a.number(key, number),
            AnyAccumulator::Java(a) => a.number(key, number),
            AnyAccumulator::Dart(a) => a.number(key, number),
            AnyAccumulator::Kotlin(a) => a.number(key, number),
            AnyAccumulator::Python(a) => a.number(key, number),
            AnyAccumulator::Mock(a) => a.number(key, number),
        }
    }

    fn boolean(&mut self, key: &str) -> (r: Result<(), Error>) {
        match self {
            AnyAccumulator::Typescript(a) => a.boolean(key),
            AnyAccumulator::Rust(a) => a.boolean(key),
            AnyAccumulator::Java(a) => a.boolean(key),
            AnyAccumulator::Dart(a) => a.boolean(key),
            AnyAccumulator::Kotlin(a) => a.boolean(key),
            AnyAccumulator::Python(a) => a.boolean(key),
            AnyAccumulator::Mock(a) => a.boolean(key),
        }
    }

    fn string(&mut self, key: &str) -> (r: Result<(), Error>) {
        match self {
            AnyAccumulator::Typescript(a) => a.string(key),
            AnyAccumulator::Rust(a) => a.string(key),
            AnyAccumulator::Java(a) => a.string(key),
            AnyAccumulator::Dart(a) => a.string(key),
            AnyAccumulator::Kotlin(a) => a.string(key),
            AnyAccumulator::Python(a) => a.string(key),
            AnyAccumulator::Mock(a) => a.string(key),
        }
    }

    fn unknown(&mut self, key: &str) -> (r: Result<(), Error>) {
        match self {
            AnyAccumulator::Typescript(a) => a.unknown(key),
            AnyAccumulator::Rust(a) => a.unknown(key),
            AnyAccumulator::Java(a) => a.unknown(key),
            AnyAccumulator::Dart(a) => a.unknown(key),
            AnyAccumulator::Kotlin(a) => a.unknown(key),
            AnyAccumulator::Python(a) => a.unknown(key),
            AnyAccumulator::Mock(a) => a.unknown(key),
        }
    }

    fn array(&mut self, key: &str, ty: JsonType) -> (r: Result<(), Error>) {
        match self {
            AnyAccumulator::Typescript(a) => a.array(key, ty),
            AnyAccumulator::Rust(a) => a.array(key, ty),
            AnyAccumulator::Java(a) => a.array(key, ty),
            AnyAccumulator::Dart(a) => a.array(key, ty),
            AnyAccumulator::Kotlin(a) => a.array(key, ty),
            AnyAccumulator::Python(a) => a.array(key, ty),
            AnyAccumulator::Mock(a) => a.array(key, ty),
        }
    }

    fn object(&mut self, key: &str, object_name: &str) -> (r: Result<(), Error>) {
        match self {
            AnyAccumulator::Typescript(a) => a.object(key, object_name),
            AnyAccumulator::Rust(a) => a.object(key, object_name),
            AnyAccumulator::Java(a) => a.object(key, object_name),
            AnyAccumulator::Dart(a) => a.object(key, object_name),
            AnyAccumulator::Kotlin(a) => a.object(key, object_name),
            AnyAccumulator::Python(a) => a.object(key, object_name),
            AnyAccumulator::Mock(a) => a.object(key, object_name),
        }
    }

    fn push_object_type(&mut self, object_name: &str) -> (r: Result<(), Error>) {
        match self {
            AnyAccumulator::Typescript(a) => a.push_object_type(object_name),
            AnyAccumulator::Rust(a) => a.push_object_type(object_name),
            AnyAccumulator::Java(a) => a.push_object_type(object_name),
            AnyAccumulator::Dart(a) => a.push_object_type(object_name),
            AnyAccumulator::Kotlin(a) => a.push_object_type(object_name),
            AnyAccumulator::Python(a) => a.push_object_type(object_name),
            AnyAccumulator::Mock(a) => a.push_object_type(object_name),
        }
    }

    fn pop_object_type(&mut self) -> (r: Result<(), Error>) {
        match self {
            AnyAccumulator::Typescript(a) => a.pop_object_type(),
            AnyAccumulator::Rust(a) => a.pop_object_type(),
            AnyAccumulator::Java(a) => a.pop_object_type(),
            AnyAccumulator::Dart(a) => a.pop_object_type(),
            AnyAccumulator::Kotlin(a) => a.pop_object_type(),
            AnyAccumulator::Python(a) => a.pop_object_type(),
            AnyAccumulator::Mock(a) => a.pop_object_type(),
        }
    }

    fn prefered_object_name(&self) -> (name: String) {
        match self {
            AnyAccumulator::Typescript(a) => a.prefered_object_name(),
            AnyAccumulator::Rust(a) => a.prefered_object_name(),
            AnyAccumulator::Java(a) => a.prefered_object_name(),
            AnyAccumulator::Dart(a) => a.prefered_object_name(),
            AnyAccumulator::Kotlin(a) => a.prefered_object_name(),
            AnyAccumulator::Python(a) => a.prefered_object_name(),
            AnyAccumulator::Mock(a) => a.prefered_object_name(),
        }
    }
}

} // verus!
