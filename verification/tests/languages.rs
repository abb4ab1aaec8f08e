use schemajen::{
    generate, DartAccumulator, JavaAccumulator, JsonType, KotlinAccumulator, Number,
    PythonAccumulator, RustAccumulator, SwiftAccumulator, TypeAccumulator, TypescriptAccumulator,
};

const DOCUMENT: &str = r#"{
    "id": 1,
    "price": 2.5,
    "ok": true,
    "name": "x",
    "none": null,
    "tags": ["a"],
    "grid": [[1]],
    "pos": {"x": 1},
    "list": [{"x": 2}],
    "empty": []
}"#;

#[test]
fn rust_writes_structs() {
    assert_eq!(
        generate(&mut RustAccumulator::begin(), "Root", DOCUMENT).unwrap(),
        "type Unknown = Option<()>;\n\n\
#[derive(Serialize, Deserialize)]\npub struct _Type0 {\n\tx: i64,\n}\n\n\
#[derive(Serialize, Deserialize)]\npub struct Root {\n\tid: i64,\n\tprice: f64,\n\tok: bool,\n\tname: String,\n\tnone: Unknown,\n\ttags: Vec<String>,\n\tgrid: Vec<Vec<i64>>,\n\tpos: _Type0,\n\tlist: Vec<_Type0>,\n\tempty: Vec<Unknown>,\n}\n\n"
    );
}

#[test]
fn rust_declares_unknown_only_where_it_is_used() {
    assert_eq!(
        generate(&mut RustAccumulator::begin(), "A", r#"{"a":1}"#).unwrap(),
        "#[derive(Serialize, Deserialize)]\npub struct A {\n\ta: i64,\n}\n\n"
    );
    assert_eq!(
        generate(&mut RustAccumulator::begin(), "A", r#"{"a":[[]]}"#).unwrap(),
        "type Unknown = Option<()>;\n\n#[derive(Serialize, Deserialize)]\npub struct A {\n\ta: Vec<Vec<Unknown>>,\n}\n\n"
    );
}

#[test]
fn typescript_writes_type_aliases() {
    assert_eq!(
        generate(&mut TypescriptAccumulator::begin(), "Root", DOCUMENT).unwrap(),
        "type _Type0 = {\n\tx: number;\n}\n\n\
type Root = {\n\tid: number;\n\tprice: number;\n\tok: boolean;\n\tname: string;\n\tnone: unknown;\n\ttags: string[];\n\tgrid: number[][];\n\tpos: _Type0;\n\tlist: _Type0[];\n\tempty: unknown[];\n}\n\n"
    );
}

#[test]
fn java_writes_serializable_classes() {
    assert_eq!(
        generate(&mut JavaAccumulator::begin(), "Root", DOCUMENT).unwrap(),
        "public class Unknown implements java.io.Serializable {}\n\n\
public class _Type0 implements java.io.Serializable {\n\tpublic int x;\n}\n\n\
public class Root implements java.io.Serializable {\n\tpublic int id;\n\tpublic float price;\n\tpublic boolean ok;\n\tpublic String name;\n\tpublic Unknown none;\n\tpublic java.util.Vector<String> tags;\n\tpublic java.util.Vector<java.util.Vector<int>> grid;\n\tpublic _Type0 pos;\n\tpublic java.util.Vector<_Type0> list;\n\tpublic java.util.Vector<Unknown> empty;\n}\n\n"
    );
}

#[test]
fn kotlin_writes_serializable_classes() {
    assert_eq!(
        generate(&mut KotlinAccumulator::begin(), "Root", DOCUMENT).unwrap(),
        "class Unknown;\n\n\
@Serializable\nclass _Type0 {\n\tval x: Int,\n}\n\n\
@Serializable\nclass Root {\n\tval id: Int,\n\tval price: Double,\n\tval ok: bool,\n\tval name: String,\n\tval none: Unknown,\n\tval tags: Array<String>,\n\tval grid: Array<Array<Int>>,\n\tval pos: _Type0,\n\tval list: Array<_Type0>,\n\tval empty: Array<Unknown>,\n}\n\n\
//  import kotlinx.serialization.Serializable\n//  import kotlinx.serialization.json.Json\n//  import kotlinx.serialization.encodeToString\n//\n//  val json = Json.encodeToString(T)\n//  val ty = Json.decodeFromString<T>(json)"
    );
}

#[test]
fn python_writes_typed_dicts() {
    assert_eq!(
        generate(&mut PythonAccumulator::begin(), "Root", DOCUMENT).unwrap(),
        "class Unknown(TypedDict):\n\tpass\n\n\
class _Type0(TypedDict):\n\tx: int\n\n\n\
class Root(TypedDict):\n\tid: int\n\tprice: float\n\tok: bool\n\tname: str\n\tnone: Unknown\n\ttags: list[str]\n\tgrid: list[list[int]]\n\tpos: _Type0\n\tlist: list[_Type0]\n\tempty: list[Unknown]\n\n\n\
# This accumulator relies on `TypedDict`.\n# Import with `from typing import TypedDict`.\n# Note that this is only supported on Python 3.8+"
    );
}

#[test]
fn swift_writes_codable_classes() {
    assert_eq!(
        generate(&mut SwiftAccumulator::begin(), "Root", DOCUMENT).unwrap(),
        "struct Unknown {}\n\n\
class _Type0: Codable {\n\tvar x: Int \n}\n\n\
class Root: Codable {\n\tvar id: Int \n\tvar price: Double \n\tvar ok: Bool\n\tvar name: String\n\tvar none: Unknown,\n\tvar tags: [String],\n\tvar grid: [[Int]],\n\tvar pos: _Type0,\n\tvar list: [_Type0],\n\tvar empty: [Unknown],\n}\n\n\
//  let encoder = JSONEncoder()\n//  To use this option, replace snake case members to camel case.\n//  encoder.keyEncodingStrategy = .convertToSnakeCase\n//  let json = encoder.encode(T)\n//\n//  let decoder = JSONDecoder()\n//  To use this option, replace snake case members to camel case.\n//  decoder.keyDecodingStrategy = .convertFromSnakeCase\n//  let ty = try decoder.decode(T.self, from: json)"
    );
}

const DART_END: &str = "//  import 'dart:convert';\n//  var data = jsonDecode(\"{ ... }\");\n//  var ty = T.fromJson(data);\n//  jsonEncode(ty.toJson());";

#[test]
fn dart_writes_a_class_with_its_two_conversions() {
    assert_eq!(
        generate(&mut DartAccumulator::begin(), "A", r#"{"x":1,"s":"t"}"#).unwrap(),
        String::from(
            "class A {\n\tfinal int x;\n\tfinal String s;\n\
\tA.fromJson(Map<String, dynamic> json):\n\t\tx = json['x'],\n\t\ts = json['s'];\n\n\
\tMap<String, dynamic> toJson() => {\n\t\t'x': x,\n\t\t's': s,\n\t};\n}\n\n"
        ) + DART_END
    );
}

#[test]
fn dart_reads_and_writes_lists_level_by_level() {
    let json = r#"{
        "id": 1,
        "tags": ["a"],
        "grid": [[1]],
        "pos": {"x": 1},
        "list": [{"x": 2}],
        "deep": [[[{"x": 3}]]]
    }"#;
    let inner = "class _Type0 {\n\tfinal int x;\n\
\t_Type0.fromJson(Map<String, dynamic> json):\n\t\tx = json['x'];\n\n\
\tMap<String, dynamic> toJson() => {\n\t\t'x': x,\n\t};\n}\n\n";
    let root = "class Root {\n\
\tfinal int id;\n\
\tfinal List<String> tags;\n\
\tfinal List<List<int>> grid;\n\
\tfinal _Type0 pos;\n\
\tfinal List<_Type0> list;\n\
\tfinal List<List<List<_Type0>>> deep;\n\
\tRoot.fromJson(Map<String, dynamic> json):\n\
\t\tid = json['id'],\n\
\t\ttags = List<String>.from(json['tags'].map((i) => i)),\n\
\t\tgrid = List<List<int>>.from(json['grid'].map((i0) => List<int>.from(i0.map((i) => i)))),\n\
\t\tpos = json['pos'],\n\
\t\tlist = List<_Type0>.from(json['list'].map((i) => _Type0.fromJson(i))),\n\
\t\tdeep = List<List<List<_Type0>>>.from(json['deep'].map((i1) => List<List<_Type0>>.from(i1.map((i0) => List<_Type0>.from(i0.map((i) => _Type0.fromJson(i)))))));\n\n\
\tMap<String, dynamic> toJson() => {\n\
\t\t'id': id,\n\
\t\t'tags': tags.map((i) => i).toList(),\n\
\t\t'grid': grid.map((i0) => i0.map((i) => i).toList()).toList(),\n\
\t\t'pos': pos.toJson(),\n\
\t\t'list': list.map((i) => i.toJson()).toList(),\n\
\t\t'deep': deep.map((i1) => i1.map((i0) => i0.map((i) => i.toJson()).toList()).toList()).toList(),\n\
\t};\n}\n\n";
    assert_eq!(
        generate(&mut DartAccumulator::begin(), "Root", json).unwrap(),
        String::from(inner) + root + DART_END
    );
}

#[test]
fn dart_writes_a_class_without_fields() {
    assert_eq!(
        generate(&mut DartAccumulator::begin(), "E", "{}").unwrap(),
        String::from(
            "class E {\n\tE.fromJson(Map<String, dynamic> json);\n\n\tMap<String, dynamic> toJson() => {\n\t};\n}\n\n"
        ) + DART_END
    );
}

#[test]
fn dart_takes_unknown_and_the_other_numbers() {
    assert_eq!(
        generate(&mut DartAccumulator::begin(), "A", r#"{"n":null,"f":0.5,"b":false,"e":[]}"#)
            .unwrap(),
        String::from(
            "class A {\n\tfinal dynamic n;\n\tfinal double f;\n\tfinal bool b;\n\tfinal List<dynamic> e;\n\
\tA.fromJson(Map<String, dynamic> json):\n\t\tn = json['n'],\n\t\tf = json['f'],\n\t\tb = json['b'],\n\t\te = List<dynamic>.from(json['e'].map((i) => i));\n\n\
\tMap<String, dynamic> toJson() => {\n\t\t'n': n,\n\t\t'f': f,\n\t\t'b': b,\n\t\t'e': e.map((i) => i).toList(),\n\t};\n}\n\n"
        ) + DART_END
    );
}

#[test]
fn an_accumulator_can_be_driven_by_hand() {
    let mut rust = RustAccumulator::begin();
    assert_eq!(rust.prefered_object_name(), "_Type");
    rust.push_object_type("Outer").unwrap();
    rust.number("n", Number::Float).unwrap();
    rust.push_object_type("Inner").unwrap();
    rust.boolean("b").unwrap();
    rust.pop_object_type().unwrap();
    rust.object("i", "Inner").unwrap();
    rust.array("a", JsonType::Array(Box::new(JsonType::Object(String::from("Inner")))))
        .unwrap();
    rust.string("s").unwrap();
    rust.pop_object_type().unwrap();
    assert_eq!(
        rust.end(),
        "#[derive(Serialize, Deserialize)]\npub struct Inner {\n\tb: bool,\n}\n\n\
#[derive(Serialize, Deserialize)]\npub struct Outer {\n\tn: f64,\n\ti: Inner,\n\ta: Vec<Vec<Inner>>,\n\ts: String,\n}\n\n"
    );
}

#[test]
fn a_declaration_that_is_still_open_is_not_in_the_text() {
    let mut typescript = TypescriptAccumulator::begin();
    typescript.push_object_type("Done").unwrap();
    typescript.unknown("u").unwrap();
    typescript.pop_object_type().unwrap();
    typescript.push_object_type("Open").unwrap();
    typescript.number("n", Number::Int).unwrap();
    assert_eq!(typescript.end(), "type Done = {\n\tu: unknown;\n}\n\n");
}

#[test]
fn every_language_has_the_same_stem() {
    assert_eq!(DartAccumulator::begin().prefered_object_name(), "_Type");
    assert_eq!(JavaAccumulator::begin().prefered_object_name(), "_Type");
    assert_eq!(KotlinAccumulator::begin().prefered_object_name(), "_Type");
    assert_eq!(PythonAccumulator::begin().prefered_object_name(), "_Type");
    assert_eq!(SwiftAccumulator::begin().prefered_object_name(), "_Type");
    assert_eq!(TypescriptAccumulator::begin().prefered_object_name(), "_Type");
}

#[test]
fn an_accumulator_begins_as_its_default() {
    let json = r#"{"a":[{"b":null}]}"#;
    assert_eq!(
        generate(&mut RustAccumulator::default(), "T", json),
        generate(&mut RustAccumulator::begin(), "T", json)
    );
    assert_eq!(
        generate(&mut DartAccumulator::default(), "T", json),
        generate(&mut DartAccumulator::begin(), "T", json)
    );
    assert_eq!(
        generate(&mut TypescriptAccumulator::default(), "T", json).unwrap(),
        "type _Type0 = {\n\tb: unknown;\n}\n\ntype T = {\n\ta: _Type0[];\n}\n\n"
    );
    assert_eq!(JavaAccumulator::default().end(), "");
    assert_eq!(PythonAccumulator::default().end(), PythonAccumulator::begin().end());
    assert_eq!(KotlinAccumulator::default().end(), KotlinAccumulator::begin().end());
    assert_eq!(SwiftAccumulator::default().end(), SwiftAccumulator::begin().end());
}
