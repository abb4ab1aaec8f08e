use schemajen::{accumulator_choose_with_str, generate, generate_from_value, Error, MockAccumulator};
use schemajen::{NumberParts, Value};

fn mock(json: &str) -> Result<String, Error> {
    generate(&mut MockAccumulator::begin(), "T", json)
}

#[test]
fn one_type_with_two_fields_in_order() {
    assert_eq!(
        mock(r#"{"a":10,"b":true}"#).unwrap(),
        "ty:T\nnum:a:Int\nbool:b\npopty\n"
    );
}

#[test]
fn two_objects_of_one_shape_share_a_declaration() {
    assert_eq!(
        mock(r#"{"x":{"a":1},"y":{"a":2}}"#).unwrap(),
        "ty:T\nty:_0\nnum:a:Int\npopty\nobj:x:_0\nobj:y:_0\npopty\n"
    );
}

#[test]
fn an_extra_field_makes_another_shape() {
    assert_eq!(
        mock(r#"{"a":[{"a":"10"},{"a":"10","b":5}]}"#),
        Err(Error::DifferingArrayType)
    );
}

#[test]
fn an_empty_array_is_an_array_of_unknown() {
    assert_eq!(mock(r#"{"a":[]}"#).unwrap(), "ty:T\narr:a:Null\npopty\n");
}

#[test]
fn the_same_call_gives_the_same_text() {
    let json = r#"{"p":{"q":[1,2,3]},"r":[{"s":null},{"s":null}],"t":1.5}"#;
    let first = mock(json).unwrap();
    let second = mock(json).unwrap();
    assert_eq!(first, second);
    assert_eq!(
        first,
        "ty:T\nty:_0\narr:q:Number(Int)\npopty\nobj:p:_0\nty:_1\nnull:s\npopty\narr:r:Object(\"_1\")\nnum:t:Float\npopty\n"
    );
}

#[test]
fn the_order_of_fields_makes_no_other_shape() {
    assert_eq!(
        mock(r#"{"x":{"a":1,"b":"s"},"y":{"b":"t","a":2}}"#).unwrap(),
        "ty:T\nty:_0\nnum:a:Int\nstr:b\npopty\nobj:x:_0\nobj:y:_0\npopty\n"
    );
}

#[test]
fn the_same_shape_deep_down_has_the_same_name() {
    assert_eq!(
        mock(r#"{"x":{"a":1},"y":{"z":{"a":7}},"w":[{"a":3}]}"#).unwrap(),
        "ty:T\nty:_0\nnum:a:Int\npopty\nobj:x:_0\nty:_1\nobj:z:_0\npopty\nobj:y:_1\narr:w:Object(\"_0\")\npopty\n"
    );
}

#[test]
fn a_shape_like_the_root_is_declared_again() {
    assert_eq!(
        mock(r#"{"a":{"a":{}}}"#).unwrap(),
        "ty:T\nty:_0\npopty\nty:_1\nobj:a:_0\npopty\nobj:a:_1\npopty\n"
    );
}

#[test]
fn elements_of_two_types_fail() {
    assert_eq!(mock(r#"{"a":[1,"x"]}"#), Err(Error::DifferingArrayType));
    assert_eq!(mock(r#"{"a":[1,2.5]}"#), Err(Error::DifferingArrayType));
    assert_eq!(mock(r#"{"a":[[1],[true]]}"#), Err(Error::DifferingArrayType));
    assert_eq!(mock(r#"{"a":{"b":[[],[1]]}}"#), Err(Error::DifferingArrayType));
    assert_eq!(mock(r#"{"a":[null,1]}"#), Err(Error::DifferingArrayType));
}

#[test]
fn elements_of_one_type_pass() {
    assert_eq!(
        mock(r#"{"a":[[1],[2,3],[]]}"#),
        Err(Error::DifferingArrayType)
    );
    assert_eq!(
        mock(r#"{"a":[[1],[2,3]]}"#).unwrap(),
        "ty:T\narr:a:Array(Number(Int))\npopty\n"
    );
    assert_eq!(
        mock(r#"{"a":[[],[]]}"#).unwrap(),
        "ty:T\narr:a:Array(Null)\npopty\n"
    );
}

#[test]
fn a_root_that_is_no_object_is_turned_down() {
    for case in ["0", "\"x\"", "[1]", "null", "true", "[{\"a\":[1,\"x\"]}]", "1e999"] {
        assert_eq!(mock(case), Err(Error::ExpectedObject), "{}", case);
    }
}

#[test]
fn a_root_that_is_no_object_leaves_the_accumulator() {
    let mut accumulator = accumulator_choose_with_str("mock").unwrap();
    assert_eq!(
        generate(&mut accumulator, "T", "[]"),
        Err(Error::ExpectedObject)
    );
    assert_eq!(
        generate(&mut accumulator, "T", r#"{"a":1}"#).unwrap(),
        "ty:T\nnum:a:Int\npopty\n"
    );
}

#[test]
fn a_text_that_is_no_json_gives_the_parser_s_error() {
    assert!(matches!(mock("{"), Err(Error::Parse(_))));
    assert!(matches!(mock(""), Err(Error::Parse(_))));
    assert!(matches!(mock(r#"{"a":}"#), Err(Error::Parse(_))));
    assert_eq!(
        mock("{"),
        Err(Error::Parse(json::Error::UnexpectedEndOfJson))
    );
}

#[test]
fn a_number_too_large_for_a_double_is_bad() {
    assert_eq!(mock(r#"{"a":1e400}"#), Err(Error::BadNumber));
    assert_eq!(mock(r#"{"a":[1e400]}"#), Err(Error::BadNumber));
    assert_eq!(mock(r#"{"a":{"b":-2e309}}"#), Err(Error::BadNumber));
}

#[test]
fn the_first_error_ends_the_run() {
    assert_eq!(mock(r#"{"a":[1,"x"],"b":1e400}"#), Err(Error::DifferingArrayType));
    assert_eq!(mock(r#"{"b":1e400,"a":[1,"x"]}"#), Err(Error::BadNumber));
}

#[test]
fn a_document_given_as_a_value() {
    let document = Value::Object(vec![
        (
            String::from("n"),
            Value::Number(NumberParts { positive: true, mantissa: 7, exponent: 0 }),
        ),
        (String::from("s"), Value::String(String::from("x"))),
        (String::from("z"), Value::Null),
        (
            String::from("o"),
            Value::Object(vec![(String::from("b"), Value::Boolean(false))]),
        ),
        (String::from("e"), Value::Array(vec![])),
    ]);
    assert_eq!(
        generate_from_value(&mut MockAccumulator::begin(), "Root", &document).unwrap(),
        "ty:Root\nnum:n:Int\nstr:s\nnull:z\nty:_0\nbool:b\npopty\nobj:o:_0\narr:e:Null\npopty\n"
    );
    assert_eq!(
        generate_from_value(&mut MockAccumulator::begin(), "Root", &Value::Null),
        Err(Error::ExpectedObject)
    );
}

#[test]
fn names_are_numbered_in_the_order_of_the_declarations() {
    let json = r#"{"a":{"b":{"c":{"d":1}}},"e":{"f":true},"g":{"b":{"c":{"d":2}}}}"#;
    assert_eq!(
        mock(json).unwrap(),
        "ty:T\nty:_0\nnum:d:Int\npopty\nty:_1\nobj:c:_0\npopty\nty:_2\nobj:b:_1\npopty\nobj:a:_2\nty:_3\nbool:f\npopty\nobj:e:_3\nobj:g:_2\npopty\n"
    );
}

#[test]
fn many_shapes_get_names_of_several_digits() {
    let mut json = String::from("{");
    for i in 0..12 {
        if i > 0 {
            json.push(',');
        }
        json.push_str(&format!("\"k{}\":{{\"f{}\":1}}", i, i));
    }
    json.push('}');
    let text = mock(&json).unwrap();
    assert!(text.contains("ty:_9\nnum:f9:Int\npopty\nobj:k9:_9\nty:_10\nnum:f10:Int\npopty\nobj:k10:_10\nty:_11\n"));
}

#[test]
fn a_name_of_an_object_is_quoted_in_a_type() {
    assert_eq!(
        mock(r#"{"a":[[{"b":1}]]}"#).unwrap(),
        "ty:T\nty:_0\nnum:b:Int\npopty\narr:a:Array(Object(\"_0\"))\npopty\n"
    );
}

/// An object `depth` deep and `width` wide, whose shapes differ from branch
/// to branch by the name of one field.
fn nested(depth: usize, width: usize, path: &str) -> String {
    let mut json = format!("{{\"tag{}\":1", path);
    if depth > 0 {
        for i in 0..width {
            json.push_str(&format!(
                ",\"c{}\":{}",
                i,
                nested(depth - 1, width, &format!("{}_{}", path, i))
            ));
        }
    }
    json.push('}');
    json
}

#[test]
fn no_two_declarations_of_a_deep_and_wide_document_have_one_name() {
    let json = nested(5, 3, "");
    let text = mock(&json).unwrap();
    let mut names: Vec<&str> = text
        .lines()
        .filter(|line| line.starts_with("ty:"))
        .map(|line| &line[3..])
        .collect();
    // 1 + 3 + 9 + 27 + 81 + 243 shapes, the root's among them.
    assert_eq!(names.len(), 364);
    assert_eq!(names[0], "T");
    for (i, name) in names.iter().enumerate().skip(1) {
        assert_eq!(*name, format!("_{}", i - 1));
    }
    names.sort();
    names.dedup();
    assert_eq!(names.len(), 364);
    assert_eq!(text.lines().filter(|line| *line == "popty").count(), 364);
}

#[test]
fn a_shape_met_again_is_not_declared_again() {
    let one = nested(3, 2, "");
    let json = format!("{{\"a\":{},\"b\":{},\"c\":[{},{}]}}", one, one, one, one);
    let text = mock(&json).unwrap();
    let names: Vec<&str> = text
        .lines()
        .filter(|line| line.starts_with("ty:"))
        .collect();
    // 1 + 2 + 4 + 8 shapes, and the root.
    assert_eq!(names.len(), 16);
    assert!(text.ends_with("obj:a:_14\nobj:b:_14\narr:c:Object(\"_14\")\npopty\n"));
}
