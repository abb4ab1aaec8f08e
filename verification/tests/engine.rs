use schemajen::parse::parse;
use schemajen::{
    generate, generate_field, generate_object, get_array_element_type, get_object_type,
    object_into_fields, value_into_json_type, Call, Error, JsonType, MockAccumulator, Number,
    ObjectTypeTable, TypeAccumulator, Value,
};
use vstd::prelude::{nat, Seq};

fn fields_of(json: &str) -> Vec<(String, Value)> {
    match parse(json) {
        Ok(Value::Object(fields)) => fields,
        other => panic!("{:?}", other),
    }
}

fn items_of(json: &str) -> Vec<Value> {
    match parse(json) {
        Ok(Value::Array(items)) => items,
        other => panic!("{:?}", other),
    }
}

fn typed(fields: &[(&str, JsonType)]) -> Vec<(String, JsonType)> {
    fields.iter().map(|(name, ty)| (String::from(*name), ty.clone())).collect()
}

#[test]
fn a_new_shape_is_declared_and_put_into_the_table() {
    let mut mock = MockAccumulator::begin();
    let mut table = ObjectTypeTable::new();
    let object = fields_of(r#"{"b":true,"a":1}"#);
    assert_eq!(get_object_type(&mut mock, &mut table, &object), Ok(String::from("_0")));
    assert_eq!(mock.end(), "ty:_0\nbool:b\nnum:a:Int\npopty\n");
    assert_eq!(table.count(), 1);
    assert_eq!(
        table.get_object_name(typed(&[
            ("a", JsonType::Number(Number::Int)),
            ("b", JsonType::Boolean),
        ])),
        Some(String::from("_0"))
    );
}

#[test]
fn a_known_shape_gets_its_name_without_a_call() {
    let mut mock = MockAccumulator::begin();
    let mut table = ObjectTypeTable::new();
    table.insert("Known", typed(&[("a", JsonType::Number(Number::Int)), ("b", JsonType::Boolean)]));
    let object = fields_of(r#"{"b":false,"a":7}"#);
    assert_eq!(get_object_type(&mut mock, &mut table, &object), Ok(String::from("Known")));
    assert_eq!(mock.end(), "");
    assert_eq!(table.count(), 1);
    let again = fields_of(r#"{"a":0,"b":true}"#);
    assert_eq!(
        value_into_json_type(&mut mock, &mut table, &Value::Object(again)),
        Ok(JsonType::Object(String::from("Known")))
    );
    assert_eq!(mock.end(), "");
}

#[test]
fn the_name_of_a_new_shape_counts_the_names_in_the_table() {
    let mut mock = MockAccumulator::begin();
    let mut table = ObjectTypeTable::new();
    table.insert("x", typed(&[("p", JsonType::Null)]));
    table.insert("y", typed(&[("q", JsonType::Null)]));
    let object = fields_of(r#"{"in":{"deep":null},"p":null}"#);
    assert_eq!(get_object_type(&mut mock, &mut table, &object), Ok(String::from("_3")));
    assert_eq!(
        mock.end(),
        "ty:_2\nnull:deep\npopty\nty:_3\nobj:in:_2\nnull:p\npopty\n"
    );
    assert_eq!(table.count(), 4);
}

#[test]
fn the_elements_of_an_array_have_the_type_of_the_first() {
    let mut mock = MockAccumulator::begin();
    let mut table = ObjectTypeTable::new();
    assert_eq!(
        get_array_element_type(&mut mock, &mut table, &items_of("[1,2,3]")),
        Ok(JsonType::Number(Number::Int))
    );
    assert_eq!(
        get_array_element_type(&mut mock, &mut table, &items_of(r#"[[""],["a","b"]]"#)),
        Ok(JsonType::Array(Box::new(JsonType::String)))
    );
    assert_eq!(mock.end(), "");
    assert_eq!(table.count(), 0);
}

#[test]
fn an_empty_array_has_elements_of_unknown_type() {
    let mut mock = MockAccumulator::begin();
    let mut table = ObjectTypeTable::new();
    table.insert("x", typed(&[("p", JsonType::Null)]));
    assert_eq!(get_array_element_type(&mut mock, &mut table, &items_of("[]")), Ok(JsonType::Null));
    assert_eq!(mock.end(), "");
    assert_eq!(table.count(), 1);
}

#[test]
fn an_element_of_another_type_is_found_at_any_place() {
    for json in ["[1,\"x\"]", "[1,2,\"x\"]", "[1,2,3,4,5,null]", "[1,2,3.5,4]", "[[1],[2],[\"x\"]]"] {
        let mut mock = MockAccumulator::begin();
        let mut table = ObjectTypeTable::new();
        assert_eq!(
            get_array_element_type(&mut mock, &mut table, &items_of(json)),
            Err(Error::DifferingArrayType),
            "{}",
            json
        );
    }
    let mut mock = MockAccumulator::begin();
    let mut table = ObjectTypeTable::new();
    assert_eq!(
        get_array_element_type(
            &mut mock,
            &mut table,
            &items_of(r#"[{"a":1},{"a":2},{"a":3,"b":4}]"#)
        ),
        Err(Error::DifferingArrayType)
    );
    // The two shapes that were met are declared and named.
    assert_eq!(mock.end(), "ty:_0\nnum:a:Int\npopty\nty:_1\nnum:a:Int\nnum:b:Int\npopty\n");
    assert_eq!(table.count(), 2);
}

#[test]
fn the_fields_of_an_object_are_typed_in_order() {
    let mut mock = MockAccumulator::begin();
    let mut table = ObjectTypeTable::new();
    let object = fields_of(r#"{"z":[1.5],"o":{"k":"v"},"n":null}"#);
    assert_eq!(
        object_into_fields(&mut mock, &mut table, &object),
        Ok(typed(&[
            ("z", JsonType::Array(Box::new(JsonType::Number(Number::Float)))),
            ("o", JsonType::Object(String::from("_0"))),
            ("n", JsonType::Null),
        ]))
    );
    assert_eq!(mock.end(), "ty:_0\nstr:k\npopty\n");
    assert_eq!(table.count(), 1);
}

#[test]
fn the_fields_of_an_open_declaration_are_given_in_order() {
    let mut mock = MockAccumulator::begin();
    let mut table = ObjectTypeTable::new();
    mock.push_object_type("Open").unwrap();
    let object = fields_of(r#"{"s":"x","a":[true],"o":{}}"#);
    assert_eq!(generate_object(&mut mock, &mut table, &object), Ok(()));
    assert_eq!(generate_field(&mut mock, &mut table, "last", &Value::Null), Ok(()));
    assert_eq!(
        mock.end(),
        "ty:Open\nstr:s\narr:a:Boolean\nty:_0\npopty\nobj:o:_0\nnull:last\n"
    );
    assert_eq!(table.count(), 1);
}

/// Takes every call but the opening of a declaration whose name is in the
/// list, and writes down the calls it takes.
struct Shy {
    refused: Vec<&'static str>,
    taken: Vec<String>,
}

impl Shy {
    fn take(&mut self, call: String) -> Result<(), Error> {
        self.taken.push(call);
        Ok(())
    }
}

// The functions that only a proof reads are never called.
impl vstd::view::View for Shy {
    type V = ();

    fn view(&self) {}
}

impl TypeAccumulator for Shy {
    fn open_types(_: ()) -> nat {
        unreachable!()
    }

    fn name_prefix(_: ()) -> Seq<char> {
        unreachable!()
    }

    fn refusal(_: (), _: Call) -> Option<Error> {
        unreachable!()
    }

    fn apply(_: (), _: Call) {}

    fn rendered(_: ()) -> Seq<char> {
        unreachable!()
    }

    fn ended(_: ()) {}

    fn lemma_taken_call(_: (), _: Call) {}

    fn end(&mut self) -> String {
        self.taken.join(" ")
    }

    fn number(&mut self, key: &str, _number: Number) -> Result<(), Error> {
        self.take(format!("number:{}", key))
    }

    fn boolean(&mut self, key: &str) -> Result<(), Error> {
        self.take(format!("boolean:{}", key))
    }

    fn string(&mut self, key: &str) -> Result<(), Error> {
        self.take(format!("string:{}", key))
    }

    fn unknown(&mut self, key: &str) -> Result<(), Error> {
        self.take(format!("unknown:{}", key))
    }

    fn array(&mut self, key: &str, _ty: JsonType) -> Result<(), Error> {
        self.take(format!("array:{}", key))
    }

    fn object(&mut self, key: &str, object_name: &str) -> Result<(), Error> {
        self.take(format!("object:{}:{}", key, object_name))
    }

    fn push_object_type(&mut self, object_name: &str) -> Result<(), Error> {
        if self.refused.contains(&object_name) {
            return Err(Error::TypeNotSupported);
        }
        self.take(format!("push:{}", object_name))
    }

    fn pop_object_type(&mut self) -> Result<(), Error> {
        self.take(String::from("pop"))
    }

    fn prefered_object_name(&self) -> String {
        String::from("N")
    }
}

#[test]
fn a_shape_whose_declaration_is_turned_down_is_not_put_into_the_table() {
    let mut shy = Shy { refused: vec!["N0"], taken: vec![] };
    let mut table = ObjectTypeTable::new();
    let object = fields_of(r#"{"a":1}"#);
    assert_eq!(get_object_type(&mut shy, &mut table, &object), Err(Error::TypeNotSupported));
    assert_eq!(shy.taken.len(), 0);
    assert_eq!(table.count(), 0);
    assert_eq!(table.get_object_name(typed(&[("a", JsonType::Number(Number::Int))])), None);
}

#[test]
fn the_table_keeps_the_shapes_declared_before_a_call_is_turned_down() {
    let mut shy = Shy { refused: vec!["N1"], taken: vec![] };
    let mut table = ObjectTypeTable::new();
    let object = fields_of(r#"{"in":{"a":1},"b":true}"#);
    assert_eq!(get_object_type(&mut shy, &mut table, &object), Err(Error::TypeNotSupported));
    assert_eq!(shy.end(), "push:N0 number:a pop");
    assert_eq!(table.count(), 1);
    assert_eq!(
        table.get_object_name(typed(&[("a", JsonType::Number(Number::Int))])),
        Some(String::from("N0"))
    );
    assert_eq!(
        table.get_object_name(typed(&[
            ("in", JsonType::Object(String::from("N0"))),
            ("b", JsonType::Boolean),
        ])),
        None
    );
}

#[test]
fn a_run_ends_with_the_error_of_the_call_that_is_turned_down() {
    let mut shy = Shy { refused: vec!["N2"], taken: vec![] };
    assert_eq!(
        generate(&mut shy, "Root", r#"{"a":{"x":1},"b":{"y":1},"c":{"z":1},"d":[1,"x"]}"#),
        Err(Error::TypeNotSupported)
    );
    assert_eq!(
        shy.end(),
        "push:Root push:N0 number:x pop object:a:N0 push:N1 number:y pop object:b:N1"
    );
    let mut shy = Shy { refused: vec!["Root"], taken: vec![] };
    assert_eq!(generate(&mut shy, "Root", "{}"), Err(Error::TypeNotSupported));
    assert_eq!(shy.taken.len(), 0);
}
