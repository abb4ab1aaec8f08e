use schemajen::text::{decimal_string, key_le_exec, same_text};
use schemajen::{ArrayField, JsonType, Number, ObjectTypeTable};

fn field(name: &str, ty: JsonType) -> (String, JsonType) {
    (String::from(name), ty)
}

#[test]
fn an_empty_table_has_no_name() {
    let table = ObjectTypeTable::new();
    assert_eq!(table.count(), 0);
    assert_eq!(table.get_object_name(vec![]), None);
    assert_eq!(table.get_object_name(vec![field("a", JsonType::Null)]), None);
    assert_eq!(ObjectTypeTable::default().count(), 0);
}

#[test]
fn a_shape_is_found_under_its_name() {
    let mut table = ObjectTypeTable::new();
    table.insert("_0", vec![field("a", JsonType::Number(Number::Int))]);
    assert_eq!(table.count(), 1);
    assert_eq!(
        table.get_object_name(vec![field("a", JsonType::Number(Number::Int))]),
        Some(String::from("_0"))
    );
    assert_eq!(
        table.get_object_name(vec![field("a", JsonType::Number(Number::Float))]),
        None
    );
    assert_eq!(
        table.get_object_name(vec![field("b", JsonType::Number(Number::Int))]),
        None
    );
    assert_eq!(table.get_object_name(vec![]), None);
}

#[test]
fn the_order_of_the_fields_does_not_count() {
    let mut table = ObjectTypeTable::new();
    table.insert(
        "_0",
        vec![
            field("b", JsonType::Boolean),
            field("a", JsonType::String),
            field("c", JsonType::Array(Box::new(JsonType::Null))),
        ],
    );
    assert_eq!(
        table.get_object_name(vec![
            field("c", JsonType::Array(Box::new(JsonType::Null))),
            field("a", JsonType::String),
            field("b", JsonType::Boolean),
        ]),
        Some(String::from("_0"))
    );
    assert_eq!(
        table.get_object_name(vec![
            field("a", JsonType::Boolean),
            field("b", JsonType::String),
            field("c", JsonType::Array(Box::new(JsonType::Null))),
        ]),
        None
    );
}

#[test]
fn a_shape_that_is_put_in_again_changes_its_name() {
    let mut table = ObjectTypeTable::new();
    table.insert("_0", vec![field("a", JsonType::Null), field("b", JsonType::Null)]);
    table.insert("_1", vec![field("z", JsonType::Object(String::from("_0")))]);
    assert_eq!(table.count(), 2);
    table.insert("other", vec![field("b", JsonType::Null), field("a", JsonType::Null)]);
    assert_eq!(table.count(), 2);
    assert_eq!(
        table.get_object_name(vec![field("a", JsonType::Null), field("b", JsonType::Null)]),
        Some(String::from("other"))
    );
    assert_eq!(
        table.get_object_name(vec![field("z", JsonType::Object(String::from("_0")))]),
        Some(String::from("_1"))
    );
    assert_eq!(
        table.get_object_name(vec![field("z", JsonType::Object(String::from("_1")))]),
        None
    );
}

#[test]
fn the_empty_shape_can_have_a_name() {
    let mut table = ObjectTypeTable::new();
    table.insert("nothing", vec![]);
    assert_eq!(table.get_object_name(vec![]), Some(String::from("nothing")));
    assert_eq!(table.count(), 1);
}

#[test]
fn fields_of_one_name_keep_their_order() {
    let mut table = ObjectTypeTable::new();
    table.insert(
        "_0",
        vec![field("a", JsonType::Null), field("a", JsonType::String), field("0", JsonType::Boolean)],
    );
    assert_eq!(
        table.get_object_name(vec![
            field("a", JsonType::Null),
            field("0", JsonType::Boolean),
            field("a", JsonType::String),
        ]),
        Some(String::from("_0"))
    );
    assert_eq!(
        table.get_object_name(vec![
            field("a", JsonType::String),
            field("a", JsonType::Null),
            field("0", JsonType::Boolean),
        ]),
        None
    );
}

#[test]
fn types_are_equal_where_they_are_the_same_tree() {
    let a = JsonType::Array(Box::new(JsonType::Object(String::from("x"))));
    assert_eq!(a.clone(), a);
    assert!(a == JsonType::Array(Box::new(JsonType::Object(String::from("x")))));
    assert!(a != JsonType::Array(Box::new(JsonType::Object(String::from("y")))));
    assert!(a != JsonType::Object(String::from("x")));
    assert!(JsonType::Number(Number::Int) != JsonType::Number(Number::Float));
    assert!(JsonType::Null == JsonType::Null);
    assert!(JsonType::Null != JsonType::Boolean);
    assert!(JsonType::String != JsonType::Boolean);
}

#[test]
fn numbers_are_written_in_decimal() {
    assert_eq!(decimal_string(0), "0");
    assert_eq!(decimal_string(7), "7");
    assert_eq!(decimal_string(10), "10");
    assert_eq!(decimal_string(12345), "12345");
    assert_eq!(decimal_string(9090909), "9090909");
    assert_eq!(decimal_string(usize::MAX), usize::MAX.to_string());
}

#[test]
fn names_are_ordered_as_strings_are() {
    let names = ["", "a", "A", "ab", "b", "aa", "é", "z", "0", "10", "9", "\u{10000}", "\u{ffff}"];
    for a in names {
        for b in names {
            assert_eq!(key_le_exec(a, b), a <= b, "{:?} {:?}", a, b);
        }
    }
    assert!(key_le_exec("a", "b"));
    assert!(!key_le_exec("b", "a"));
    assert!(key_le_exec("a", "a"));
    assert!(key_le_exec("a", "ab"));
    assert!(!key_le_exec("ab", "a"));
    assert!(key_le_exec("z", "é"));
}

#[test]
fn texts_are_the_same_where_every_character_is() {
    assert!(same_text("mock", "mock"));
    assert!(!same_text("mock", "Mock"));
    assert!(!same_text("mock", "mock "));
    assert!(same_text("", ""));
}

#[test]
fn the_depth_of_a_list_counts_the_arrays_on_top() {
    let flat = JsonType::String;
    let one = JsonType::Array(Box::new(JsonType::Null));
    let three = JsonType::Array(Box::new(JsonType::Array(Box::new(JsonType::Array(Box::new(
        JsonType::Object(String::from("x")),
    ))))));
    assert_eq!(ArrayField::depth_from_ty(&flat, 0), 0);
    assert_eq!(ArrayField::depth_from_ty(&flat, 1), 1);
    assert_eq!(ArrayField::depth_from_ty(&one, 1), 2);
    assert_eq!(ArrayField::depth_from_ty(&three, 1), 4);
    assert_eq!(ArrayField::depth_from_ty(&three, 10), 13);
    assert!(ArrayField::depth_fits(&three, 1));
    assert!(ArrayField::depth_fits(&three, usize::MAX - 3));
    assert!(!ArrayField::depth_fits(&three, usize::MAX - 2));
    assert!(ArrayField::depth_fits(&flat, usize::MAX));
}
