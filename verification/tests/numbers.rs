use schemajen::number::value_into_number;
use schemajen::parse::parse;
use schemajen::scan::find_danger;
use schemajen::{accumulator_choose_with_str, generate, Error, Number, NumberParts, Value};
use schemajen::{supported_accumulators_text, ACCUMULATOR_SUPPORT_LIST};

fn kind(positive: bool, mantissa: u64, exponent: i16) -> Result<Number, Error> {
    value_into_number(&NumberParts { positive, mantissa, exponent })
}

#[test]
fn whole_numbers_in_range_are_integers() {
    assert_eq!(kind(true, 0, 0), Ok(Number::Int));
    assert_eq!(kind(false, 0, 0), Ok(Number::Int));
    assert_eq!(kind(true, 10, 0), Ok(Number::Int));
    assert_eq!(kind(false, 10, 0), Ok(Number::Int));
    assert_eq!(kind(true, 9223372036854775807, 0), Ok(Number::Int));
    assert_eq!(kind(false, 9223372036854775808, 0), Ok(Number::Int));
    assert_eq!(kind(true, 1, 18), Ok(Number::Int));
    assert_eq!(kind(true, 9, 18), Ok(Number::Int));
    assert_eq!(kind(true, 922337203685477580, 1), Ok(Number::Int));
    assert_eq!(kind(true, 10, -1), Ok(Number::Int));
    assert_eq!(kind(true, 12000, -3), Ok(Number::Int));
    assert_eq!(kind(true, 0, -5), Ok(Number::Int));
    assert_eq!(kind(true, 0, -32768), Ok(Number::Int));
    assert_eq!(kind(true, 0, 32767), Ok(Number::Int));
    assert_eq!(kind(true, 10000000000000000000, -19), Ok(Number::Int));
}

#[test]
fn other_numbers_in_the_range_of_a_double_are_floats() {
    assert_eq!(kind(true, 25, -1), Ok(Number::Float));
    assert_eq!(kind(true, 11, -1), Ok(Number::Float));
    assert_eq!(kind(true, 1, -1), Ok(Number::Float));
    assert_eq!(kind(true, 1, -20), Ok(Number::Float));
    assert_eq!(kind(true, 1, -32768), Ok(Number::Float));
    assert_eq!(kind(true, 9223372036854775808, 0), Ok(Number::Float));
    assert_eq!(kind(false, 9223372036854775809, 0), Ok(Number::Float));
    assert_eq!(kind(true, 18446744073709551615, 0), Ok(Number::Float));
    assert_eq!(kind(true, 1, 19), Ok(Number::Float));
    assert_eq!(kind(true, 10, 18), Ok(Number::Float));
    assert_eq!(kind(true, 922337203685477581, 1), Ok(Number::Float));
    assert_eq!(kind(true, 1, 20), Ok(Number::Float));
    assert_eq!(kind(true, 1, 308), Ok(Number::Float));
    assert_eq!(kind(true, 18446744073709551615, 288), Ok(Number::Float));
    assert_eq!(kind(true, 17976931348623157081, 289), Ok(Number::Float));
    assert_eq!(kind(false, 17976931348623157, 292), Ok(Number::Float));
    assert_eq!(kind(true, 17, 307), Ok(Number::Float));
}

#[test]
fn numbers_beyond_the_largest_double_are_bad() {
    assert_eq!(kind(true, 17976931348623157082, 289), Err(Error::BadNumber));
    assert_eq!(kind(true, 17976931348623158, 292), Err(Error::BadNumber));
    assert_eq!(kind(false, 17976931348623158, 292), Err(Error::BadNumber));
    assert_eq!(kind(true, 18, 307), Err(Error::BadNumber));
    assert_eq!(kind(true, 2, 308), Err(Error::BadNumber));
    assert_eq!(kind(true, 1, 309), Err(Error::BadNumber));
    assert_eq!(kind(false, 1, 400), Err(Error::BadNumber));
    assert_eq!(kind(true, 1, 32767), Err(Error::BadNumber));
}

#[test]
fn the_largest_double_is_the_last_float() {
    let digits = format!("{:.0}", f64::MAX);
    assert_eq!(digits.len(), 309);
    for exponent in 289..=308i16 {
        let lead: u64 = digits[..(309 - exponent as usize)].parse().unwrap();
        assert_eq!(kind(true, lead, exponent), Ok(Number::Float), "{}", exponent);
        assert_eq!(kind(false, lead, exponent), Ok(Number::Float), "{}", exponent);
        assert_eq!(kind(true, lead + 1, exponent), Err(Error::BadNumber), "{}", exponent);
    }
}

#[test]
fn a_number_in_a_text_is_of_the_kind_of_its_value() {
    let kind_of = |json: &str| value_into_number(&number(json));
    assert_eq!(kind_of("3"), Ok(Number::Int));
    assert_eq!(kind_of("3.0"), Ok(Number::Int));
    assert_eq!(kind_of("3.5"), Ok(Number::Float));
    assert_eq!(kind_of("-0.5e1"), Ok(Number::Int));
    assert_eq!(kind_of("9223372036854775807"), Ok(Number::Int));
    assert_eq!(kind_of("9223372036854775808"), Ok(Number::Float));
    assert_eq!(kind_of("-9223372036854775808"), Ok(Number::Int));
    assert_eq!(kind_of("-9223372036854775809"), Ok(Number::Float));
    assert_eq!(kind_of("1e18"), Ok(Number::Int));
    assert_eq!(kind_of("1e19"), Ok(Number::Float));
    assert_eq!(kind_of("1.7976931348623157e308"), Ok(Number::Float));
    assert_eq!(kind_of("1.7976931348623158e308"), Err(Error::BadNumber));
    assert_eq!(kind_of("1e-400"), Ok(Number::Float));
    assert_eq!(kind_of("123456789012345678901234567890"), Ok(Number::Float));
}

fn number(json: &str) -> NumberParts {
    match parse(json) {
        Ok(Value::Number(parts)) => parts,
        other => panic!("{:?}", other),
    }
}

#[test]
fn a_number_is_read_as_it_is_written() {
    assert_eq!(number("10"), NumberParts { positive: true, mantissa: 10, exponent: 0 });
    assert_eq!(number("-10"), NumberParts { positive: false, mantissa: 10, exponent: 0 });
    assert_eq!(number("1.50"), NumberParts { positive: true, mantissa: 150, exponent: -2 });
    assert_eq!(number("2.5"), NumberParts { positive: true, mantissa: 25, exponent: -1 });
    assert_eq!(number("1e2"), NumberParts { positive: true, mantissa: 1, exponent: 2 });
    assert_eq!(number("-12.5e-3"), NumberParts { positive: false, mantissa: 125, exponent: -4 });
    assert_eq!(number("0"), NumberParts { positive: true, mantissa: 0, exponent: 0 });
}

#[test]
fn a_document_is_read_part_by_part() {
    assert_eq!(parse("null"), Ok(Value::Null));
    assert_eq!(parse("true"), Ok(Value::Boolean(true)));
    assert_eq!(parse("false"), Ok(Value::Boolean(false)));
    assert_eq!(parse("\"hi\""), Ok(Value::String(String::from("hi"))));
    assert_eq!(
        parse("\"a string that is longer than thirty bytes, so not a short one\""),
        Ok(Value::String(String::from(
            "a string that is longer than thirty bytes, so not a short one"
        )))
    );
    assert_eq!(parse("[]"), Ok(Value::Array(vec![])));
    assert_eq!(parse("{}"), Ok(Value::Object(vec![])));
    assert_eq!(
        parse(r#"{"b":[null,{"c":"d"}],"a":false}"#),
        Ok(Value::Object(vec![
            (
                String::from("b"),
                Value::Array(vec![
                    Value::Null,
                    Value::Object(vec![(String::from("c"), Value::String(String::from("d")))]),
                ]),
            ),
            (String::from("a"), Value::Boolean(false)),
        ]))
    );
}

#[test]
fn of_two_fields_of_one_name_the_last_value_stays_in_the_first_place() {
    assert_eq!(
        parse(r#"{"a":1,"b":true,"a":"x"}"#),
        Ok(Value::Object(vec![
            (String::from("a"), Value::String(String::from("x"))),
            (String::from("b"), Value::Boolean(true)),
        ]))
    );
}

#[test]
fn a_text_that_is_no_json_is_turned_down() {
    assert_eq!(parse("{"), Err(Error::Parse(json::Error::UnexpectedEndOfJson)));
    assert!(parse("[1,]").is_err());
    assert!(parse("nul").is_err());
    assert!(parse("1 2").is_err());
}

#[test]
fn the_kind_of_a_number_shows_in_the_text() {
    let json = r#"{"a":1.0,"b":1e2,"c":-9223372036854775808,"d":9223372036854775808,"e":0.10,"f":-0}"#;
    let mut mock = accumulator_choose_with_str("mock").unwrap();
    assert_eq!(
        generate(&mut mock, "T", json).unwrap(),
        "ty:T\nnum:a:Int\nnum:b:Int\nnum:c:Int\nnum:d:Float\nnum:e:Float\nnum:f:Int\npopty\n"
    );
}

#[test]
fn every_name_of_the_list_has_an_accumulator() {
    assert_eq!(
        ACCUMULATOR_SUPPORT_LIST,
        ["typescript", "python", "dart", "rust", "java", "kotlin", "mock"]
    );
    for name in ACCUMULATOR_SUPPORT_LIST {
        let mut accumulator = accumulator_choose_with_str(name).unwrap();
        assert!(generate(&mut accumulator, "T", r#"{"a":{"b":[1]}}"#).is_ok(), "{}", name);
    }
    assert!(accumulator_choose_with_str("").is_none());
    assert!(accumulator_choose_with_str("Rust").is_none());
    assert!(accumulator_choose_with_str("swift").is_none());
    assert!(accumulator_choose_with_str("cobol").is_none());
}

#[test]
fn a_name_chooses_its_language() {
    let json = r#"{"a":1}"#;
    let text = |name: &str| {
        let mut accumulator = accumulator_choose_with_str(name).unwrap();
        generate(&mut accumulator, "T", json).unwrap()
    };
    assert_eq!(text("typescript"), "type T = {\n\ta: number;\n}\n\n");
    assert_eq!(text("rust"), "#[derive(Serialize, Deserialize)]\npub struct T {\n\ta: i64,\n}\n\n");
    assert_eq!(
        text("java"),
        "public class T implements java.io.Serializable {\n\tpublic int a;\n}\n\n"
    );
    assert!(text("dart").starts_with("class T {\n\tfinal int a;\n"));
    assert!(text("kotlin").starts_with("@Serializable\nclass T {\n\tval a: Int,\n}\n\n"));
    assert!(text("python").starts_with("class T(TypedDict):\n\ta: int\n\n\n"));
    assert_eq!(text("mock"), "ty:T\nnum:a:Int\npopty\n");
}

fn zeros(n: usize) -> String {
    "0".repeat(n)
}

#[test]
fn a_fraction_that_fills_the_exponent_is_read() {
    let full = format!("0.{}", zeros(32768));
    assert_eq!(
        parse(&full),
        Ok(Value::Number(NumberParts { positive: true, mantissa: 0, exponent: -32768 }))
    );
    assert_eq!(value_into_number(&number(&full)), Ok(Number::Int));
    assert_eq!(
        parse(&format!("-0.{}5", zeros(32767))),
        Ok(Value::Number(NumberParts { positive: false, mantissa: 5, exponent: -32768 }))
    );
    assert_eq!(
        value_into_number(&number(&format!("0.{}5", zeros(32767)))),
        Ok(Number::Float)
    );
    let mut mock = accumulator_choose_with_str("mock").unwrap();
    assert_eq!(generate(&mut mock, "T", &full), Err(Error::ExpectedObject));
    assert_eq!(
        generate(&mut mock, "T", &format!("{{\"a\":{}}}", full)).unwrap(),
        "ty:T\nnum:a:Int\npopty\n"
    );
}

#[test]
fn a_fraction_that_the_parser_cannot_count_is_a_bad_number() {
    assert_eq!(parse(&format!("0.{}", zeros(32769))), Err(Error::BadNumber));
    assert_eq!(parse(&format!("-0.{}", zeros(40000))), Err(Error::BadNumber));
    assert_eq!(parse(&format!("0.{}5", zeros(32768))), Err(Error::BadNumber));
    assert_eq!(parse(&format!("0.{}e5", zeros(32769))), Err(Error::BadNumber));
    assert_eq!(parse(&format!("[1.5, 0.{}]", zeros(32769))), Err(Error::BadNumber));
    assert_eq!(parse(&format!("[[0.{}", zeros(32769))), Err(Error::BadNumber));
    assert_eq!(parse(&format!("  0.{} x", zeros(32769))), Err(Error::BadNumber));
    let mut mock = accumulator_choose_with_str("mock").unwrap();
    assert_eq!(
        generate(&mut mock, "T", &format!("{{\"a\":0.{}}}", zeros(40000))),
        Err(Error::BadNumber)
    );
    assert_eq!(
        generate(&mut mock, "T", &format!("{{\"a\":\"\\\\\",\"b\":0.{}}}", zeros(40000))),
        Err(Error::BadNumber)
    );
    // The accumulator got no call.
    assert_eq!(generate(&mut mock, "T", "{}").unwrap(), "ty:T\npopty\n");
}

#[test]
fn only_the_digits_that_the_mantissa_takes_are_counted() {
    // Nineteen nines are taken, the twentieth is not.
    let nines = "9".repeat(20);
    assert_eq!(
        parse(&format!("0.{}{}", zeros(32749), nines)),
        Ok(Value::Number(NumberParts {
            positive: true,
            mantissa: 9999999999999999999,
            exponent: -32768,
        }))
    );
    assert_eq!(parse(&format!("0.{}{}", zeros(32750), nines)), Err(Error::BadNumber));
    // The largest mantissa takes twenty digits.
    assert_eq!(
        parse(&format!("0.{}18446744073709551615", zeros(32748))),
        Ok(Value::Number(NumberParts {
            positive: true,
            mantissa: 18446744073709551615,
            exponent: -32768,
        }))
    );
    assert_eq!(
        parse(&format!("0.{}18446744073709551615", zeros(32749))),
        Err(Error::BadNumber)
    );
    // A digit that is passed over is not counted, one behind it may be.
    assert_eq!(
        parse(&format!("0.{}184467440737095516199", zeros(32749))),
        Ok(Value::Number(NumberParts {
            positive: true,
            mantissa: 1844674407370955161,
            exponent: -32768,
        }))
    );
    assert_eq!(
        parse(&format!("0.{}184467440737095516190", zeros(32749))),
        Err(Error::BadNumber)
    );
    assert_eq!(
        parse(&format!("0.{}184467440737095516190", zeros(32748))),
        Ok(Value::Number(NumberParts {
            positive: true,
            mantissa: 18446744073709551610,
            exponent: -32768,
        }))
    );
}

#[test]
fn a_number_that_does_not_begin_with_a_single_zero_has_no_such_fraction() {
    let mut mock = accumulator_choose_with_str("mock").unwrap();
    assert_eq!(
        generate(&mut mock, "T", &format!("{{\"a\":1.{}}}", "7".repeat(40000))).unwrap(),
        "ty:T\nnum:a:Float\npopty\n"
    );
    assert_eq!(
        parse(&format!("10.{}", zeros(40000))),
        Ok(Value::Number(NumberParts {
            positive: true,
            mantissa: 10000000000000000000,
            exponent: -18,
        }))
    );
    assert_eq!(value_into_number(&number(&format!("7.{}", zeros(40000)))), Ok(Number::Int));
}

#[test]
fn a_text_that_the_parser_turns_down_before_the_fraction_is_no_bad_number() {
    for start in [".", "x 0.", "00.", "1e0.", "1.0.", "[1 0.", "{\"a\" 0.", "tru 0.", "\u{e9}0.", "[]0."] {
        let text = format!("{}{}", start, zeros(40000));
        assert!(matches!(parse(&text), Err(Error::Parse(_))), "{}", start);
        let mut mock = accumulator_choose_with_str("mock").unwrap();
        assert!(matches!(generate(&mut mock, "T", &text), Err(Error::Parse(_))), "{}", start);
    }
    assert_eq!(
        parse(&format!("x 0.{}", zeros(40000))),
        Err(Error::Parse(json::Error::UnexpectedCharacter { ch: 'x', line: 1, column: 1 }))
    );
    assert_eq!(parse(&format!("x 0.{}", zeros(40000))), parse("x 0.0"));
    assert_eq!(parse(&format!("[1,\n 2 0.{}", zeros(40000))), parse("[1,\n 2 0.0"));
    assert_eq!(
        parse(&format!("[\"\\q\", 0.{}", zeros(40000))),
        parse("[\"\\q\", 0.0")
    );
}

#[test]
fn digits_inside_a_string_are_no_fraction() {
    let digits = zeros(40000);
    assert_eq!(
        parse(&format!("\"0.{}\"", digits)),
        Ok(Value::String(format!("0.{}", digits)))
    );
    assert_eq!(
        parse(&format!("\"a\\\"0.{}\"", digits)),
        Ok(Value::String(format!("a\"0.{}", digits)))
    );
    let mut mock = accumulator_choose_with_str("mock").unwrap();
    assert_eq!(
        generate(&mut mock, "T", &format!("{{\"0.{}\":\"0.{}\",\"n\":0.5}}", digits, digits))
            .unwrap(),
        format!("ty:T\nstr:0.{}\nnum:n:Float\npopty\n", digits)
    );
}

#[test]
fn the_first_fraction_that_cannot_be_counted_is_found() {
    assert_eq!(find_danger(""), None);
    assert_eq!(find_danger("0.5"), None);
    assert_eq!(find_danger(&format!("0.{}", zeros(32768))), None);
    assert_eq!(find_danger(&format!("0.{}", zeros(32769))), Some(1));
    assert_eq!(find_danger(&format!("[1, -0.{}]", zeros(32769))), Some(6));
    assert_eq!(find_danger(&format!("10.{}", zeros(40000))), None);
    assert_eq!(find_danger(&format!(".{}", zeros(40000))), None);
    assert_eq!(find_danger(&format!("\"0.{}\"", zeros(40000))), None);
    assert_eq!(find_danger(&format!("\"\\\"\" 0.{}", zeros(40000))), Some(6));
    assert_eq!(find_danger(&format!("\"\\\\\" 0.{}", zeros(40000))), Some(6));
    assert_eq!(find_danger(&format!("\"\\\" 0.{}", zeros(40000))), None);
    assert_eq!(
        find_danger(&format!("[0.{}, 0.{}, 0.{}]", zeros(5), zeros(40000), zeros(40000))),
        Some(11)
    );
}

#[test]
fn the_names_are_listed_as_a_json_array() {
    assert_eq!(
        supported_accumulators_text(),
        r#"["typescript","python","dart","rust","java","kotlin","mock"]"#
    );
    let expected: Vec<Value> = ACCUMULATOR_SUPPORT_LIST
        .iter()
        .map(|name| Value::String(String::from(*name)))
        .collect();
    assert_eq!(parse(&supported_accumulators_text()), Ok(Value::Array(expected)));
}
