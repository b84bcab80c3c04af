use netmon::json::Json;
use netmon::json_parse::JsonError;
use netmon::json_write::escape;

fn text_of(json: &Json) -> String {
    json.to_string_pretty()
}

#[test]
fn parse_reads_nested_values() {
    let value = Json::parse(" {\"a\": [1, 2.5, -3], \"b\": {\"c\": \"x\"}, \"d\": true, \"e\": null} ").unwrap();
    assert_eq!(value.path("b.c").and_then(|v| v.as_str()), Some("x"));
    assert_eq!(value.number("a", 7), 7);
    let items = value.path("a").and_then(|v| v.as_arr()).unwrap();
    assert_eq!(items.len(), 3);
    assert_eq!(items[0].as_milli(), Some(1000));
    assert_eq!(items[1].as_milli(), Some(2500));
    assert_eq!(items[2].as_milli(), Some(-3000));
    assert_eq!(value.flag("d", false), true);
    assert!(matches!(value.path("e"), Some(Json::Null)));
}

#[test]
fn parse_numbers_in_thousandths() {
    assert_eq!(Json::parse("1e3").unwrap().as_milli(), Some(1_000_000));
    assert_eq!(Json::parse("0.0015").unwrap().as_milli(), Some(2));
    assert_eq!(Json::parse("-0.0015").unwrap().as_milli(), Some(-2));
    assert_eq!(Json::parse("0.0014").unwrap().as_milli(), Some(1));
    assert_eq!(Json::parse("2.5E-1").unwrap().as_milli(), Some(250));
    assert!(matches!(Json::parse("1.2.3"), Err(JsonError::BadNumber)));
}

#[test]
fn parse_errors_name_the_place() {
    assert!(matches!(Json::parse(""), Err(JsonError::UnexpectedChar(0))));
    assert!(matches!(Json::parse("  @"), Err(JsonError::UnexpectedChar(2))));
    assert!(matches!(Json::parse("tru"), Err(JsonError::ExpectedLiteral(3))));
    assert!(matches!(Json::parse("nul!"), Err(JsonError::ExpectedLiteral(3))));
    assert!(matches!(Json::parse("{1: 2}"), Err(JsonError::ExpectedString(1))));
    assert!(matches!(Json::parse("\"abc"), Err(JsonError::UnterminatedString)));
    assert!(matches!(Json::parse("\"\\u12"), Err(JsonError::UnterminatedEscape)));
    assert!(matches!(Json::parse("\"\\u12G4\""), Err(JsonError::BadEscape)));
    assert!(matches!(Json::parse("\"\\q\""), Err(JsonError::UnknownEscape('q'))));
    assert!(matches!(Json::parse("[1 2]"), Err(JsonError::ArraySeparator(3))));
    assert!(matches!(Json::parse("{\"a\" 1}"), Err(JsonError::MissingColon(5))));
    assert!(matches!(Json::parse("{\"a\": 1 2}"), Err(JsonError::ObjectSeparator(8))));
}

#[test]
fn parse_string_escapes() {
    let value = Json::parse("\"a\\n\\t\\\"\\\\\\/\\u0041\\u00e9\\ud800\"").unwrap();
    assert_eq!(value.as_str(), Some("a\n\t\"\\/Aé?"));
}

#[test]
fn write_pretty_layout() {
    let value = Json::parse("{\"a\": [1, {\"b\": \"x\"}], \"c\": {}, \"d\": [], \"e\": 0.25}").unwrap();
    assert_eq!(
        text_of(&value),
        "{\n  \"a\": [\n    1,\n    {\n      \"b\": \"x\"\n    }\n  ],\n  \"c\": {},\n  \"d\": [],\n  \"e\": 0.25\n}"
    );
}

#[test]
fn write_then_parse_gives_back_the_value() {
    let text = "{\"name\": \"外网 \\\"x\\\"\\n\", \"n\": -12.345, \"list\": [true, false, null, \"\\u0001\"]}";
    let value = Json::parse(text).unwrap();
    let written = value.to_string_pretty();
    let again = Json::parse(&written).unwrap();
    assert_eq!(again.to_string_pretty(), written);
    assert_eq!(again.path("n").and_then(|v| v.as_milli()), Some(-12345));
    assert_eq!(again.string("name", ""), "外网 \"x\"\n");
}

#[test]
fn escape_control_and_quotes() {
    assert_eq!(escape("a\"b\\c\n\r\t\u{1}\u{1f}é"), "a\\\"b\\\\c\\n\\r\\t\\u0001\\u001fé");
    assert_eq!(escape(""), "");
}

#[test]
fn lookups_with_fallbacks() {
    let value = Json::parse("{\"a\": {\"b\": 3}, \"s\": \"t\", \"l\": [\"x\", 1, \"y\"]}").unwrap();
    assert_eq!(value.number("a.b", 9), 3000);
    assert_eq!(value.number("a.c", 9), 9);
    assert_eq!(value.string("s", "f"), "t");
    assert_eq!(value.string("a", "f"), "f");
    assert_eq!(value.flag("s", true), true);
    assert_eq!(value.string_list("l"), vec!["x".to_string(), "y".to_string()]);
    assert!(value.get("missing").is_none());
    assert!(value.path("a.b.c").is_none());
}

#[test]
fn the_whole_i64_range_reads_back() {
    assert_eq!(Json::parse("9223372036854775.807").unwrap().as_milli(), Some(i64::MAX));
    assert_eq!(Json::parse("-9223372036854775.808").unwrap().as_milli(), Some(i64::MIN));
    assert_eq!(Json::parse("9223372036854775.808").unwrap().as_milli(), Some(i64::MAX));
    assert_eq!(Json::parse("-9223372036854775.809").unwrap().as_milli(), Some(i64::MIN));
    assert_eq!(Json::parse("100000000000000000000").unwrap().as_milli(), Some(i64::MAX));
    for m in [i64::MIN, i64::MIN + 1, -1, 0, 1, 999, 1_000_000_000_000_000_001, i64::MAX] {
        let value = Json::Arr(vec![Json::Num(m), Json::Str("k\"\\\u{1}".to_string())]);
        let text = value.to_string_pretty();
        let back = Json::parse(&text).unwrap();
        assert_eq!(back.to_string_pretty(), text);
        match back {
            Json::Arr(items) => assert_eq!(items[0].as_milli(), Some(m)),
            _ => panic!("not an array"),
        }
    }
}

#[test]
fn every_well_formed_number_reads() {
    assert_eq!(Json::parse("3.14159265358979323846264338").unwrap().as_milli(), Some(3_142));
    assert_eq!(Json::parse("-0.00000000000000000000000012345e25").unwrap().as_milli(), Some(-1_235));
    assert_eq!(Json::parse("1e400000").unwrap().as_milli(), Some(i64::MAX));
    assert_eq!(Json::parse("-1e99999999999999999999999").unwrap().as_milli(), Some(i64::MIN));
    assert_eq!(Json::parse("0e99999999999999999999999").unwrap().as_milli(), Some(0));
    assert_eq!(Json::parse("7e-99999999999999999999999").unwrap().as_milli(), Some(0));
    assert_eq!(Json::parse("2.0004").unwrap().as_milli(), Some(2_000));
    assert_eq!(Json::parse("2.0005").unwrap().as_milli(), Some(2_001));
    assert_eq!(Json::parse("-2.0006").unwrap().as_milli(), Some(-2_001));
    assert_eq!(Json::parse("0.0004999").unwrap().as_milli(), Some(0));
    assert_eq!(Json::parse("9223372036854775.8075").unwrap().as_milli(), Some(i64::MAX));
    assert_eq!(Json::parse("[1e30, 2]").unwrap().to_string_pretty(), "[\n  9223372036854775.807,\n  2\n]");
    assert!(matches!(Json::parse("1e"), Err(JsonError::BadNumber)));
    assert!(matches!(Json::parse("-"), Err(JsonError::BadNumber)));
}
