use sse_bridge::json::{parse_json, to_json_bytes, JsonValue};

fn parse(s: &str) -> Option<JsonValue> {
    parse_json(&s.as_bytes().to_vec())
}

fn roundtrip(s: &str) -> String {
    let v = parse(s).expect("should parse");
    String::from_utf8(to_json_bytes(&v)).unwrap()
}

#[test]
fn parses_literals() {
    assert!(matches!(parse("null"), Some(JsonValue::Null)));
    assert!(matches!(parse("true"), Some(JsonValue::Bool(true))));
    assert!(matches!(parse("false"), Some(JsonValue::Bool(false))));
    assert!(matches!(parse("42"), Some(JsonValue::Int(42))));
    assert!(matches!(parse("-7"), Some(JsonValue::Int(-7))));
    assert!(matches!(parse("  17  "), Some(JsonValue::Int(17))));
}

#[test]
fn parses_strings_with_escapes() {
    match parse("\"a\\nb\\\"c\\\\d\\u0041\"") {
        Some(JsonValue::Str(b)) => assert_eq!(b, b"a\nb\"c\\dA".to_vec()),
        other => panic!("unexpected: {:?}", other.is_some()),
    }
}

#[test]
fn unicode_escape_encodes_utf8() {
    match parse("\"\\u00e9\\u20ac\"") {
        Some(JsonValue::Str(b)) => assert_eq!(b, "é€".as_bytes().to_vec()),
        _ => panic!("unexpected"),
    }
}

#[test]
fn surrogate_escape_is_rejected() {
    assert!(parse("\"\\ud83d\\ude00\"").is_none());
}

#[test]
fn parses_nested_containers() {
    let v = parse("{\"a\": [1, 2, {\"b\": null}], \"c\": \"x\"}").expect("should parse");
    match v {
        JsonValue::Obj(entries) => {
            assert_eq!(entries.len(), 2);
            assert_eq!(entries[0].0, b"a".to_vec());
            match &entries[0].1 {
                JsonValue::Arr(items) => assert_eq!(items.len(), 3),
                _ => panic!("expected array"),
            }
        }
        _ => panic!("expected object"),
    }
}

#[test]
fn rejects_fractions_exponents_and_trailing_garbage() {
    assert!(parse("1.5").is_none());
    assert!(parse("1e3").is_none());
    assert!(parse("{} {}").is_none());
    assert!(parse("[1,]").is_none());
    assert!(parse("{\"a\":}").is_none());
    assert!(parse("\"unterminated").is_none());
    assert!(parse("").is_none());
}

#[test]
fn rejects_integer_overflow() {
    assert!(parse("9223372036854775807").is_some());
    assert!(parse("9223372036854775808").is_none());
}

#[test]
fn rejects_deep_nesting() {
    let deep = "[".repeat(100) + &"]".repeat(100);
    assert!(parse(&deep).is_none());
    let ok = "[".repeat(50) + &"]".repeat(50);
    assert!(parse(&ok).is_some());
}

#[test]
fn serializer_writes_canonical_form() {
    assert_eq!(roundtrip("  {\"a\" : [ 1 , true , null ] }  "), "{\"a\":[1,true,null]}");
    assert_eq!(roundtrip("\"a\\u0041\""), "\"aA\"");
    assert_eq!(roundtrip("-12"), "-12");
}

#[test]
fn serializer_escapes_controls_and_quotes() {
    let v = JsonValue::Str(b"a\"b\\c\nd\x01".to_vec());
    assert_eq!(String::from_utf8(to_json_bytes(&v)).unwrap(), "\"a\\\"b\\\\c\\nd\\u0001\"");
}

#[test]
fn crlf_counts_as_trailing_whitespace() {
    assert!(parse("{\"a\":1}\r").is_some());
}
