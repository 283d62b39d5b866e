//! JSON values.

use localdb_core::json::Json;

#[test]
fn values_survive_the_way_there_and_back() {
    for text in [
        "null",
        "true",
        "0",
        "18446744073709551615",
        "-9223372036854775808",
        "1.5",
        "\"\\u0000 \\\"ü\\n\"",
        "[1,[2,{\"a\":null}],\"x\"]",
        "{\"a\":{\"b\":[]},\"c\":-1}",
    ] {
        let value: serde_json::Value = serde_json::from_str(text).unwrap();
        let json = Json::from_value(value.clone());
        assert_eq!(json.to_value(), value);
        assert_eq!(json.render(), value.to_string());
        assert_eq!(Json::parse(text).unwrap(), json);
    }
}

#[test]
fn keys_are_rendered_in_order_and_the_last_of_a_key_counts() {
    let json = Json::Object(vec![
        ("b".to_string(), Json::Unsigned(1)),
        ("a".to_string(), Json::Signed(-2)),
        ("b".to_string(), Json::Text("x".to_string())),
    ]);
    assert_eq!(json.render(), r#"{"a":-2,"b":"x"}"#);
    assert_eq!(json.get("b").and_then(|v| v.as_str()), Some("x"));
    assert!(json.get("c").is_none());
    assert!(Json::Null.get("a").is_none());
}

#[test]
fn numbers_from_zero_on() {
    assert_eq!(Json::Unsigned(7).as_u64(), Some(7));
    assert_eq!(Json::Signed(7).as_u64(), Some(7));
    assert_eq!(Json::Signed(-7).as_u64(), None);
    assert_eq!(Json::parse("7.0").unwrap().as_u64(), None);
    assert_eq!(Json::Bool(true).as_u64(), None);
    assert_eq!(Json::Bool(true).as_bool(), Some(true));
}

#[test]
fn what_is_no_json_does_not_parse() {
    for text in ["", "{", "{not json", "[1,]", "nul", "1 2"] {
        assert!(Json::parse(text).is_none(), "{text}");
    }
}

#[test]
fn a_machine_integer_is_one_however_it_is_held() {
    let held = Json::Decimal(serde_json::Number::from(5u64));
    assert_eq!(held.as_u64(), Some(5));
    assert_eq!(held.render(), "5");
    assert_eq!(Json::from_value(held.to_value()), Json::Unsigned(5));
    let negative = Json::Decimal(serde_json::Number::from(-5i64));
    assert_eq!(negative.as_u64(), None);
    assert_eq!(Json::from_value(negative.to_value()), Json::Signed(-5));
    let fraction = Json::parse("1.5").unwrap();
    assert!(matches!(fraction, Json::Decimal(_)));
    assert_eq!(Json::from_value(fraction.to_value()), fraction);
}
