use llm_router_gateway_api::json::{Json, JsonNumber};
use serde_json::Value;

fn decimal_of(text: &str) -> JsonNumber {
    JsonNumber::parse(text).unwrap()
}

fn from_value(v: &Value) -> Json {
    match v {
        Value::Null => Json::Null,
        Value::Bool(b) => Json::Bool(*b),
        Value::Number(n) => {
            if let Some(u) = n.as_u64() {
                Json::Number(JsonNumber::from_u64(u))
            } else if let Some(i) = n.as_i64() {
                Json::Number(JsonNumber::decimal(true, i.unsigned_abs(), 0))
            } else {
                Json::Number(decimal_of(&n.to_string()))
            }
        }
        Value::String(s) => Json::String(s.clone()),
        Value::Array(items) => Json::Array(items.iter().map(from_value).collect()),
        Value::Object(map) => {
            Json::Object(map.iter().map(|(k, v)| (k.clone(), from_value(v))).collect())
        }
    }
}

fn parse(text: &str) -> Json {
    from_value(&serde_json::from_str::<Value>(text).unwrap())
}

fn reparse(json: &Json) -> Value {
    serde_json::from_str(&json.to_text()).unwrap()
}

#[test]
fn text_of_scalars() {
    assert_eq!(Json::Null.to_text(), "null");
    assert_eq!(Json::Bool(true).to_text(), "true");
    assert_eq!(Json::Bool(false).to_text(), "false");
    assert_eq!(Json::unsigned(0).to_text(), "0");
    assert_eq!(Json::unsigned(1024).to_text(), "1024");
    assert_eq!(Json::unsigned(u64::MAX).to_text(), "18446744073709551615");
    assert_eq!(Json::string("hi").to_text(), "\"hi\"");
}

#[test]
fn text_of_numbers() {
    assert_eq!(Json::Number(JsonNumber::decimal(false, 7, -1)).to_text(), "7e-1");
    assert_eq!(Json::Number(JsonNumber::decimal(true, 25, -1)).to_text(), "-25e-1");
    assert_eq!(Json::Number(JsonNumber::decimal(false, 1, 300)).to_text(), "1e300");
    assert_eq!(Json::Number(JsonNumber::decimal(true, 5, 0)).to_text(), "-5");
    assert_eq!(
        Json::Number(JsonNumber::decimal(false, 1, i32::MIN)).to_text(),
        "1e-2147483648"
    );
}

#[test]
fn number_text_reads_back_as_the_same_number() {
    for (text, expected) in [("7e-1", 0.7), ("95e-2", 0.95), ("-25e-1", -2.5), ("20e-1", 2.0)] {
        let value: Value = serde_json::from_str(text).unwrap();
        assert_eq!(value.as_f64().unwrap(), expected);
    }
    let n = Json::Number(decimal_of("0.95"));
    assert_eq!(reparse(&n).as_f64().unwrap(), 0.95);
}

#[test]
fn text_of_strings_escapes() {
    assert_eq!(Json::string("a\"b").to_text(), "\"a\\\"b\"");
    assert_eq!(Json::string("a\\b").to_text(), "\"a\\\\b\"");
    assert_eq!(Json::string("a\nb").to_text(), "\"a\\u000ab\"");
    assert_eq!(Json::string("\u{1f}").to_text(), "\"\\u001f\"");
    assert_eq!(Json::string("\u{0}").to_text(), "\"\\u0000\"");
    assert_eq!(Json::string("é\u{2014}").to_text(), "\"é\u{2014}\"");
    let s = "tab\there \"quoted\" back\\slash\r\n\u{7f}\u{e0041}";
    assert_eq!(reparse(&Json::string(s)), Value::String(s.to_string()));
}

#[test]
fn text_of_arrays_and_objects() {
    assert_eq!(Json::Array(vec![]).to_text(), "[]");
    assert_eq!(Json::Object(vec![]).to_text(), "{}");
    assert_eq!(
        Json::Array(vec![Json::unsigned(1), Json::Null, Json::string("x")]).to_text(),
        "[1,null,\"x\"]"
    );
    let object = Json::Object(vec![
        ("b".to_string(), Json::Bool(true)),
        ("a".to_string(), Json::Array(vec![Json::Object(vec![])])),
    ]);
    assert_eq!(object.to_text(), "{\"b\":true,\"a\":[{}]}");
}

#[test]
fn text_round_trips_through_a_parser() {
    let text = r#"{"messages":[{"content":"hi \"there\"","role":"user"}],"n":3,"nested":{"a":[1,2,{"b":null}],"t":true},"temperature":0.25}"#;
    let original: Value = serde_json::from_str(text).unwrap();
    assert_eq!(reparse(&from_value(&original)), original);
}

#[test]
fn get_finds_the_first_field_of_a_name() {
    let object = Json::Object(vec![
        ("a".to_string(), Json::unsigned(1)),
        ("b".to_string(), Json::unsigned(2)),
        ("a".to_string(), Json::unsigned(3)),
    ]);
    assert_eq!(object.get("a").unwrap().to_text(), "1");
    assert_eq!(object.get("b").unwrap().to_text(), "2");
    assert!(object.get("c").is_none());
    assert!(object.has("a"));
    assert!(!object.has("A"));
    assert!(Json::Array(vec![]).get("a").is_none());
    assert!(Json::Null.get("a").is_none());
}

#[test]
fn accessors() {
    assert_eq!(Json::Bool(true).as_bool(), Some(true));
    assert_eq!(Json::Null.as_bool(), None);
    assert_eq!(Json::string("x").as_str(), Some("x"));
    assert_eq!(Json::unsigned(1).as_str(), None);
    assert_eq!(Json::unsigned(7).as_number(), Some(JsonNumber::from_u64(7)));
    assert_eq!(Json::string("7").as_number(), None);
    assert_eq!(JsonNumber::from_u64(7).as_u64(), Some(7));
    assert_eq!(JsonNumber::decimal(true, 7, 0).as_u64(), None);
    assert_eq!(JsonNumber::decimal(false, 20, -1).as_u64(), None);
    assert_eq!(JsonNumber::decimal(false, 2, 1).as_u64(), None);
    let object = parse(r#"{"stream":true,"cache":false,"n":1}"#);
    assert!(object.field_is_bool("stream", true));
    assert!(!object.field_is_bool("stream", false));
    assert!(object.field_is_bool("cache", false));
    assert!(!object.field_is_bool("n", true));
    assert!(!object.field_is_bool("gone", false));
}

#[test]
fn with_field_replaces_or_appends() {
    let object = parse(r#"{"a":1,"b":2}"#);
    assert_eq!(object.with_field("a", Json::unsigned(9)).to_text(), "{\"a\":9,\"b\":2}");
    assert_eq!(object.with_field("b", Json::Null).to_text(), "{\"a\":1,\"b\":null}");
    assert_eq!(
        object.with_field("c", Json::Bool(true)).to_text(),
        "{\"a\":1,\"b\":2,\"c\":true}"
    );
    assert_eq!(Json::Object(vec![]).with_field("x", Json::Null).to_text(), "{\"x\":null}");
    assert_eq!(Json::unsigned(1).with_field("x", Json::Null).to_text(), "1");
}

#[test]
fn without_field_removes_every_field_of_the_name() {
    let object = Json::Object(vec![
        ("a".to_string(), Json::unsigned(1)),
        ("b".to_string(), Json::unsigned(2)),
        ("a".to_string(), Json::unsigned(3)),
    ]);
    assert_eq!(object.without_field("a").to_text(), "{\"b\":2}");
    assert_eq!(object.without_field("b").to_text(), "{\"a\":1,\"a\":3}");
    assert_eq!(object.without_field("z").to_text(), object.to_text());
    assert_eq!(Json::string("s").without_field("a").to_text(), "\"s\"");
}

#[test]
fn clone_keeps_everything() {
    let value = parse(r#"{"a":[1,{"b":"c"},null,true,-4,2.5]}"#);
    assert_eq!(value.clone().to_text(), value.to_text());
}

fn lt(a: &str, b: &str) -> bool {
    decimal_of(a).lt(&decimal_of(b))
}

#[test]
fn numbers_compare_as_rationals() {
    assert!(lt("0.2", "0.8"));
    assert!(!lt("0.8", "0.2"));
    assert!(!lt("0.5", "0.5"));
    assert!(!lt("0.50", "0.5"));
    assert!(!lt("0.5", "0.50"));
    assert!(lt("0.499999", "0.5"));
    assert!(lt("1", "1.0000001"));
    assert!(lt("9", "10"));
    assert!(lt("9e0", "1e1"));
    assert!(lt("99e-1", "1e1"));
    assert!(!lt("100e-1", "1e1"));
    assert!(lt("-1", "0"));
    assert!(lt("-1", "1"));
    assert!(lt("-2", "-1"));
    assert!(!lt("-1", "-2"));
    assert!(!lt("0", "-0"));
    assert!(!lt("-0", "0"));
    assert!(!lt("0", "0.0"));
    assert!(lt("-0.01", "0"));
    assert!(lt("0", "1e-300"));
    assert!(lt("1e-300", "1e-299"));
    assert!(lt("1e300", "2e300"));
    assert!(lt("18446744073709551615", "1e20"));
    assert!(!lt("1e20", "18446744073709551615"));
    assert!(lt("18446744073709551614", "18446744073709551615"));
    assert!(lt("1844674407370955161", "18446744073709551615e-1"));
    assert!(!lt("0e50", "0e-50"));
    assert!(lt("0e50", "1e-50"));
}

#[test]
fn numbers_compare_at_the_limits_of_the_exponent() {
    let tiny = JsonNumber::decimal(false, 1, i32::MIN);
    let huge = JsonNumber::decimal(false, 1, i32::MAX);
    assert!(tiny.lt(&huge));
    assert!(!huge.lt(&tiny));
    assert!(JsonNumber::decimal(true, 1, i32::MAX).lt(&tiny));
    assert!(JsonNumber::decimal(false, 0, i32::MAX).lt(&tiny));
    assert!(!JsonNumber::decimal(false, u64::MAX, 19).lt(&JsonNumber::decimal(false, u64::MAX, 0)));
    assert!(JsonNumber::decimal(false, u64::MAX, 0).lt(&JsonNumber::decimal(false, u64::MAX, 19)));
    assert!(JsonNumber::decimal(false, u64::MAX, 0).lt(&JsonNumber::decimal(false, 1, 20)));
}

#[test]
fn literals_are_read_exactly() {
    let cases = [
        ("0", (false, 0u64, 0i32)),
        ("7", (false, 7, 0)),
        ("-7", (true, 7, 0)),
        ("-0", (true, 0, 0)),
        ("0.7", (false, 7, -1)),
        ("0.70", (false, 70, -2)),
        ("2.0", (false, 20, -1)),
        ("12.345", (false, 12345, -3)),
        ("1e3", (false, 1, 3)),
        ("1E3", (false, 1, 3)),
        ("1e+3", (false, 1, 3)),
        ("1e-3", (false, 1, -3)),
        ("1.5e-3", (false, 15, -4)),
        ("-1.25E+2", (true, 125, 0)),
        ("007", (false, 7, 0)),
        ("1e0", (false, 1, 0)),
        ("1e-0", (false, 1, 0)),
        ("1e007", (false, 1, 7)),
        ("18446744073709551615", (false, u64::MAX, 0)),
        ("1844674407370955161.5", (false, u64::MAX, -1)),
        ("0.000000000000000000000000000001", (false, 1, -30)),
        ("1e2147483647", (false, 1, i32::MAX)),
        ("1e-2147483648", (false, 1, i32::MIN)),
        ("1.5e-2147483647", (false, 15, i32::MIN)),
        ("1.5e2147483648", (false, 15, i32::MAX)),
        ("1.7976931348623157e308", (false, 17976931348623157, 292)),
        ("5e-324", (false, 5, -324)),
    ];
    for (text, (negative, mantissa, exponent)) in cases {
        assert_eq!(
            JsonNumber::parse(text),
            Some(JsonNumber::decimal(negative, mantissa, exponent)),
            "{}",
            text
        );
    }
}

#[test]
fn what_is_no_literal_is_not_read() {
    for text in [
        "", "-", "+1", ".5", "5.", "1.e3", "1e", "1e+", "1e-", "e3", "1.2.3", "1e3e4", "1e3.5",
        "0x10", "1,5", " 1", "1 ", "--1", "1-", "1e--3", "1e+-3", "٣", "1_000", "NaN", "inf",
        "18446744073709551616", "1844674407370955161.6", "1e2147483648", "1e-2147483649",
        "1.5e-2147483648", "1e99999999999999999999999999999999999999999",
    ] {
        assert_eq!(JsonNumber::parse(text), None, "{:?}", text);
    }
}

#[test]
fn literals_of_a_serializer_are_read() {
    for x in [0.7f64, 0.95, 0.9, 0.01, 0.999, 1.0, 2.5, -3.75, 1e-7, 1e21, 123456.789, 5e-324] {
        let number = serde_json::Number::from_f64(x).unwrap();
        let read = JsonNumber::parse(&number.to_string()).unwrap();
        let back: Value = serde_json::from_str(&Json::Number(read).to_text()).unwrap();
        assert_eq!(back.as_f64(), Some(x), "{}", x);
    }
}

#[test]
fn values_that_look_alike_have_different_texts() {
    let values = vec![
        Json::Null,
        Json::string("null"),
        Json::Bool(true),
        Json::string("true"),
        Json::unsigned(1),
        Json::string("1"),
        Json::unsigned(12),
        Json::Number(JsonNumber::decimal(false, 12, 1)),
        Json::Number(JsonNumber::decimal(false, 120, 0)),
        Json::Number(JsonNumber::decimal(true, 12, 0)),
        Json::Number(JsonNumber::decimal(false, 12, -1)),
        Json::Array(vec![Json::unsigned(1), Json::unsigned(2)]),
        Json::Array(vec![Json::unsigned(12)]),
        Json::Array(vec![Json::Array(vec![Json::unsigned(1)]), Json::unsigned(2)]),
        Json::Array(vec![Json::Array(vec![Json::unsigned(1), Json::unsigned(2)])]),
        Json::string("a\",\"b"),
        Json::Array(vec![Json::string("a"), Json::string("b")]),
        Json::string("\\"),
        Json::string("\\\\"),
        Json::string("\u{1}"),
        Json::string("\\u0001"),
        Json::Object(vec![("a".to_string(), Json::string("b"))]),
        Json::Object(vec![("a\":\"b".to_string(), Json::Null)]),
        Json::Object(vec![
            ("a".to_string(), Json::unsigned(1)),
            ("b".to_string(), Json::unsigned(2)),
        ]),
        Json::Object(vec![
            ("b".to_string(), Json::unsigned(2)),
            ("a".to_string(), Json::unsigned(1)),
        ]),
        Json::Object(vec![]),
        Json::Array(vec![]),
    ];
    let texts: Vec<String> = values.iter().map(|value| value.to_text()).collect();
    for i in 0..texts.len() {
        for j in 0..i {
            assert_ne!(texts[i], texts[j], "values {} and {}", i, j);
        }
    }
}
