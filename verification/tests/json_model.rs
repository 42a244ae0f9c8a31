use toastmcp::json::{json_to_string, Json};

#[test]
fn serializes_scalars() {
    assert_eq!(json_to_string(&Json::Null), "null");
    assert_eq!(json_to_string(&Json::Bool(true)), "true");
    assert_eq!(json_to_string(&Json::Bool(false)), "false");
    assert_eq!(json_to_string(&Json::Int(0)), "0");
    assert_eq!(json_to_string(&Json::Int(42)), "42");
    assert_eq!(json_to_string(&Json::Int(-7)), "-7");
    assert_eq!(
        json_to_string(&Json::Int(i64::MIN)),
        "-9223372036854775808"
    );
    assert_eq!(json_to_string(&Json::Int(i64::MAX)), "9223372036854775807");
}

#[test]
fn serializes_strings_with_escapes() {
    assert_eq!(
        json_to_string(&Json::Str("he said \"hi\"\\".to_string())),
        "\"he said \\\"hi\\\"\\\\\""
    );
    assert_eq!(
        json_to_string(&Json::Str("a\nb\rc\td".to_string())),
        "\"a\\nb\\rc\\td\""
    );
    assert_eq!(
        json_to_string(&Json::Str("\u{8}\u{c}\u{1}".to_string())),
        "\"\\b\\f\\u0001\""
    );
    assert_eq!(json_to_string(&Json::Str("héllo".to_string())), "\"héllo\"");
}

#[test]
fn serializes_arrays_and_objects() {
    let arr = Json::Arr(vec![Json::Int(1), Json::Str("two".to_string()), Json::Null]);
    assert_eq!(json_to_string(&arr), "[1,\"two\",null]");
    let obj = Json::Obj(vec![
        ("b".to_string(), Json::Int(2)),
        ("a".to_string(), Json::Arr(vec![])),
        ("c".to_string(), Json::Obj(vec![])),
    ]);
    assert_eq!(json_to_string(&obj), "{\"b\":2,\"a\":[],\"c\":{}}");
}

#[test]
fn output_parses_back_with_an_independent_parser() {
    let value = Json::Obj(vec![
        ("name".to_string(), Json::Str("a \"b\" \\ c".to_string())),
        (
            "items".to_string(),
            Json::Arr(vec![Json::Int(-3), Json::Bool(false)]),
        ),
    ]);
    let text = json_to_string(&value);
    let parsed: serde_json::Value = serde_json::from_str(&text).expect("valid JSON");
    assert_eq!(
        parsed.get("name").and_then(|v| v.as_str()),
        Some("a \"b\" \\ c")
    );
    let items = parsed.get("items").and_then(|v| v.as_array()).unwrap();
    assert_eq!(items[0].as_i64(), Some(-3));
    assert_eq!(items[1].as_bool(), Some(false));
}
