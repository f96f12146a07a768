use model_toolcall_adapter::json::{parse_json, read_json, Json};

#[test]
fn text_reads_back() {
    for raw in [
        "null",
        "true",
        "18446744073709551615",
        "-9223372036854775808",
        r#""a\"\\\n\u0001ä😀""#,
        "[]",
        "{}",
        r#"{"b":[1,{"c":null}],"a":{"x":[[]]}}"#,
    ] {
        let value = parse_json(raw).unwrap();
        assert_eq!(parse_json(&value.to_text()), Some(value.clone()));
        assert_eq!(parse_json(&value.to_pretty_text()), Some(value));
    }
}

#[test]
fn text_is_what_serde_json_writes() {
    for raw in [r#"{ "b" : 1.50, "a" : [ -3, "x" ] }"#, "1e300", "-0.0", "0", r#"{"a":1,"a":2}"#] {
        let ours = parse_json(raw).unwrap();
        let theirs: serde_json::Value = serde_json::from_str(raw).unwrap();
        assert_eq!(ours.to_text(), theirs.to_string());
        assert_eq!(ours.to_pretty_text(), serde_json::to_string_pretty(&theirs).unwrap());
    }
}

#[test]
fn nesting_has_a_limit() {
    let deep = |n: usize| "[".repeat(n) + &"]".repeat(n);
    assert!(parse_json(&deep(127)).is_some());
    assert!(parse_json(&deep(128)).is_none());
}

#[test]
fn errors_say_what_serde_json_says() {
    let theirs = serde_json::from_str::<serde_json::Value>("{oops").unwrap_err().to_string();
    assert_eq!(read_json("{oops").unwrap_err(), theirs);
    assert!(read_json("").is_err());
}

#[test]
fn members_are_found_and_set() {
    let value = parse_json(r#"{"a":{"b":[10,20]},"t":"x","n":-1,"f":1.5,"y":true}"#).unwrap();
    assert_eq!(value.pointer(&["a", "b", "1"]).and_then(Json::as_u64), Some(20));
    assert!(value.pointer(&["a", "b", "01"]).is_none());
    assert!(value.pointer(&["a", "b", "2"]).is_none());
    assert_eq!(value.text_at("t"), Some("x"));
    assert_eq!(value.text_at("a"), None);
    assert_eq!(value.get("n").and_then(Json::as_i64), Some(-1));
    assert_eq!(value.get("n").and_then(Json::as_u64), None);
    assert_eq!(value.get("f").and_then(Json::as_u64), None);
    assert_eq!(value.get("y").and_then(Json::as_bool), Some(true));
    assert_eq!(value.as_object().map(|object| object.len()), Some(5));
    let object = match value {
        Json::Object(object) => object,
        _ => panic!("an object"),
    };
    let changed = object.with("t".to_string(), Json::text("z"));
    assert_eq!(changed.get("t").and_then(Json::as_str), Some("z"));
    assert_eq!(changed.get("n").and_then(Json::as_i64), Some(-1));
    assert_eq!(changed.len(), 5);
}

#[test]
fn objects_are_built_in_order_of_keys() {
    let value = Json::object(vec![("b", Json::Unsigned(1)), ("a", Json::Null), ("b", Json::Bool(true))]);
    assert_eq!(value.to_text(), r#"{"a":null,"b":true}"#);
    assert_eq!(Json::optional_text(&None), Json::Null);
    assert_eq!(Json::optional_text(&Some("x".to_string())), Json::text("x"));
    assert_eq!(Json::empty_object().to_text(), "{}");
}

#[test]
fn the_reserved_key_reads_back_behind_another() {
    let value = parse_json(r##"{"#":1,"$serde_json::private::RawValue":"2"}"##).unwrap();
    assert_eq!(value.as_object().unwrap().len(), 2);
    assert_eq!(value.text_at("$serde_json::private::RawValue"), Some("2"));
    assert_eq!(parse_json(&value.to_text()), Some(value.clone()));
    assert_eq!(parse_json(&value.to_pretty_text()), Some(value));
}

#[test]
fn objects_are_written_in_braces() {
    assert_eq!(Json::empty_object().to_text(), "{}");
    assert_eq!(parse_json(r#" {"a" : [1]} "#).unwrap().to_text(), r#"{"a":[1]}"#);
}

#[test]
fn integers_have_one_form() {
    assert_eq!(Json::integer(5), Json::Unsigned(5));
    assert_eq!(Json::integer(5), parse_json("5").unwrap());
    assert_eq!(Json::integer(-5), parse_json("-5").unwrap());
    assert_eq!(Json::integer(i64::MIN).as_i64(), Some(i64::MIN));
    assert_eq!(Json::integer(-5).as_u64(), None);
    assert_eq!(Json::integer(-5).to_text(), "-5");
}
