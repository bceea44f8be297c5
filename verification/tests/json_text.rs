//! Tests of the JSON documents: the compact text form, member lookup and objects built key
//! by key.

use codecks_mcp::json::{JsonObject, JsonValue};
use serde_json::Value;

fn to_json(value: &Value) -> JsonValue {
    match value {
        Value::Null => JsonValue::Null,
        Value::Bool(b) => JsonValue::Bool(*b),
        Value::Number(n) => JsonValue::Number(n.to_string()),
        Value::String(s) => JsonValue::Str(s.clone()),
        Value::Array(items) => JsonValue::Array(items.iter().map(to_json).collect()),
        Value::Object(map) => JsonValue::Object(
            map.iter()
                .map(|(key, value)| (key.clone(), to_json(value)))
                .collect(),
        ),
    }
}

#[test]
fn text_matches_the_compact_form_of_a_json_map() {
    for text in [
        r#"null"#,
        r#"[true, false, 0, -1, 3600000, 1.5]"#,
        r#"{"b": {"y": [], "x": {}}, "a": "text", "c": null}"#,
        r#"{"quote": "say \"hi\"", "slash": "a\\b/c", "lines": "1\n2\r3\t4"}"#,
        r#"{"controls": "\u0000\u0001\u0008\u000b\u000c\u001f\u007f"}"#,
        r#"{"unicode": "é ü 日本 😀 \u2028"}"#,
        r#"{"": "empty key", "Z": 1, "a": 2, "é": 3}"#,
    ] {
        let value: Value = serde_json::from_str(text).unwrap();
        assert_eq!(to_json(&value).to_text(), serde_json::to_string(&value).unwrap(), "{text}");
    }
}

#[test]
fn objects_built_key_by_key_replace_values_and_write_sorted_keys() {
    let object = JsonObject::new()
        .with("zeta", JsonValue::from_u64(1))
        .with("alpha", JsonValue::string("first"))
        .with("mid", JsonValue::Null)
        .with("alpha", JsonValue::string("second"))
        .build();

    let keys = object
        .as_object()
        .expect("the document is an object")
        .iter()
        .map(|(key, _)| key.as_str())
        .collect::<Vec<_>>();
    assert_eq!(keys, ["zeta", "alpha", "mid"]);
    assert_eq!(
        object.to_text(),
        r#"{"alpha":"second","mid":null,"zeta":1}"#
    );
    assert_eq!(object.get("alpha").and_then(JsonValue::as_str), Some("second"));
    assert!(object.get("missing").is_none());
    assert!(object.is_object());
}

#[test]
fn integers_are_written_in_decimal() {
    assert_eq!(JsonValue::from_u64(0).to_text(), "0");
    assert_eq!(JsonValue::from_u64(u64::MAX).to_text(), "18446744073709551615");
    assert_eq!(JsonValue::from_i64(-32600).to_text(), "-32600");
    assert_eq!(JsonValue::from_i64(i64::MIN).to_text(), "-9223372036854775808");
    assert_eq!(JsonValue::from_i64(42).to_text(), "42");
}

#[test]
fn small_documents_are_built_in_order() {
    let array = JsonValue::array2(JsonValue::string("id"), JsonValue::string("name"));
    assert_eq!(array.to_text(), r#"["id","name"]"#);
    let object = JsonValue::object2("b", JsonValue::Bool(true), "a", array);
    assert_eq!(object.to_text(), r#"{"a":["id","name"],"b":true}"#);
    assert_eq!(object.duplicate().to_text(), object.to_text());
    assert!(object.as_object().map(|entries| entries.len()) == Some(2));
    assert!(JsonValue::Null.as_object().is_none());
    assert!(JsonValue::Number("1".to_owned()).as_str().is_none());
}
