use pika::json::{JsonNumber, JsonObject, JsonValue};

#[test]
fn object_insert_get_and_order() {
    let mut o = JsonObject::new();
    o.insert("b".to_string(), JsonValue::Bool(true));
    o.insert("a".to_string(), JsonValue::Number(JsonNumber::PosInt(1)));
    o.insert("b".to_string(), JsonValue::Null);
    assert_eq!(o.len(), 2);
    assert_eq!(o.entries[0].0, "b");
    assert!(matches!(o.get("b"), Some(JsonValue::Null)));
    assert_eq!(o.get("a").and_then(|v| v.as_u64()), Some(1));
    assert!(o.get("c").is_none());
    assert_eq!(o.find("a"), Some(1));
}

#[test]
fn insert_if_absent_and_take() {
    let mut o = JsonObject::new();
    o.insert_if_absent("k".to_string(), JsonValue::Bool(false));
    o.insert_if_absent("k".to_string(), JsonValue::Bool(true));
    assert_eq!(o.get("k").and_then(|v| v.as_bool()), Some(false));
    let taken = o.take("k");
    assert!(matches!(taken, Some(JsonValue::Bool(false))));
    assert!(matches!(o.get("k"), Some(JsonValue::Null)));
    assert!(o.take("missing").is_none());
}

#[test]
fn value_accessors() {
    let s = JsonValue::String("x".to_string());
    assert_eq!(s.as_str(), Some("x"));
    assert!(s.as_bool().is_none() && s.as_u64().is_none() && s.get("x").is_none());
    assert!(JsonValue::Number(JsonNumber::NegInt(-1)).as_u64().is_none());
    assert!(JsonValue::Number(JsonNumber::Float("1.5".to_string())).as_u64().is_none());
    let obj = JsonValue::Object(JsonObject::new());
    assert!(obj.is_object() && obj.as_object().is_some() && obj.as_array().is_none());
}
