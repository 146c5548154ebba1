use manga_extensions::json::JsonValue;

fn s(t: &str) -> JsonValue {
    JsonValue::Str(t.to_string())
}

fn obj(members: Vec<(&str, JsonValue)>) -> JsonValue {
    JsonValue::Object(members.into_iter().map(|(k, v)| (k.to_string(), v)).collect())
}

#[test]
fn get_finds_the_first_member() {
    let v = obj(vec![("a", s("1")), ("b", JsonValue::Bool(true)), ("a", s("2"))]);
    assert_eq!(v.get("a"), Some(&s("1")));
    assert_eq!(v.get_str("a").map(|t| t.as_str()), Some("1"));
    assert_eq!(v.get_bool("b"), Some(true));
    assert_eq!(v.get_bool("a"), None);
    assert_eq!(v.get("c"), None);
    assert_eq!(s("x").get("a"), None);
}

#[test]
fn with_field_replaces_or_appends() {
    let v = obj(vec![("a", s("1")), ("b", s("2"))]);
    let w = v.clone().with_field("a", s("9"));
    assert_eq!(w, obj(vec![("a", s("9")), ("b", s("2"))]));
    let x = v.with_field("c", JsonValue::Null);
    assert_eq!(x, obj(vec![("a", s("1")), ("b", s("2")), ("c", JsonValue::Null)]));
}

#[test]
fn replace_field_returns_previous_value() {
    let v = obj(vec![("a", s("1"))]);
    let (w, prev) = v.replace_field("a", s("2"));
    assert_eq!(prev, Some(s("1")));
    assert_eq!(w.get("a"), Some(&s("2")));
}

#[test]
fn duplicate_is_deep() {
    let v = obj(vec![
        ("list", JsonValue::Array(vec![JsonValue::Number("3".to_string()), JsonValue::Null])),
        ("inner", obj(vec![("k", s("v"))])),
    ]);
    assert_eq!(v.duplicate(), v);
    assert_eq!(v.clone(), v);
}
