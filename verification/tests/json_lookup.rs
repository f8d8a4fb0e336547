use decon::json::{content_of_line, get_nested_json_val, JsonLineError, JsonValue};

fn s(t: &str) -> JsonValue {
    JsonValue::Str(t.to_string())
}

fn obj(members: Vec<(&str, JsonValue)>) -> JsonValue {
    JsonValue::Object(members.into_iter().map(|(k, v)| (k.to_string(), v)).collect())
}

#[test]
fn test_get_nested_json_val_simple_key() {
    let o = obj(vec![("id", JsonValue::Number("123".to_string())), ("text", s("Hello, world!"))]);
    let result = get_nested_json_val(&o, "text").ok().unwrap();
    assert_eq!(result, "Hello, world!");
}

#[test]
fn test_get_nested_json_val_nested_key() {
    let o = obj(vec![(
        "user",
        obj(vec![("details", obj(vec![("email", s("john@example.com"))])), ("name", s("John Doe"))]),
    )]);
    assert_eq!(get_nested_json_val(&o, "user.name").ok().unwrap(), "John Doe");
    assert_eq!(get_nested_json_val(&o, "user.details.email").ok().unwrap(), "john@example.com");
}

#[test]
fn test_get_nested_json_val_missing_key() {
    let o = obj(vec![("text", s("Hello"))]);
    let result = get_nested_json_val(&o, "missing");
    assert!(result.is_err());
    assert!(result.err().unwrap().message().contains("Key 'missing' not found"));
}

#[test]
fn test_get_nested_json_val_missing_nested_key() {
    let o = obj(vec![("user", obj(vec![("name", s("John"))]))]);
    let result = get_nested_json_val(&o, "user.email");
    assert!(result.is_err());
    assert!(result.err().unwrap().message().contains("Key 'email' not found"));
}

#[test]
fn test_get_nested_json_val_non_string_value() {
    let o = obj(vec![("active", JsonValue::Bool(true)), ("count", JsonValue::Number("42".to_string()))]);
    let result = get_nested_json_val(&o, "count");
    assert!(result.is_err());
    assert!(result.err().unwrap().message().contains("Value at key 'count' is not a string"));
    let result = get_nested_json_val(&o, "active");
    assert!(result.is_err());
    assert!(result.err().unwrap().message().contains("Value at key 'active' is not a string"));
}

#[test]
fn test_get_nested_json_val_empty_string() {
    let o = obj(vec![("empty", s(""))]);
    assert_eq!(get_nested_json_val(&o, "empty").ok().unwrap(), "");
}

#[test]
fn content_of_a_line_follows_the_key_path() {
    let line = r#"{"meta": {"body": "nested text"}, "text": "top"}"#;
    assert_eq!(content_of_line(line, "text").ok().unwrap(), "top");
    assert_eq!(content_of_line(line, "meta.body").ok().unwrap(), "nested text");
    assert!(matches!(content_of_line(line, "meta.missing"), Err(JsonLineError::Lookup(_))));
    assert!(matches!(content_of_line(line, "meta"), Err(JsonLineError::Lookup(_))));
    assert!(matches!(content_of_line("not json", "text"), Err(JsonLineError::Parse)));
}
