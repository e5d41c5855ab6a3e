use snyk_config::from_env::attempt_parse;
use snyk_config::{merge_sources, Json, JsonValue};

fn to_serde(v: &JsonValue) -> serde_json::Value {
    match v {
        JsonValue::Null => serde_json::Value::Null,
        JsonValue::Bool(b) => serde_json::Value::Bool(*b),
        JsonValue::Number(n) => serde_json::from_str(n).unwrap(),
        JsonValue::String(s) => serde_json::Value::String(s.clone()),
        JsonValue::Array(a) => serde_json::Value::Array(a.iter().map(to_serde).collect()),
        JsonValue::Object(es) => obj(es),
    }
}

fn obj(fields: &Json) -> serde_json::Value {
    serde_json::Value::Object(
        fields
            .iter()
            .map(|(k, v)| (k.clone(), to_serde(v)))
            .collect(),
    )
}

fn json(text: &str) -> serde_json::Value {
    serde_json::from_str(text).unwrap()
}

fn doc(text: &str) -> JsonValue {
    attempt_parse(text)
}

fn merged(start: &str, rest: &[&str]) -> serde_json::Value {
    obj(&merge_sources(doc(start), rest.iter().map(|t| doc(t)).collect()))
}

#[test]
fn merges() {
    assert_eq!(merged("{}", &[r#"{"one": 2}"#]), json(r#"{"one": 2}"#));
    assert_eq!(merged(r#"{"one": 2}"#, &["{}"]), json(r#"{"one": 2}"#));
    assert_eq!(
        merged(r#"{"one": 1}"#, &[r#"{"two": 2}"#]),
        json(r#"{"one": 1, "two": 2}"#)
    );
    assert_eq!(
        merged(r#"{"one": {"two": 3}}"#, &[r#"{"one": {"two": 5}}"#]),
        json(r#"{"one": {"two": 5}}"#)
    );
}

#[test]
fn merge_identity() {
    let text = r#"{"a": 1, "b": {"c": [1, 2], "d": null}}"#;
    assert_eq!(merged(text, &[]), json(text));
}

#[test]
fn merge_right_bias_on_scalars() {
    assert_eq!(merged(r#"{"a": 1}"#, &[r#"{"a": 2}"#]), json(r#"{"a": 2}"#));
}

#[test]
fn merge_union_on_disjoint_keys() {
    assert_eq!(
        merged(r#"{"a": 1}"#, &[r#"{"b": 2}"#]),
        json(r#"{"a": 1, "b": 2}"#)
    );
}

#[test]
fn merge_recursion_on_nested_objects() {
    assert_eq!(
        merged(r#"{"a": {"x": 1, "y": 2}}"#, &[r#"{"a": {"y": 5}}"#]),
        json(r#"{"a": {"x": 1, "y": 5}}"#)
    );
}

#[test]
fn merge_full_replace_when_types_differ() {
    assert_eq!(merged(r#"{"a": {"x": 1}}"#, &[r#"{"a": 5}"#]), json(r#"{"a": 5}"#));
}

#[test]
fn merge_object_over_scalar() {
    assert_eq!(
        merged(r#"{"a": 5}"#, &[r#"{"a": {"x": 1}}"#]),
        json(r#"{"a": {"x": 1}}"#)
    );
}

#[test]
fn merge_replaces_arrays_whole() {
    assert_eq!(
        merged(r#"{"a": [1, 2, 3]}"#, &[r#"{"a": [4]}"#]),
        json(r#"{"a": [4]}"#)
    );
}

#[test]
fn merge_later_sources_win() {
    assert_eq!(
        merged(
            r#"{"a": 1, "b": 1, "c": 1}"#,
            &[r#"{"b": 2, "c": 2}"#, r#"{"c": 3}"#]
        ),
        json(r#"{"a": 1, "b": 2, "c": 3}"#)
    );
}

#[test]
fn merge_wraps_scalar_root() {
    assert_eq!(merged("5", &[]), json(r#"{"value": 5}"#));
    assert_eq!(merged(r#"{"a": 1}"#, &["[1]"]), json(r#"{"value": [1]}"#));
}

#[test]
fn merge_null_replaces() {
    assert_eq!(merged(r#"{"a": {"x": 1}}"#, &[r#"{"a": null}"#]), json(r#"{"a": null}"#));
}
