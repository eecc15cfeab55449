//! Path parsing, scalar classification, and document resolution.

use mech::{get_value_at_path, parse_path, parse_scalar, HyperValue, PathComponent};

fn key(s: &str) -> PathComponent {
    PathComponent::StringKey(s.to_string())
}

#[test]
fn parse_path_simple() {
    let path = parse_path("foo");
    assert_eq!(path, vec![key("foo")]);
}

#[test]
fn parse_path_nested() {
    let path = parse_path("foo/bar/baz");
    assert_eq!(path, vec![key("foo"), key("bar"), key("baz")]);
}

#[test]
fn parse_path_with_numeric() {
    let path = parse_path("items/0/name");
    assert_eq!(path, vec![key("items"), PathComponent::IntegerIndex(0), key("name")]);
}

#[test]
fn parse_path_empty() {
    let path = parse_path("");
    assert_eq!(path, Vec::<PathComponent>::new());
}

#[test]
fn parse_path_leading_slash() {
    let path = parse_path("/foo/bar");
    assert_eq!(path, vec![key("foo"), key("bar")]);
}

#[test]
fn parse_path_trailing_slash() {
    let path = parse_path("foo/bar/");
    assert_eq!(path, vec![key("foo"), key("bar")]);
}

#[test]
fn parse_path_negative_index() {
    let path = parse_path("items/-2");
    assert_eq!(path, vec![key("items"), PathComponent::IntegerIndex(-2)]);
}

#[test]
fn parse_value_true() {
    assert_eq!(parse_scalar("true"), HyperValue::Bool(true));
    assert_eq!(parse_scalar("True"), HyperValue::Bool(true));
}

#[test]
fn parse_value_false() {
    assert_eq!(parse_scalar("false"), HyperValue::Bool(false));
    assert_eq!(parse_scalar("False"), HyperValue::Bool(false));
}

#[test]
fn parse_value_null() {
    assert_eq!(parse_scalar("null"), HyperValue::Null);
    assert_eq!(parse_scalar("None"), HyperValue::Null);
}

#[test]
fn parse_value_integer() {
    assert_eq!(parse_scalar("123"), HyperValue::Int(123));
    assert_eq!(parse_scalar("-42"), HyperValue::Int(-42));
}

#[test]
fn parse_value_float() {
    assert_eq!(parse_scalar("45.67"), HyperValue::Num("45.67".to_string()));
    assert_eq!(parse_scalar("-3.14"), HyperValue::Num("-3.14".to_string()));
}

#[test]
fn parse_value_string() {
    assert_eq!(parse_scalar("hello"), HyperValue::Text("hello".to_string()));
}

#[test]
fn parse_value_quoted_string() {
    assert_eq!(parse_scalar("\"hello world\""), HyperValue::Text("hello world".to_string()));
    assert_eq!(parse_scalar("'hello world'"), HyperValue::Text("hello world".to_string()));
}

#[test]
fn resolve_object_and_array() {
    let doc = HyperValue::Object(vec![(
        "items".to_string(),
        HyperValue::Array(vec![
            HyperValue::Object(vec![("name".to_string(), HyperValue::Text("a".to_string()))]),
            HyperValue::Object(vec![("name".to_string(), HyperValue::Text("b".to_string()))]),
        ]),
    )]);
    assert_eq!(
        get_value_at_path(&doc, "items/1/name"),
        Some(&HyperValue::Text("b".to_string()))
    );
    assert_eq!(get_value_at_path(&doc, "items/2/name"), None);
    assert_eq!(get_value_at_path(&doc, "items/x"), None);
    assert_eq!(get_value_at_path(&doc, ""), Some(&doc));
}

#[test]
fn resolve_integer_component_against_object() {
    // An integer component looks an object up by its decimal text.
    let doc = HyperValue::Object(vec![("0".to_string(), HyperValue::Int(7))]);
    assert_eq!(get_value_at_path(&doc, "0"), Some(&HyperValue::Int(7)));
}

#[test]
fn resolve_scalar_dead_end() {
    let doc = HyperValue::Object(vec![("a".to_string(), HyperValue::Int(1))]);
    assert_eq!(get_value_at_path(&doc, "a/b"), None);
}
