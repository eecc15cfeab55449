//! The document formatter: listings, controls, colors, and the
//! metadata-key edge cases.

use mech::{format_hypermap_styled, HyperValue};

fn obj(entries: Vec<(&str, HyperValue)>) -> HyperValue {
    HyperValue::Object(entries.into_iter().map(|(k, v)| (k.to_string(), v)).collect())
}

fn text(s: &str) -> HyperValue {
    HyperValue::Text(s.to_string())
}

fn control_marker() -> (&'static str, HyperValue) {
    ("#", obj(vec![("type", text("control"))]))
}

fn format_hypermap(value: &HyperValue, indent: usize) -> String {
    format_hypermap_styled(value, indent, false)
}

#[test]
fn main_format_hypermap_simple_value() {
    let value = obj(vec![("price", HyperValue::Int(42))]);
    let output = format_hypermap(&value, 0);
    assert_eq!(output, "price: 42\n");
}

#[test]
fn main_format_hypermap_string_value() {
    let value = obj(vec![("name", text("test"))]);
    let output = format_hypermap(&value, 0);
    assert_eq!(output, "name: test\n");
}

#[test]
fn main_format_hypermap_null_value() {
    let value = obj(vec![("status", HyperValue::Null)]);
    let output = format_hypermap(&value, 0);
    assert_eq!(output, "status: null\n");
}

#[test]
fn main_format_hypermap_bool_value() {
    let value = obj(vec![("active", HyperValue::Bool(true))]);
    let output = format_hypermap(&value, 0);
    assert_eq!(output, "active: true\n");
}

#[test]
fn main_format_hypermap_nested_object() {
    let value = obj(vec![("nav", obj(vec![("home", text("/"))]))]);
    let output = format_hypermap(&value, 0);
    // nav has children, so it gets /
    assert_eq!(output, "nav/\n  home: /\n");
}

#[test]
fn main_format_hypermap_array() {
    let value = obj(vec![(
        "items",
        HyperValue::Array(vec![HyperValue::Int(1), HyperValue::Int(2), HyperValue::Int(3)]),
    )]);
    let output = format_hypermap(&value, 0);
    // items has children (array), so it gets /
    assert_eq!(output, "items/\n  [0]: 1\n  [1]: 2\n  [2]: 3\n");
}

#[test]
fn main_format_hypermap_control_no_children() {
    // A control is an object whose only entry is the "#" marker
    let value = obj(vec![("home", obj(vec![control_marker()]))]);
    let output = format_hypermap(&value, 0);
    // A control without children gets the @ suffix (no bold without color)
    assert_eq!(output, "home@\n");
}

#[test]
fn main_format_hypermap_control_with_color() {
    let value = obj(vec![("home", obj(vec![control_marker()]))]);
    let output = format_hypermap_styled(&value, 0, true);
    // A control with color gets bold
    assert_eq!(output, "\x1b[1mhome@\x1b[0m\n");
}

#[test]
fn main_format_hypermap_control_with_children() {
    // A control with entries beyond "#"
    let value = obj(vec![("nav", obj(vec![control_marker(), ("label", text("Home"))]))]);
    let output = format_hypermap(&value, 0);
    // A control with children gets the @/ suffix
    assert_eq!(output, "nav@/\n  label: Home\n");
}

#[test]
fn main_format_hypermap_control_with_children_color() {
    let value = obj(vec![("nav", obj(vec![control_marker(), ("label", text("Home"))]))]);
    let output = format_hypermap_styled(&value, 0, true);
    assert_eq!(output, "\x1b[1mnav@/\x1b[0m\n  label: Home\n");
}

#[test]
fn main_format_hypermap_skips_hash_key() {
    let value = obj(vec![control_marker(), ("name", text("test"))]);
    let output = format_hypermap(&value, 0);
    // The "#" key itself never shows up
    assert!(!output.contains("#"));
    assert!(output.contains("name: test"));
}

#[test]
fn main_format_hypermap_with_indent() {
    let value = obj(vec![("a", HyperValue::Int(1))]);
    let output = format_hypermap(&value, 2);
    assert_eq!(output, "    a: 1\n");
}

#[test]
fn lib_format_hypermap_simple_value() {
    let value = obj(vec![("price", HyperValue::Int(42))]);
    let output = format_hypermap(&value, 0);
    assert_eq!(output, "price: 42\n");
}

#[test]
fn lib_format_hypermap_string_value() {
    let value = obj(vec![("name", text("test"))]);
    let output = format_hypermap(&value, 0);
    assert_eq!(output, "name: test\n");
}

#[test]
fn lib_format_hypermap_null_value() {
    let value = obj(vec![("status", HyperValue::Null)]);
    let output = format_hypermap(&value, 0);
    assert_eq!(output, "status: null\n");
}

#[test]
fn lib_format_hypermap_bool_value() {
    let value = obj(vec![("active", HyperValue::Bool(true))]);
    let output = format_hypermap(&value, 0);
    assert_eq!(output, "active: true\n");
}

#[test]
fn lib_format_hypermap_nested_object() {
    let value = obj(vec![("nav", obj(vec![("home", text("/"))]))]);
    let output = format_hypermap(&value, 0);
    assert_eq!(output, "nav/\n  home: /\n");
}

#[test]
fn lib_format_hypermap_array() {
    let value = obj(vec![(
        "items",
        HyperValue::Array(vec![HyperValue::Int(1), HyperValue::Int(2), HyperValue::Int(3)]),
    )]);
    let output = format_hypermap(&value, 0);
    assert_eq!(output, "items/\n  [0]: 1\n  [1]: 2\n  [2]: 3\n");
}

#[test]
fn lib_format_hypermap_control_no_children() {
    let value = obj(vec![("home", obj(vec![control_marker()]))]);
    let output = format_hypermap(&value, 0);
    assert_eq!(output, "home@\n");
}

#[test]
fn lib_format_hypermap_control_with_color() {
    let value = obj(vec![("home", obj(vec![control_marker()]))]);
    let output = format_hypermap_styled(&value, 0, true);
    assert_eq!(output, "\x1b[1mhome@\x1b[0m\n");
}

#[test]
fn lib_format_hypermap_control_with_children() {
    let value = obj(vec![("nav", obj(vec![control_marker(), ("label", text("Home"))]))]);
    let output = format_hypermap(&value, 0);
    assert_eq!(output, "nav@/\n  label: Home\n");
}

#[test]
fn lib_format_hypermap_control_with_children_color() {
    let value = obj(vec![("nav", obj(vec![control_marker(), ("label", text("Home"))]))]);
    let output = format_hypermap_styled(&value, 0, true);
    assert_eq!(output, "\x1b[1mnav@/\x1b[0m\n  label: Home\n");
}

#[test]
fn lib_format_hypermap_skips_hash_key() {
    let value = obj(vec![control_marker(), ("name", text("test"))]);
    let output = format_hypermap(&value, 0);
    assert!(!output.contains("#"));
    assert!(output.contains("name: test"));
}

#[test]
fn lib_format_hypermap_with_indent() {
    let value = obj(vec![("a", HyperValue::Int(1))]);
    let output = format_hypermap(&value, 2);
    assert_eq!(output, "    a: 1\n");
}

#[test]
fn format_hypermap_simple() {
    let value = obj(vec![("price", HyperValue::Int(42))]);
    let output = format_hypermap_styled(&value, 0, false);
    assert_eq!(output, "price: 42\n");
}

#[test]
fn format_hypermap_scalar_root() {
    let value = HyperValue::Int(-7);
    assert_eq!(format_hypermap_styled(&value, 0, false), "-7\n");
}

#[test]
fn format_hypermap_deep_hash_keys_hidden() {
    // "#" markers stay invisible at every nesting depth
    let value = obj(vec![(
        "a",
        obj(vec![control_marker(), ("b", obj(vec![control_marker(), ("c", HyperValue::Int(1))]))]),
    )]);
    let output = format_hypermap(&value, 0);
    assert_eq!(output, "a@/\n  b@/\n    c: 1\n");
    assert!(!output.contains("#"));
}

#[test]
fn format_hypermap_float_value() {
    let value = obj(vec![("rate", HyperValue::Num("45.67".to_string()))]);
    assert_eq!(format_hypermap(&value, 0), "rate: 45.67\n");
}

#[test]
fn format_hypermap_nested_array_elements() {
    let value = HyperValue::Array(vec![
        HyperValue::Array(vec![HyperValue::Int(1)]),
        obj(vec![("x", HyperValue::Int(2))]),
    ]);
    assert_eq!(format_hypermap(&value, 0), "[0]/\n  [0]: 1\n[1]/\n  x: 2\n");
}
