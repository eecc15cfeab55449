//! Replies to show queries: formatted documents and load diagnostics.

use mech::{format_load_error, show_reply, HyperValue};

fn obj(entries: Vec<(&str, HyperValue)>) -> HyperValue {
    HyperValue::Object(entries.into_iter().map(|(k, v)| (k.to_string(), v)).collect())
}

fn text(s: &str) -> HyperValue {
    HyperValue::Text(s.to_string())
}

fn diag(ready: &str, title: &str, body: &str, has_pre: bool) -> HyperValue {
    obj(vec![
        ("ok", HyperValue::Bool(false)),
        ("readyState", text(ready)),
        ("title", text(title)),
        ("bodyText", text(body)),
        ("hasPre", HyperValue::Bool(has_pre)),
    ])
}

#[test]
fn load_error_not_found_by_title() {
    // case folding decides: "Not Found" only matches lowercased
    let d = diag("complete", "404 Not Found", "", true);
    assert_eq!(format_load_error(&d), "Page not found (404): 404 Not Found\n");
}

#[test]
fn load_error_error_with_title() {
    let d = diag("complete", "Server ERROR", "", false);
    assert_eq!(format_load_error(&d), "Page error: Server ERROR\n");
}

#[test]
fn load_error_error_from_body_first_line() {
    let d = diag("complete", "", "error: no route\nsecond line", false);
    assert_eq!(format_load_error(&d), "Page error: error: no route\n");
}

#[test]
fn load_error_still_loading() {
    let d = diag("loading", "", "", false);
    assert_eq!(format_load_error(&d), "Page is still loading...\n");
}

#[test]
fn load_error_no_pre_element() {
    let d = diag("complete", "", "", false);
    assert_eq!(
        format_load_error(&d),
        "Page loaded but contains no hypermap content (no <pre> element)\n"
    );
}

#[test]
fn load_error_pre_without_hypermap() {
    let d = diag("complete", "", "", true);
    assert_eq!(
        format_load_error(&d),
        "Page loaded but hypermap failed to initialize (check if page serves valid JSON)\n"
    );
}

#[test]
fn load_error_fallback() {
    let d = diag("interactive", "", "", false);
    assert_eq!(
        format_load_error(&d),
        "No hypermap content (readyState: interactive, title: <none>)\n"
    );
    let d2 = diag("interactive", "Welcome", "", false);
    assert_eq!(
        format_load_error(&d2),
        "No hypermap content (readyState: interactive, title: Welcome)\n"
    );
}

#[test]
fn load_error_missing_fields() {
    let d = obj(vec![("ok", HyperValue::Bool(false))]);
    assert_eq!(format_load_error(&d), "No hypermap content (readyState: unknown, title: <none>)\n");
}

#[test]
fn show_reply_formats_document() {
    let result = obj(vec![
        ("ok", HyperValue::Bool(true)),
        ("data", obj(vec![("nav", obj(vec![("home", text("/"))]))])),
    ]);
    assert_eq!(show_reply(&result, &None, false), "nav/\n  home: /\n");
    assert_eq!(show_reply(&result, &Some("nav".to_string()), false), "home: /\n");
    assert_eq!(show_reply(&result, &Some("nav/home".to_string()), false), "/\n");
}

#[test]
fn show_reply_path_not_found() {
    let result = obj(vec![("ok", HyperValue::Bool(true)), ("data", obj(vec![]))]);
    assert_eq!(show_reply(&result, &Some("missing".to_string()), false), "Path not found\n");
}

#[test]
fn show_reply_missing_data_acts_as_null() {
    let result = obj(vec![("ok", HyperValue::Bool(true))]);
    assert_eq!(show_reply(&result, &None, false), "null\n");
    assert_eq!(show_reply(&result, &Some("x".to_string()), false), "Path not found\n");
}

#[test]
fn show_reply_diagnostics_branch() {
    let result = diag_like_loading();
    assert_eq!(show_reply(&result, &None, false), "Page is still loading...\n");
}

fn diag_like_loading() -> HyperValue {
    obj(vec![("ok", HyperValue::Bool(false)), ("readyState", text("loading"))])
}
