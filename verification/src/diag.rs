//! Replies to a `show` query: the formatted document, or a diagnostic when
//! the page holds no hypermedia document yet.
//!
//! The renderer answers a query with a JSON-shaped value: on success an
//! object with `ok: true` and the document under `data`; otherwise a bundle
//! of readiness facts (`readyState`, `title`, `bodyText`, `hasPre`) that a
//! heuristic turns into one readable line.

use vstd::prelude::*;
use vstd::string::StringExecFns;

use crate::command::opt_str_view;
use crate::document::{obj_lookup, HyperValue};
use crate::format::{fmt_value, format_hypermap_styled};
use crate::path::{path_of, resolve_spec};
use crate::text::{contains_str, contains_sub, first_line, first_line_of, str_eq};

verus! {

/// The string field `key` of a diagnostics object, or `dflt`.
pub open spec fn diag_str(diag: HyperValue, key: Seq<char>, dflt: Seq<char>) -> Seq<char> {
    match diag {
        HyperValue::Object(es) => match obj_lookup(es@, key) {
            Some(v) => match v {
                HyperValue::Text(t) => t@,
                _ => dflt,
            },
            None => dflt,
        },
        _ => dflt,
    }
}

/// The boolean field `key` of a diagnostics object, or `false`.
pub open spec fn diag_bool(diag: HyperValue, key: Seq<char>) -> bool {
    match diag {
        HyperValue::Object(es) => match obj_lookup(es@, key) {
            Some(v) => match v {
                HyperValue::Bool(b) => b,
                _ => false,
            },
            None => false,
        },
        _ => false,
    }
}

fn diag_get_str<'a>(diag: &'a HyperValue, key: &str, dflt: &'a str) -> (r: &'a str)
    ensures
        r@ == diag_str(*diag, key@, dflt@),
{
    match diag {
        HyperValue::Object(es) => match crate::document::obj_get(es, key) {
            Some(v) => match v {
                HyperValue::Text(t) => t.as_str(),
                _ => dflt,
            },
            None => dflt,
        },
        _ => dflt,
    }
}

fn diag_get_bool(diag: &HyperValue, key: &str) -> (r: bool)
    ensures
        r == diag_bool(*diag, key@),
{
    match diag {
        HyperValue::Object(es) => match crate::document::obj_get(es, key) {
            Some(v) => match v {
                HyperValue::Bool(b) => *b,
                _ => false,
            },
            None => false,
        },
        _ => false,
    }
}

/// The lowercase form of text.  Named rather than written out: case folding
/// belongs to the standard library; it depends on the characters alone.
pub uninterp spec fn lower_of(s: Seq<char>) -> Seq<char>;

/// Relies on str::to_lowercase: the result depends on the characters alone.
#[verifier::external_body]
fn lowercase(s: &str) -> (r: String)
    ensures
        r@ == lower_of(s@),
{
    s.to_lowercase()
}

/// The diagnostic line for a page without hypermedia content: not-found and
/// error phrases win, then the load state decides.
pub open spec fn load_error_text(diag: HyperValue) -> Seq<char> {
    let rs = diag_str(diag, "readyState"@, "unknown"@);
    let title = diag_str(diag, "title"@, ""@);
    let body = diag_str(diag, "bodyText"@, ""@);
    let has_pre = diag_bool(diag, "hasPre"@);
    let tl = lower_of(title);
    let bl = lower_of(body);
    if contains_sub(tl, "not found"@) || contains_sub(bl, "not found"@) || contains_sub(
        title,
        "404"@,
    ) {
        "Page not found (404): "@ + title + "\n"@
    } else if contains_sub(tl, "error"@) || contains_sub(bl, "error"@) {
        let hint = if title.len() > 0 {
            title
        } else {
            match first_line(body) {
                Some(l) => l,
                None => "Unknown error"@,
            }
        };
        "Page error: "@ + hint + "\n"@
    } else if rs == "loading"@ {
        "Page is still loading...\n"@
    } else if rs == "complete"@ && !has_pre {
        "Page loaded but contains no hypermap content (no <pre> element)\n"@
    } else if rs == "complete"@ && has_pre {
        "Page loaded but hypermap failed to initialize (check if page serves valid JSON)\n"@
    } else {
        "No hypermap content (readyState: "@ + rs + ", title: "@ + (if title.len() == 0 {
            "<none>"@
        } else {
            title
        }) + ")\n"@
    }
}

/// Renders the diagnostic line, exactly as `load_error_text` describes.
pub fn format_load_error(diag: &HyperValue) -> (r: String)
    ensures
        r@ == load_error_text(*diag),
{
    let rs = diag_get_str(diag, "readyState", "unknown");
    let title = diag_get_str(diag, "title", "");
    let body = diag_get_str(diag, "bodyText", "");
    let has_pre = diag_get_bool(diag, "hasPre");
    let tl = lowercase(title);
    let bl = lowercase(body);
    if contains_str(tl.as_str(), "not found") || contains_str(bl.as_str(), "not found")
        || contains_str(title, "404") {
        let mut out = String::new();
        out.append("Page not found (404): ");
        out.append(title);
        out.append("\n");
        proof {
            assert(out@ =~= load_error_text(*diag));
        }
        return out;
    }
    if contains_str(tl.as_str(), "error") || contains_str(bl.as_str(), "error") {
        let mut out = String::new();
        out.append("Page error: ");
        if !title.is_empty() {
            out.append(title);
        } else {
            match first_line_of(body) {
                Some(l) => {
                    out.append(l.as_str());
                },
                None => {
                    out.append("Unknown error");
                },
            }
        }
        out.append("\n");
        proof {
            assert(out@ =~= load_error_text(*diag));
        }
        return out;
    }
    if str_eq(rs, "loading") {
        let mut out = String::new();
        out.append("Page is still loading...\n");
        proof {
            assert(out@ =~= load_error_text(*diag));
        }
        return out;
    }
    if str_eq(rs, "complete") && !has_pre {
        let mut out = String::new();
        out.append("Page loaded but contains no hypermap content (no <pre> element)\n");
        proof {
            assert(out@ =~= load_error_text(*diag));
        }
        return out;
    }
    if str_eq(rs, "complete") && has_pre {
        let mut out = String::new();
        out.append(
            "Page loaded but hypermap failed to initialize (check if page serves valid JSON)\n",
        );
        proof {
            assert(out@ =~= load_error_text(*diag));
        }
        return out;
    }
    let mut out = String::new();
    out.append("No hypermap content (readyState: ");
    out.append(rs);
    out.append(", title: ");
    if title.is_empty() {
        out.append("<none>");
    } else {
        out.append(title);
    }
    out.append(")\n");
    proof {
        assert(out@ =~= load_error_text(*diag));
    }
    out
}

/// Did the query land on a page with a hypermedia document?
pub open spec fn ok_flag(result: HyperValue) -> bool {
    result matches HyperValue::Object(es) && obj_lookup(es@, "ok"@) == Some(HyperValue::Bool(true))
}

/// The reply a completed `show` query produces: the document (or the
/// subtree under `path`) formatted, `Path not found` where resolution
/// fails, and the diagnostic line where the page had no document.
pub open spec fn show_reply_text(
    result: HyperValue,
    path: Option<Seq<char>>,
    color: bool,
) -> Seq<char> {
    if ok_flag(result) {
        let base = match result {
            HyperValue::Object(es) => match obj_lookup(es@, "data"@) {
                Some(h) => h,
                None => HyperValue::Null,
            },
            _ => HyperValue::Null,
        };
        let picked = match path {
            Some(p) => resolve_spec(base, path_of(p)),
            None => Some(base),
        };
        match picked {
            Some(doc) => fmt_value(doc, Seq::empty(), color),
            None => "Path not found\n"@,
        }
    } else {
        load_error_text(result)
    }
}

fn ok_flag_check(result: &HyperValue) -> (r: bool)
    ensures
        r == ok_flag(*result),
{
    match result {
        HyperValue::Object(es) => match crate::document::obj_get(es, "ok") {
            Some(v) => match v {
                HyperValue::Bool(b) => *b,
                _ => false,
            },
            None => false,
        },
        _ => false,
    }
}

/// Builds the reply to a completed `show` query, exactly as
/// `show_reply_text` describes.
pub fn show_reply(result: &HyperValue, path: &Option<String>, color: bool) -> (r: String)
    ensures
        r@ == show_reply_text(*result, opt_str_view(*path), color),
{
    if !ok_flag_check(result) {
        return format_load_error(result);
    }
    let null_doc = HyperValue::Null;
    let base: &HyperValue = match result {
        HyperValue::Object(es) => match crate::document::obj_get(es, "data") {
            Some(h) => h,
            None => &null_doc,
        },
        _ => &null_doc,
    };
    let picked: Option<&HyperValue> = match path {
        Some(p) => crate::path::get_value_at_path(base, p.as_str()),
        None => Some(base),
    };
    match picked {
        Some(doc) => {
            let out = format_hypermap_styled(doc, 0, color);
            proof {
                assert(crate::format::indent_text(0) =~= Seq::<char>::empty());
            }
            out
        },
        None => {
            let mut out = String::new();
            out.append("Path not found\n");
            proof {
                assert(out@ =~= "Path not found\n"@);
            }
            out
        },
    }
}

} // verus!
