//! The document formatter: an indented, human-readable listing.
//!
//! Objects list their entries in native order, skipping the `"#"` metadata
//! key; a key gains `@` when its value is a control, `/` when it has data
//! children, and bold styling when color is on and it is a control.  Arrays
//! list elements as `[index]` lines.  Scalars print as `key: value`.  The
//! whole output is pinned down by the `fmt_value` specification.

use vstd::prelude::*;
use vstd::string::StrSliceExecFns;
use vstd::string::StringExecFns;

use crate::document::{obj_lookup, scalar_text, HyperValue};
use crate::nums::dec_nat;
use crate::text::str_eq;

verus! {

/// Is `v` an object whose `"#"` metadata marks it as a control?
pub open spec fn is_control(v: HyperValue) -> bool {
    v matches HyperValue::Object(es) && (obj_lookup(es@, "#"@) matches Some(meta) && (meta matches
    HyperValue::Object(ms) && (obj_lookup(ms@, "type"@) matches Some(t) && (t matches
    HyperValue::Text(ty) && ty@ == "control"@))))
}

/// Does `v` have children the listing shows: a non-`"#"` object entry, or
/// any array shape?
pub open spec fn has_data_children(v: HyperValue) -> bool {
    match v {
        HyperValue::Object(es) => exists|k: int| 0 <= k < es@.len() && es@[k].0@ != "#"@,
        HyperValue::Array(_) => true,
        _ => false,
    }
}

/// The marker after a key: `@` for a control, `/` for children.
pub open spec fn suffix_text(ctrl: bool, kids: bool) -> Seq<char> {
    if ctrl && kids {
        "@/"@
    } else if ctrl {
        "@"@
    } else if kids {
        "/"@
    } else {
        ""@
    }
}

/// Bold terminal styling around `s`.
pub open spec fn bold_text(s: Seq<char>) -> Seq<char> {
    "\x1b[1m"@ + s + "\x1b[0m"@
}

/// A shown key with its suffix, bolded for a control when color is on.
pub open spec fn shown_key(key: Seq<char>, ctrl: bool, kids: bool, color: bool) -> Seq<char> {
    if ctrl && color {
        bold_text(key + suffix_text(ctrl, kids))
    } else {
        key + suffix_text(ctrl, kids)
    }
}

/// The full listing of a document under a line prefix.
pub open spec fn fmt_value(v: HyperValue, pre: Seq<char>, color: bool) -> Seq<char>
    decreases v, 0int, 0int,
{
    match v {
        HyperValue::Object(es) => fmt_entries(es@, pre, color),
        HyperValue::Array(a) => fmt_elems(a@, 0, pre, color),
        _ => pre + scalar_text(v) + "\n"@,
    }
}

/// One object entry's lines.
pub open spec fn fmt_entry(key: Seq<char>, val: HyperValue, pre: Seq<char>, color: bool) -> Seq<
    char,
>
    decreases val, 1int, 0int,
{
    let ctrl = is_control(val);
    let kids = has_data_children(val);
    let shown = shown_key(key, ctrl, kids, color);
    match val {
        HyperValue::Object(_) => pre + shown + "\n"@ + (if kids {
            fmt_value(val, pre + "  "@, color)
        } else {
            Seq::empty()
        }),
        HyperValue::Array(_) => pre + shown + "\n"@ + fmt_value(val, pre + "  "@, color),
        _ => pre + shown + ": "@ + scalar_text(val) + "\n"@,
    }
}

/// An object's lines: entries in order, the `"#"` key skipped.
pub open spec fn fmt_entries(es: Seq<(String, HyperValue)>, pre: Seq<char>, color: bool) -> Seq<
    char,
>
    decreases es, 0int, 1int,
{
    if es.len() == 0 {
        Seq::empty()
    } else {
        let head = if es[0].0@ == "#"@ {
            Seq::<char>::empty()
        } else {
            fmt_entry(es[0].0@, es[0].1, pre, color)
        };
        head + fmt_entries(es.drop_first(), pre, color)
    }
}

/// One array element's lines, at absolute index `idx`.
pub open spec fn fmt_elem(idx: nat, val: HyperValue, pre: Seq<char>, color: bool) -> Seq<char>
    decreases val, 1int, 0int,
{
    let label = "["@ + dec_nat(idx) + "]"@;
    match val {
        HyperValue::Object(_) => pre + label + suffix_text(false, true) + "\n"@ + fmt_value(
            val,
            pre + "  "@,
            color,
        ),
        HyperValue::Array(_) => pre + label + suffix_text(false, true) + "\n"@ + fmt_value(
            val,
            pre + "  "@,
            color,
        ),
        _ => pre + label + ": "@ + scalar_text(val) + "\n"@,
    }
}

/// An array's lines: elements in order, numbered from `idx`.
pub open spec fn fmt_elems(a: Seq<HyperValue>, idx: nat, pre: Seq<char>, color: bool) -> Seq<char>
    decreases a, 0int, 1int,
{
    if a.len() == 0 {
        Seq::empty()
    } else {
        fmt_elem(idx, a[0], pre, color) + fmt_elems(a.drop_first(), idx + 1, pre, color)
    }
}

/// `n` levels of two-space indentation.
pub open spec fn indent_text(n: nat) -> Seq<char>
    decreases n,
{
    if n == 0 {
        Seq::empty()
    } else {
        indent_text((n - 1) as nat) + "  "@
    }
}

pub open spec fn no_hash(s: Seq<char>) -> bool {
    forall|i: int| 0 <= i < s.len() ==> s[i] != '#'
}

/// Every data key is `#`-free (the `"#"` key itself aside), and so is every
/// scalar text in the tree.
pub open spec fn doc_clean(v: HyperValue) -> bool
    decreases v, 0int, 0int,
{
    match v {
        HyperValue::Text(t) => no_hash(t@),
        HyperValue::Num(t) => no_hash(t@),
        HyperValue::Array(a) => elems_clean(a@),
        HyperValue::Object(es) => entries_clean(es@),
        _ => true,
    }
}

pub open spec fn entries_clean(es: Seq<(String, HyperValue)>) -> bool
    decreases es, 0int, 1int,
{
    es.len() == 0 || ((es[0].0@ == "#"@ || (no_hash(es[0].0@) && doc_clean(es[0].1)))
        && entries_clean(es.drop_first()))
}

pub open spec fn elems_clean(a: Seq<HyperValue>) -> bool
    decreases a, 0int, 1int,
{
    a.len() == 0 || (doc_clean(a[0]) && elems_clean(a.drop_first()))
}

proof fn lemma_no_hash_concat(a: Seq<char>, b: Seq<char>)
    requires
        no_hash(a),
        no_hash(b),
    ensures
        no_hash(a + b),
{
    assert forall|i: int| 0 <= i < (a + b).len() implies (a + b)[i] != '#' by {
        if i < a.len() {
            assert((a + b)[i] == a[i]);
        } else {
            assert((a + b)[i] == b[i - a.len()]);
        }
    }
}

proof fn lemma_literals_no_hash()
    ensures
        no_hash("\n"@),
        no_hash(": "@),
        no_hash("["@),
        no_hash("]"@),
        no_hash("/"@),
        no_hash("@"@),
        no_hash("@/"@),
        no_hash(""@),
        no_hash("  "@),
        no_hash("\x1b[1m"@),
        no_hash("\x1b[0m"@),
        no_hash("null"@),
        no_hash("true"@),
        no_hash("false"@),
        no_hash("-"@),
{
    reveal_strlit("\n");
    reveal_strlit(": ");
    reveal_strlit("[");
    reveal_strlit("]");
    reveal_strlit("/");
    reveal_strlit("@");
    reveal_strlit("@/");
    reveal_strlit("");
    reveal_strlit("  ");
    reveal_strlit("\x1b[1m");
    reveal_strlit("\x1b[0m");
    reveal_strlit("null");
    reveal_strlit("true");
    reveal_strlit("false");
    reveal_strlit("-");
}

proof fn lemma_dec_nat_no_hash(n: nat)
    ensures
        no_hash(dec_nat(n)),
    decreases n,
{
    if n < 10 {
        assert(dec_nat(n) =~= seq![crate::nums::digit_char(n as int)]);
    } else {
        lemma_dec_nat_no_hash(n / 10);
        assert forall|i: int| 0 <= i < dec_nat(n).len() implies dec_nat(n)[i] != '#' by {
            if i < dec_nat(n / 10).len() {
                assert(dec_nat(n)[i] == dec_nat(n / 10)[i]);
            }
        }
    }
}

proof fn lemma_scalar_no_hash(v: HyperValue)
    requires
        doc_clean(v),
    ensures
        no_hash(scalar_text(v)),
{
    lemma_literals_no_hash();
    match v {
        HyperValue::Int(i) => {
            lemma_dec_nat_no_hash(if i < 0 {
                (-(i as int)) as nat
            } else {
                i as nat
            });
            if i < 0 {
                reveal_strlit("-");
                assert(no_hash(seq!['-'])) by {
                    assert(seq!['-'][0] == '-');
                }
                lemma_no_hash_concat(seq!['-'], dec_nat((-(i as int)) as nat));
            }
        },
        _ => {},
    }
}

proof fn lemma_shown_key_no_hash(key: Seq<char>, ctrl: bool, kids: bool, color: bool)
    requires
        no_hash(key),
    ensures
        no_hash(shown_key(key, ctrl, kids, color)),
{
    lemma_literals_no_hash();
    lemma_no_hash_concat(key, suffix_text(ctrl, kids));
    if ctrl && color {
        lemma_no_hash_concat("\x1b[1m"@, key + suffix_text(ctrl, kids));
        lemma_no_hash_concat("\x1b[1m"@ + (key + suffix_text(ctrl, kids)), "\x1b[0m"@);
        assert(bold_text(key + suffix_text(ctrl, kids)) =~= ("\x1b[1m"@ + (key + suffix_text(
            ctrl,
            kids,
        ))) + "\x1b[0m"@);
    }
}

/// The listing never shows the `"#"` metadata key: as long as the document's
/// own data keys and scalar texts are free of `#` (and the prefix is), no
/// `#` occurs anywhere in the output, at any nesting depth.
pub proof fn lemma_format_no_hash(v: HyperValue, pre: Seq<char>, color: bool)
    requires
        doc_clean(v),
        no_hash(pre),
    ensures
        no_hash(fmt_value(v, pre, color)),
    decreases v, 0int, 0int,
{
    match v {
        HyperValue::Object(es) => {
            lemma_entries_no_hash(es@, pre, color);
        },
        HyperValue::Array(a) => {
            lemma_elems_no_hash(a@, 0, pre, color);
        },
        _ => {
            lemma_literals_no_hash();
            lemma_scalar_no_hash(v);
            lemma_no_hash_concat(pre, scalar_text(v));
            lemma_no_hash_concat(pre + scalar_text(v), "\n"@);
        },
    }
}

proof fn lemma_entry_no_hash(key: Seq<char>, val: HyperValue, pre: Seq<char>, color: bool)
    requires
        no_hash(key),
        doc_clean(val),
        no_hash(pre),
    ensures
        no_hash(fmt_entry(key, val, pre, color)),
    decreases val, 1int, 0int,
{
    lemma_literals_no_hash();
    let ctrl = is_control(val);
    let kids = has_data_children(val);
    let shown = shown_key(key, ctrl, kids, color);
    lemma_shown_key_no_hash(key, ctrl, kids, color);
    lemma_no_hash_concat(pre, shown);
    match val {
        HyperValue::Object(_) => {
            lemma_no_hash_concat(pre + shown, "\n"@);
            if kids {
                lemma_no_hash_concat(pre, "  "@);
                lemma_format_no_hash(val, pre + "  "@, color);
                lemma_no_hash_concat(pre + shown + "\n"@, fmt_value(val, pre + "  "@, color));
            } else {
                lemma_no_hash_concat(pre + shown + "\n"@, Seq::empty());
            }
        },
        HyperValue::Array(_) => {
            lemma_no_hash_concat(pre + shown, "\n"@);
            lemma_no_hash_concat(pre, "  "@);
            lemma_format_no_hash(val, pre + "  "@, color);
            lemma_no_hash_concat(pre + shown + "\n"@, fmt_value(val, pre + "  "@, color));
        },
        _ => {
            lemma_scalar_no_hash(val);
            lemma_no_hash_concat(pre + shown, ": "@);
            lemma_no_hash_concat(pre + shown + ": "@, scalar_text(val));
            lemma_no_hash_concat(pre + shown + ": "@ + scalar_text(val), "\n"@);
        },
    }
}

proof fn lemma_entries_no_hash(es: Seq<(String, HyperValue)>, pre: Seq<char>, color: bool)
    requires
        entries_clean(es),
        no_hash(pre),
    ensures
        no_hash(fmt_entries(es, pre, color)),
    decreases es, 0int, 1int,
{
    if es.len() > 0 {
        lemma_entries_no_hash(es.drop_first(), pre, color);
        let head = if es[0].0@ == "#"@ {
            Seq::<char>::empty()
        } else {
            fmt_entry(es[0].0@, es[0].1, pre, color)
        };
        if es[0].0@ != "#"@ {
            lemma_entry_no_hash(es[0].0@, es[0].1, pre, color);
        }
        lemma_no_hash_concat(head, fmt_entries(es.drop_first(), pre, color));
    }
}

proof fn lemma_elem_no_hash(idx: nat, val: HyperValue, pre: Seq<char>, color: bool)
    requires
        doc_clean(val),
        no_hash(pre),
    ensures
        no_hash(fmt_elem(idx, val, pre, color)),
    decreases val, 1int, 0int,
{
    lemma_literals_no_hash();
    lemma_dec_nat_no_hash(idx);
    let label = "["@ + dec_nat(idx) + "]"@;
    lemma_no_hash_concat("["@, dec_nat(idx));
    lemma_no_hash_concat("["@ + dec_nat(idx), "]"@);
    lemma_no_hash_concat(pre, label);
    match val {
        HyperValue::Object(_) => {
            lemma_no_hash_concat(pre + label, suffix_text(false, true));
            lemma_no_hash_concat(pre + label + suffix_text(false, true), "\n"@);
            lemma_no_hash_concat(pre, "  "@);
            lemma_format_no_hash(val, pre + "  "@, color);
            lemma_no_hash_concat(
                pre + label + suffix_text(false, true) + "\n"@,
                fmt_value(val, pre + "  "@, color),
            );
        },
        HyperValue::Array(_) => {
            lemma_no_hash_concat(pre + label, suffix_text(false, true));
            lemma_no_hash_concat(pre + label + suffix_text(false, true), "\n"@);
            lemma_no_hash_concat(pre, "  "@);
            lemma_format_no_hash(val, pre + "  "@, color);
            lemma_no_hash_concat(
                pre + label + suffix_text(false, true) + "\n"@,
                fmt_value(val, pre + "  "@, color),
            );
        },
        _ => {
            lemma_scalar_no_hash(val);
            lemma_no_hash_concat(pre + label, ": "@);
            lemma_no_hash_concat(pre + label + ": "@, scalar_text(val));
            lemma_no_hash_concat(pre + label + ": "@ + scalar_text(val), "\n"@);
        },
    }
}

proof fn lemma_elems_no_hash(a: Seq<HyperValue>, idx: nat, pre: Seq<char>, color: bool)
    requires
        elems_clean(a),
        no_hash(pre),
    ensures
        no_hash(fmt_elems(a, idx, pre, color)),
    decreases a, 0int, 1int,
{
    if a.len() > 0 {
        lemma_elem_no_hash(idx, a[0], pre, color);
        lemma_elems_no_hash(a.drop_first(), idx + 1, pre, color);
        lemma_no_hash_concat(
            fmt_elem(idx, a[0], pre, color),
            fmt_elems(a.drop_first(), idx + 1, pre, color),
        );
    }
}

fn control_check(v: &HyperValue) -> (r: bool)
    ensures
        r == is_control(*v),
{
    match v {
        HyperValue::Object(es) => match crate::document::obj_get(es, "#") {
            Some(meta) => match meta {
                HyperValue::Object(ms) => match crate::document::obj_get(ms, "type") {
                    Some(t) => match t {
                        HyperValue::Text(ty) => str_eq(ty.as_str(), "control"),
                        _ => false,
                    },
                    None => false,
                },
                _ => false,
            },
            None => false,
        },
        _ => false,
    }
}

#[verifier::loop_isolation(false)]
fn data_children_check(v: &HyperValue) -> (r: bool)
    ensures
        r == has_data_children(*v),
{
    match v {
        HyperValue::Object(es) => {
            let mut i: usize = 0;
            while i < es.len()
                invariant
                    i <= es@.len(),
                    forall|k: int| 0 <= k < i ==> es@[k].0@ == "#"@,
                decreases es@.len() - i,
            {
                if !str_eq(es[i].0.as_str(), "#") {
                    proof {
                        assert(0 <= i < es@.len() && es@[i as int].0@ != "#"@);
                    }
                    return true;
                }
                i += 1;
            }
            false
        },
        HyperValue::Array(_) => true,
        _ => false,
    }
}

fn push_shown_key(out: &mut String, key: &str, ctrl: bool, kids: bool, color: bool)
    ensures
        final(out)@ == old(out)@ + shown_key(key@, ctrl, kids, color),
{
    if ctrl && color {
        out.append("\x1b[1m");
    }
    out.append(key);
    if ctrl && kids {
        out.append("@/");
    } else if ctrl {
        out.append("@");
    } else if kids {
        out.append("/");
    }
    if ctrl && color {
        out.append("\x1b[0m");
    }
    proof {
        reveal_strlit("");
        assert(final(out)@ =~= old(out)@ + shown_key(key@, ctrl, kids, color));
    }
}

fn push_value(out: &mut String, v: &HyperValue, pre: &str, color: bool)
    ensures
        final(out)@ == old(out)@ + fmt_value(*v, pre@, color),
    decreases *v, 0int, 0int,
{
    match v {
        HyperValue::Object(es) => {
            proof {
                assert(es@.skip(0) =~= es@);
            }
            push_entries(out, es, 0, pre, color);
        },
        HyperValue::Array(a) => {
            proof {
                assert(a@.skip(0) =~= a@);
            }
            push_elems(out, a, 0, pre, color);
        },
        _ => {
            out.append(pre);
            crate::document::push_scalar_text(out, v);
            out.append("\n");
            proof {
                assert(final(out)@ =~= old(out)@ + fmt_value(*v, pre@, color));
            }
        },
    }
}

/// Appends the lines of the entries of `es` from position `i` on.
#[verifier::rlimit(60)]
fn push_entries(
    out: &mut String,
    es: &Vec<(String, HyperValue)>,
    i: usize,
    pre: &str,
    color: bool,
)
    requires
        i <= es@.len(),
    ensures
        final(out)@ == old(out)@ + fmt_entries(es@.skip(i as int), pre@, color),
    decreases es@, es@.len() - i, 1int,
{
    let ghost rest = es@.skip(i as int);
    if i >= es.len() {
        proof {
            assert(rest.len() == 0);
            assert(final(out)@ =~= old(out)@ + fmt_entries(rest, pre@, color));
        }
        return ;
    }
    proof {
        assert(rest[0] == es@[i as int]);
        assert(rest.drop_first() =~= es@.skip(i + 1));
    }
    let key = &es[i].0;
    let val = &es[i].1;
    let ghost head = if es@[i as int].0@ == "#"@ {
        Seq::<char>::empty()
    } else {
        fmt_entry(es@[i as int].0@, es@[i as int].1, pre@, color)
    };
    if !str_eq(key.as_str(), "#") {
        let ctrl = control_check(val);
        let kids = data_children_check(val);
        let ghost shown = shown_key(es@[i as int].0@, ctrl, kids, color);
        match val {
            HyperValue::Object(_) => {
                out.append(pre);
                push_shown_key(out, key.as_str(), ctrl, kids, color);
                out.append("\n");
                if kids {
                    let mut child_pre = pre.to_owned();
                    child_pre.append("  ");
                    proof {
                        assert(decreases_to!(es@, es@.len() - i, 1int => es@[i as int].1, 0int, 0int));
                    }
                    push_value(out, val, child_pre.as_str(), color);
                    proof {
                        assert(head =~= pre@ + shown + "\n"@ + fmt_value(
                            es@[i as int].1,
                            pre@ + "  "@,
                            color,
                        ));
                        assert(out@ =~= old(out)@ + head);
                    }
                } else {
                    proof {
                        assert(head =~= pre@ + shown + "\n"@);
                        assert(out@ =~= old(out)@ + head);
                    }
                }
            },
            HyperValue::Array(_) => {
                out.append(pre);
                push_shown_key(out, key.as_str(), ctrl, kids, color);
                out.append("\n");
                let mut child_pre = pre.to_owned();
                child_pre.append("  ");
                proof {
                    assert(decreases_to!(es@, es@.len() - i, 1int => es@[i as int].1, 0int, 0int));
                }
                push_value(out, val, child_pre.as_str(), color);
                proof {
                    assert(head =~= pre@ + shown + "\n"@ + fmt_value(
                        es@[i as int].1,
                        pre@ + "  "@,
                        color,
                    ));
                    assert(out@ =~= old(out)@ + head);
                }
            },
            _ => {
                out.append(pre);
                push_shown_key(out, key.as_str(), ctrl, kids, color);
                out.append(": ");
                crate::document::push_scalar_text(out, val);
                out.append("\n");
                proof {
                    assert(head =~= pre@ + shown + ": "@ + scalar_text(es@[i as int].1) + "\n"@);
                    assert(out@ =~= old(out)@ + head);
                }
            },
        }
    } else {
        proof {
            assert(out@ =~= old(out)@ + head);
        }
    }
    let ghost mid = out@;
    push_entries(out, es, i + 1, pre, color);
    proof {
        assert(fmt_entries(rest, pre@, color) == head + fmt_entries(
            rest.drop_first(),
            pre@,
            color,
        ));
        assert(final(out)@ =~= old(out)@ + fmt_entries(rest, pre@, color));
    }
}

/// Appends the lines of the elements of `a` from position `i` on.
#[verifier::rlimit(60)]
fn push_elems(out: &mut String, a: &Vec<HyperValue>, i: usize, pre: &str, color: bool)
    requires
        i <= a@.len(),
    ensures
        final(out)@ == old(out)@ + fmt_elems(a@.skip(i as int), i as nat, pre@, color),
    decreases a@, a@.len() - i, 1int,
{
    let ghost rest = a@.skip(i as int);
    if i >= a.len() {
        proof {
            assert(rest.len() == 0);
            assert(final(out)@ =~= old(out)@ + fmt_elems(rest, i as nat, pre@, color));
        }
        return ;
    }
    proof {
        assert(rest[0] == a@[i as int]);
        assert(rest.drop_first() =~= a@.skip(i + 1));
    }
    let val = &a[i];
    let ghost head = fmt_elem(i as nat, a@[i as int], pre@, color);
    let ghost label = "["@ + dec_nat(i as nat) + "]"@;
    out.append(pre);
    out.append("[");
    crate::nums::push_dec_u64(out, i as u64);
    out.append("]");
    match val {
        HyperValue::Object(_) => {
            out.append("/");
            out.append("\n");
            let mut child_pre = pre.to_owned();
            child_pre.append("  ");
            proof {
                assert(decreases_to!(a@, a@.len() - i, 1int => a@[i as int], 0int, 0int));
            }
            push_value(out, val, child_pre.as_str(), color);
            proof {
                assert(head =~= pre@ + label + "/"@ + "\n"@ + fmt_value(
                    a@[i as int],
                    pre@ + "  "@,
                    color,
                ));
                assert(out@ =~= old(out)@ + head);
            }
        },
        HyperValue::Array(_) => {
            out.append("/");
            out.append("\n");
            let mut child_pre = pre.to_owned();
            child_pre.append("  ");
            proof {
                assert(decreases_to!(a@, a@.len() - i, 1int => a@[i as int], 0int, 0int));
            }
            push_value(out, val, child_pre.as_str(), color);
            proof {
                assert(head =~= pre@ + label + "/"@ + "\n"@ + fmt_value(
                    a@[i as int],
                    pre@ + "  "@,
                    color,
                ));
                assert(out@ =~= old(out)@ + head);
            }
        },
        _ => {
            out.append(": ");
            crate::document::push_scalar_text(out, val);
            out.append("\n");
            proof {
                assert(head =~= pre@ + label + ": "@ + scalar_text(a@[i as int]) + "\n"@);
                assert(out@ =~= old(out)@ + head);
            }
        },
    }
    push_elems(out, a, i + 1, pre, color);
    proof {
        assert(fmt_elems(rest, i as nat, pre@, color) == head + fmt_elems(
            rest.drop_first(),
            (i + 1) as nat,
            pre@,
            color,
        ));
        assert(final(out)@ =~= old(out)@ + fmt_elems(rest, i as nat, pre@, color));
    }
}

/// Renders a document as its indented listing, exactly as `fmt_value`
/// describes, starting `indent` levels deep.
pub fn format_hypermap_styled(value: &HyperValue, indent: usize, use_color: bool) -> (r: String)
    ensures
        r@ == fmt_value(*value, indent_text(indent as nat), use_color),
{
    let mut pre = String::new();
    let mut k: usize = 0;
    while k < indent
        invariant
            k <= indent,
            pre@ == indent_text(k as nat),
        decreases indent - k,
    {
        pre.append("  ");
        k += 1;
    }
    let mut out = String::new();
    push_value(&mut out, value, pre.as_str(), use_color);
    proof {
        assert(out@ =~= fmt_value(*value, indent_text(indent as nat), use_color));
    }
    out
}

} // verus!
