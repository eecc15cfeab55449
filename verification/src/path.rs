//! The slash-separated path language and free-form scalar tokens.
//!
//! `parse_path` turns `"items/0/name"` into typed components, dropping empty
//! segments; `resolve_path` walks such a list through a document;
//! `parse_scalar` classifies a free-form value token.  `parse_target` splits
//! the client's `tab:path` argument form.

use vstd::prelude::*;
use vstd::string::StrSliceExecFns;
use vstd::string::StringExecFns;

use crate::document::{obj_lookup, HyperValue};
use crate::nums::{dec_int, i64_of_text, i64_to_string, parse_i64};
use crate::text::{find_char, find_char_at, str_eq};

verus! {

/// One step of a slash-separated path: an object key or an array index.
#[derive(Debug, PartialEq)]
pub enum PathComponent {
    StringKey(String),
    IntegerIndex(i64),
}

pub enum PathComponentView {
    StringKey(Seq<char>),
    IntegerIndex(int),
}

impl View for PathComponent {
    type V = PathComponentView;

    open spec fn view(&self) -> PathComponentView {
        match self {
            PathComponent::StringKey(s) => PathComponentView::StringKey(s@),
            PathComponent::IntegerIndex(i) => PathComponentView::IntegerIndex(*i as int),
        }
    }
}

pub open spec fn comps_view(s: Seq<PathComponent>) -> Seq<PathComponentView> {
    s.map_values(|c: PathComponent| c@)
}

/// The segments of `s` split on `/`, empties kept, folded from the right.
pub open spec fn slash_segs(s: Seq<char>) -> Seq<Seq<char>>
    decreases s.len(),
{
    if s.len() == 0 {
        seq![Seq::<char>::empty()]
    } else {
        let prev = slash_segs(s.drop_last());
        if s.last() == '/' {
            prev.push(Seq::<char>::empty())
        } else {
            prev.update(prev.len() - 1, prev.last().push(s.last()))
        }
    }
}

proof fn lemma_comps_push(v: Seq<PathComponent>, c: PathComponent)
    ensures
        comps_view(v.push(c)) == comps_view(v).push(c@),
{
    assert(comps_view(v.push(c)) =~= comps_view(v).push(c@));
}

pub proof fn lemma_slash_segs_nonempty(s: Seq<char>)
    ensures
        slash_segs(s).len() >= 1,
    decreases s.len(),
{
    if s.len() > 0 {
        lemma_slash_segs_nonempty(s.drop_last());
    }
}

/// A non-empty segment becomes an index when it reads as a base-10 integer,
/// else a key.
pub open spec fn classify_seg(t: Seq<char>) -> PathComponentView {
    match i64_of_text(t) {
        Some(v) => PathComponentView::IntegerIndex(v),
        None => PathComponentView::StringKey(t),
    }
}

/// The classified non-empty segments of a segment list, in order.
pub open spec fn comps_of_segs(segs: Seq<Seq<char>>) -> Seq<PathComponentView>
    decreases segs.len(),
{
    if segs.len() == 0 {
        Seq::empty()
    } else {
        let prev = comps_of_segs(segs.drop_last());
        if segs.last().len() > 0 {
            prev.push(classify_seg(segs.last()))
        } else {
            prev
        }
    }
}

/// The components of a path string: non-empty segments, classified.
pub open spec fn path_of(s: Seq<char>) -> Seq<PathComponentView> {
    comps_of_segs(slash_segs(s))
}

fn classify_exec(seg: &str) -> (r: PathComponent)
    ensures
        r@ == classify_seg(seg@),
{
    match parse_i64(seg) {
        Some(v) => PathComponent::IntegerIndex(v),
        None => PathComponent::StringKey(seg.to_owned()),
    }
}

/// Splits on `/`, drops empty segments, and classifies each segment.
pub fn parse_path(path_str: &str) -> (r: Vec<PathComponent>)
    ensures
        comps_view(r@) == path_of(path_str@),
{
    let n = path_str.unicode_len();
    let mut out: Vec<PathComponent> = Vec::new();
    let mut seg_start: usize = 0;
    let ghost mut done: Seq<Seq<char>> = Seq::empty();
    let mut i: usize = 0;
    proof {
        assert(path_str@.take(0) =~= Seq::<char>::empty());
        assert(path_str@.subrange(0, 0) =~= Seq::<char>::empty());
        assert(slash_segs(Seq::<char>::empty()) =~= done.push(Seq::<char>::empty()));
        assert(comps_view(out@) =~= comps_of_segs(done));
    }
    while i < n
        invariant
            seg_start <= i <= n,
            n == path_str@.len(),
            slash_segs(path_str@.take(i as int)) == done.push(
                path_str@.subrange(seg_start as int, i as int),
            ),
            comps_view(out@) == comps_of_segs(done),
        decreases n - i,
    {
        let ghost cur = path_str@.subrange(seg_start as int, i as int);
        proof {
            assert(path_str@.take(i + 1).drop_last() =~= path_str@.take(i as int));
            assert(path_str@.take(i + 1).last() == path_str@[i as int]);
        }
        let c = path_str.get_char(i);
        if c == '/' {
            proof {
                assert(slash_segs(path_str@.take(i + 1)) =~= done.push(cur).push(
                    Seq::<char>::empty(),
                ));
            }
            if seg_start < i {
                let seg = path_str.substring_char(seg_start, i);
                let comp = classify_exec(seg);
                let ghost prev_out = out@;
                out.push(comp);
                proof {
                    assert(seg@ =~= cur);
                    assert(done.push(cur).drop_last() =~= done);
                    lemma_comps_push(prev_out, comp);
                }
            } else {
                proof {
                    assert(cur.len() == 0);
                    assert(done.push(cur).drop_last() =~= done);
                }
            }
            proof {
                done = done.push(cur);
                assert(path_str@.subrange(i + 1, i + 1) =~= Seq::<char>::empty());
            }
            seg_start = i + 1;
        } else {
            proof {
                let prev = slash_segs(path_str@.take(i as int));
                assert(prev.last() == cur);
                assert(prev.update(prev.len() - 1, cur.push(path_str@[i as int])) =~= done.push(
                    cur.push(path_str@[i as int]),
                ));
                assert(cur.push(path_str@[i as int]) =~= path_str@.subrange(
                    seg_start as int,
                    i + 1,
                ));
            }
        }
        i += 1;
    }
    proof {
        assert(path_str@.take(n as int) =~= path_str@);
    }
    let ghost last = path_str@.subrange(seg_start as int, n as int);
    if seg_start < n {
        let seg = path_str.substring_char(seg_start, n);
        let comp = classify_exec(seg);
        let ghost prev_out = out@;
        out.push(comp);
        proof {
            assert(seg@ =~= last);
            assert(done.push(last).drop_last() =~= done);
            lemma_comps_push(prev_out, comp);
        }
    } else {
        proof {
            assert(last.len() == 0);
            assert(done.push(last).drop_last() =~= done);
        }
    }
    out
}

/// Resolution of a component list against a document, left to right: keys
/// (and indices, via their decimal text) look into objects, in-range indices
/// look into arrays, and anything else fails with no partial result.
pub open spec fn resolve_spec(v: HyperValue, path: Seq<PathComponentView>) -> Option<HyperValue>
    decreases path.len(),
{
    if path.len() == 0 {
        Some(v)
    } else {
        let rest = path.drop_first();
        match v {
            HyperValue::Object(es) => {
                let key = match path[0] {
                    PathComponentView::StringKey(t) => t,
                    PathComponentView::IntegerIndex(i) => dec_int(i),
                };
                match obj_lookup(es@, key) {
                    Some(child) => resolve_spec(child, rest),
                    None => None,
                }
            },
            HyperValue::Array(es) => match path[0] {
                PathComponentView::IntegerIndex(i) => if 0 <= i < es@.len() {
                    resolve_spec(es@[i], rest)
                } else {
                    None
                },
                PathComponentView::StringKey(_) => None,
            },
            _ => None,
        }
    }
}

/// Walks `path` through `doc`, exactly as `resolve_spec` describes.
pub fn resolve_path<'a>(doc: &'a HyperValue, path: &Vec<PathComponent>) -> (r: Option<
    &'a HyperValue,
>)
    ensures
        match r {
            Some(v) => resolve_spec(*doc, comps_view(path@)) == Some(*v),
            None => resolve_spec(*doc, comps_view(path@)) is None,
        },
{
    let mut cur: &HyperValue = doc;
    let mut i: usize = 0;
    proof {
        assert(comps_view(path@).skip(0) =~= comps_view(path@));
    }
    while i < path.len()
        invariant
            i <= path@.len(),
            resolve_spec(*doc, comps_view(path@)) == resolve_spec(
                *cur,
                comps_view(path@).skip(i as int),
            ),
        decreases path@.len() - i,
    {
        proof {
            assert(comps_view(path@).skip(i as int)[0] == path@[i as int]@);
            assert(comps_view(path@).skip(i as int).drop_first() =~= comps_view(path@).skip(
                i + 1,
            ));
        }
        match cur {
            HyperValue::Object(es) => {
                let found = match &path[i] {
                    PathComponent::StringKey(s) => crate::document::obj_get(es, s.as_str()),
                    PathComponent::IntegerIndex(v) => {
                        let ks = i64_to_string(*v);
                        crate::document::obj_get(es, ks.as_str())
                    },
                };
                match found {
                    Some(child) => {
                        cur = child;
                    },
                    None => {
                        return None;
                    },
                }
            },
            HyperValue::Array(es) => {
                match &path[i] {
                    PathComponent::IntegerIndex(v) => {
                        if 0 <= *v && (*v as u64) < (es.len() as u64) {
                            cur = &es[*v as usize];
                        } else {
                            return None;
                        }
                    },
                    PathComponent::StringKey(_) => {
                        return None;
                    },
                }
            },
            _ => {
                return None;
            },
        }
        i += 1;
    }
    proof {
        assert(comps_view(path@).skip(path@.len() as int).len() == 0);
    }
    Some(cur)
}

/// Parses and resolves a path string in one step.
pub fn get_value_at_path<'a>(doc: &'a HyperValue, path: &str) -> (r: Option<&'a HyperValue>)
    ensures
        match r {
            Some(v) => resolve_spec(*doc, path_of(path@)) == Some(*v),
            None => resolve_spec(*doc, path_of(path@)) is None,
        },
{
    let comps = parse_path(path);
    resolve_path(doc, &comps)
}

/// The canonical text of a JSON-number token, `None` where the token is not
/// one.  Named rather than written out: the grammar and the canonical form
/// belong to serde_json.
pub uninterp spec fn number_text(s: Seq<char>) -> Option<Seq<char>>;

/// Relies on serde_json's `from_str::<Number>`, which accepts exactly
/// JSON-number text, and on `Number`'s `Display`, which renders the parsed
/// number canonically; both depend on the input text alone.
#[verifier::external_body]
fn json_number_text(s: &str) -> (r: Option<String>)
    ensures
        (r is Some) == (number_text(s@) is Some),
        r matches Some(t) ==> number_text(s@) matches Some(u) && t@ == u,
{
    match serde_json::from_str::<serde_json::Number>(s) {
        Ok(n) => Some(n.to_string()),
        Err(_) => None,
    }
}

/// One layer of surrounding matching quotes removed, double quotes first.
pub open spec fn strip_quotes(s: Seq<char>) -> Seq<char> {
    if s.len() >= 2 && s[0] == '"' && s[s.len() - 1] == '"' {
        s.subrange(1, s.len() - 1)
    } else if s.len() >= 2 && s[0] == '\'' && s[s.len() - 1] == '\'' {
        s.subrange(1, s.len() - 1)
    } else {
        s
    }
}

/// Classifies a free-form value token: booleans and null by keyword, then a
/// base-10 integer, then a number, else a string with one layer of matching
/// quotes stripped.
pub fn parse_scalar(value_str: &str) -> (r: HyperValue)
    ensures
        ({
            let s = value_str@;
            if s == "true"@ || s == "True"@ {
                r == HyperValue::Bool(true)
            } else if s == "false"@ || s == "False"@ {
                r == HyperValue::Bool(false)
            } else if s == "null"@ || s == "None"@ {
                r == HyperValue::Null
            } else if i64_of_text(s) is Some {
                r matches HyperValue::Int(v) && v as int == i64_of_text(s)->0
            } else if number_text(s) is Some {
                r matches HyperValue::Num(t) && t@ == number_text(s)->0
            } else {
                r matches HyperValue::Text(t) && t@ == strip_quotes(s)
            }
        }),
{
    if str_eq(value_str, "true") || str_eq(value_str, "True") {
        return HyperValue::Bool(true);
    }
    if str_eq(value_str, "false") || str_eq(value_str, "False") {
        return HyperValue::Bool(false);
    }
    if str_eq(value_str, "null") || str_eq(value_str, "None") {
        return HyperValue::Null;
    }
    match parse_i64(value_str) {
        Some(v) => HyperValue::Int(v),
        None => match json_number_text(value_str) {
            Some(t) => HyperValue::Num(t),
            None => {
                let n = value_str.unicode_len();
                if n >= 2 {
                    let c0 = value_str.get_char(0);
                    let cl = value_str.get_char(n - 1);
                    if (c0 == '"' && cl == '"') || (c0 == '\'' && cl == '\'') {
                        let inner = value_str.substring_char(1, n - 1);
                        return HyperValue::Text(inner.to_owned());
                    }
                }
                HyperValue::Text(value_str.to_owned())
            },
        },
    }
}

/// A trailing slash adds only an empty segment, which parsing drops.
pub proof fn lemma_path_trailing_slash(s: Seq<char>)
    ensures
        path_of(s.push('/')) == path_of(s),
{
    let segs = slash_segs(s);
    assert(s.push('/').drop_last() =~= s);
    assert(slash_segs(s.push('/')) == segs.push(Seq::<char>::empty()));
    assert(segs.push(Seq::<char>::empty()).drop_last() =~= segs);
}

/// Prepending a slash prepends an empty segment to the split.
proof fn lemma_slash_segs_cons(s: Seq<char>)
    ensures
        slash_segs(seq!['/'] + s) == seq![Seq::<char>::empty()] + slash_segs(s),
    decreases s.len(),
{
    let t = seq!['/'] + s;
    let e = Seq::<char>::empty();
    reveal_with_fuel(slash_segs, 3);
    if s.len() == 0 {
        assert(t.drop_last() =~= e);
        assert(t.last() == '/');
        assert(slash_segs(t) =~~= seq![e] + slash_segs(s));
    } else {
        lemma_slash_segs_cons(s.drop_last());
        lemma_slash_segs_nonempty(s.drop_last());
        let p = slash_segs(s.drop_last());
        assert(t.drop_last() =~= seq!['/'] + s.drop_last());
        assert(t.last() == s.last());
        let prev = slash_segs(t.drop_last());
        assert(prev == seq![e] + p);
        if s.last() == '/' {
            assert(prev.push(e) =~~= seq![e] + p.push(e));
        } else {
            assert(prev.last() == p.last());
            assert(prev.update(prev.len() - 1, prev.last().push(s.last())) =~~= seq![e] + p.update(
                p.len() - 1,
                p.last().push(s.last()),
            ));
        }
    }
}

/// An empty segment at the front contributes no component.
proof fn lemma_comps_of_segs_cons_empty(segs: Seq<Seq<char>>)
    ensures
        comps_of_segs(seq![Seq::<char>::empty()] + segs) == comps_of_segs(segs),
    decreases segs.len(),
{
    let e = Seq::<char>::empty();
    let t = seq![e] + segs;
    reveal_with_fuel(comps_of_segs, 3);
    if segs.len() == 0 {
        assert(t =~~= seq![e]);
        assert(seq![e].drop_last() =~~= Seq::<Seq<char>>::empty());
    } else {
        lemma_comps_of_segs_cons_empty(segs.drop_last());
        assert(t.drop_last() =~~= seq![e] + segs.drop_last());
        assert(t.last() == segs.last());
    }
}

/// A leading slash adds only an empty segment, which parsing drops.
pub proof fn lemma_path_leading_slash(s: Seq<char>)
    ensures
        path_of(seq!['/'] + s) == path_of(s),
{
    lemma_slash_segs_cons(s);
    lemma_comps_of_segs_cons_empty(slash_segs(s));
}

/// Splits a client target like `"stocks:nav/home"` at the first colon into
/// a tab reference and an optional path.
pub fn parse_target(target: &str) -> (r: (String, Option<String>))
    ensures
        match find_char(target@, ':') {
            Some(i) => r.0@ == target@.take(i) && (r.1 matches Some(p) && p@ == target@.skip(
                i + 1,
            )),
            None => r.0@ == target@ && r.1 is None,
        },
{
    match find_char_at(target, ':') {
        Some(i) => {
            proof {
                crate::text::lemma_find_char(target@, ':');
            }
            let tab = target.substring_char(0, i);
            let n = target.unicode_len();
            let path = target.substring_char(i + 1, n);
            proof {
                assert(tab@ =~= target@.take(i as int));
                assert(path@ =~= target@.skip(i + 1));
            }
            (tab.to_owned(), Some(path.to_owned()))
        },
        None => (target.to_owned(), None),
    }
}

} // verus!
