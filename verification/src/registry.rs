//! The tab registry: the ordered collection of open tabs.
//!
//! A tab keeps a stable id, its URL, and an optional user-assigned name;
//! its display position is its current 1-based index, which shifts as tabs
//! close.  Names are unique among live tabs; a tab reference resolves as a
//! position first and as a name second.

use vstd::prelude::*;
use vstd::string::StrSliceExecFns;
use vstd::string::StringExecFns;

use crate::nums::{dec_nat, parse_usize, push_dec_u64, usize_of_text};
use crate::text::str_eq;

verus! {

pub struct Tab {
    /// Assigned once at creation, never reused.
    pub id: usize,
    pub url: String,
    pub name: Option<String>,
}

pub struct TabRegistry {
    pub tabs: Vec<Tab>,
    pub next_id: usize,
}

pub open spec fn tab_named(t: Tab, n: Seq<char>) -> bool {
    t.name matches Some(m) && m@ == n
}

pub open spec fn has_name(tabs: Seq<Tab>, n: Seq<char>) -> bool {
    exists|i: int| 0 <= i < tabs.len() && tab_named(tabs[i], n)
}

/// How many live tabs carry the name `n`.
pub open spec fn count_named(tabs: Seq<Tab>, n: Seq<char>) -> nat
    decreases tabs.len(),
{
    if tabs.len() == 0 {
        0
    } else {
        count_named(tabs.drop_first(), n) + (if tab_named(tabs[0], n) {
            1nat
        } else {
            0nat
        })
    }
}

/// The position of the first tab named `n`, if any.
pub open spec fn first_named(tabs: Seq<Tab>, n: Seq<char>) -> Option<int>
    decreases tabs.len(),
{
    if tabs.len() == 0 {
        None
    } else if tab_named(tabs[0], n) {
        Some(0)
    } else {
        match first_named(tabs.drop_first(), n) {
            Some(i) => Some(i + 1),
            None => None,
        }
    }
}

/// Reference resolution: a string that reads as a position `p` with
/// `1 <= p <= len` picks that tab; anything else falls back to the first
/// tab with that name.
pub open spec fn resolve_ref(tabs: Seq<Tab>, r: Seq<char>) -> Option<int> {
    if usize_of_text(r) matches Some(p) && 1 <= p <= tabs.len() {
        Some(usize_of_text(r)->0 - 1)
    } else {
        first_named(tabs, r)
    }
}

/// At most one live tab per name.
pub open spec fn names_unique(tabs: Seq<Tab>) -> bool {
    forall|i: int, j: int|
        0 <= i < j < tabs.len() && (#[trigger] tabs[i].name) is Some && (#[trigger] tabs[j].name)
            is Some ==> tabs[i].name->0@ != tabs[j].name->0@
}

impl TabRegistry {
    pub open spec fn wf(self) -> bool {
        names_unique(self.tabs@)
    }

    pub fn new() -> (r: TabRegistry)
        ensures
            r.tabs@.len() == 0,
            r.next_id == 0,
            r.wf(),
    {
        TabRegistry { tabs: Vec::new(), next_id: 0 }
    }
}

pub proof fn lemma_first_named(tabs: Seq<Tab>, n: Seq<char>)
    ensures
        first_named(tabs, n) is None <==> !has_name(tabs, n),
        first_named(tabs, n) matches Some(i) ==> 0 <= i < tabs.len() && tab_named(tabs[i], n) && (
        forall|j: int| 0 <= j < i ==> !tab_named(tabs[j], n)),
    decreases tabs.len(),
{
    if tabs.len() > 0 && !tab_named(tabs[0], n) {
        let t = tabs.drop_first();
        lemma_first_named(t, n);
        match first_named(t, n) {
            None => {
                assert forall|j: int| 0 <= j < tabs.len() implies !tab_named(tabs[j], n) by {
                    if j > 0 {
                        assert(t[j - 1] == tabs[j]);
                    }
                }
            },
            Some(i) => {
                assert(tabs[i + 1] == t[i]);
                assert forall|j: int| 0 <= j < i + 1 implies !tab_named(tabs[j], n) by {
                    if j > 0 {
                        assert(t[j - 1] == tabs[j]);
                    }
                }
            },
        }
        if !has_name(tabs, n) {
            assert forall|j: int| 0 <= j < t.len() implies !tab_named(t[j], n) by {
                assert(t[j] == tabs[j + 1]);
            }
        } else {
            let w = choose|w: int| 0 <= w < tabs.len() && tab_named(tabs[w], n);
            assert(w > 0);
            assert(t[w - 1] == tabs[w]);
            assert(has_name(t, n));
        }
    }
}

proof fn lemma_first_named_at(tabs: Seq<Tab>, n: Seq<char>, i: int)
    requires
        0 <= i < tabs.len(),
        tab_named(tabs[i], n),
        forall|j: int| 0 <= j < i ==> !tab_named(tabs[j], n),
    ensures
        first_named(tabs, n) == Some(i),
    decreases i,
{
    if i > 0 {
        let t = tabs.drop_first();
        assert(t[i - 1] == tabs[i]);
        assert forall|j: int| 0 <= j < i - 1 implies !tab_named(t[j], n) by {
            assert(t[j] == tabs[j + 1]);
        }
        lemma_first_named_at(t, n, i - 1);
    }
}

impl TabRegistry {
    /// Resolves a tab reference, exactly as `resolve_ref` describes.
    #[verifier::loop_isolation(false)]
    pub fn resolve(&self, tab_ref: &str) -> (r: Option<usize>)
        ensures
            match r {
                Some(i) => resolve_ref(self.tabs@, tab_ref@) == Some(i as int) && i
                    < self.tabs@.len(),
                None => resolve_ref(self.tabs@, tab_ref@) is None,
            },
    {
        match parse_usize(tab_ref) {
            Some(p) => {
                if 1 <= p && p <= self.tabs.len() {
                    return Some(p - 1);
                }
            },
            None => {},
        }
        let mut i: usize = 0;
        while i < self.tabs.len()
            invariant
                i <= self.tabs@.len(),
                forall|j: int| 0 <= j < i ==> !tab_named(self.tabs@[j], tab_ref@),
            decreases self.tabs@.len() - i,
        {
            match &self.tabs[i].name {
                Some(m) => {
                    if str_eq(m.as_str(), tab_ref) {
                        proof {
                            lemma_first_named_at(self.tabs@, tab_ref@, i as int);
                        }
                        return Some(i);
                    }
                },
                None => {},
            }
            i += 1;
        }
        proof {
            lemma_first_named(self.tabs@, tab_ref@);
        }
        None
    }

    /// Closes the tab at position `idx`; every later tab shifts down one.
    pub fn close_tab(&mut self, idx: usize)
        requires
            old(self).wf(),
            idx < old(self).tabs@.len(),
        ensures
            final(self).wf(),
            final(self).tabs@ == old(self).tabs@.remove(idx as int),
            final(self).next_id == old(self).next_id,
    {
        self.tabs.remove(idx);
        proof {
            let new = self.tabs@;
            let olds = old(self).tabs@;
            assert forall|i: int, j: int|
                0 <= i < j < new.len() && (#[trigger] new[i].name) is Some && (
                #[trigger] new[j].name) is Some implies new[i].name->0@ != new[j].name->0@ by {
                let i2 = if i < idx {
                    i
                } else {
                    i + 1
                };
                let j2 = if j < idx {
                    j
                } else {
                    j + 1
                };
                assert(new[i] == olds[i2]);
                assert(new[j] == olds[j2]);
            }
        }
    }

    /// Gives the tab at position `idx` the (unused) name `new_name`.
    pub fn rename_tab(&mut self, idx: usize, new_name: String)
        requires
            old(self).wf(),
            idx < old(self).tabs@.len(),
            !has_name(old(self).tabs@, new_name@),
        ensures
            final(self).wf(),
            final(self).tabs@ == old(self).tabs@.update(
                idx as int,
                (Tab {
                    id: old(self).tabs@[idx as int].id,
                    url: old(self).tabs@[idx as int].url,
                    name: Some(new_name),
                }),
            ),
            final(self).next_id == old(self).next_id,
    {
        let t = self.tabs.remove(idx);
        self.tabs.insert(idx, Tab { id: t.id, url: t.url, name: Some(new_name) });
        proof {
            let new = self.tabs@;
            let olds = old(self).tabs@;
            assert(new =~= olds.update(
                idx as int,
                (Tab {
                    id: olds[idx as int].id,
                    url: olds[idx as int].url,
                    name: Some(new_name),
                }),
            ));
            assert forall|i: int, j: int|
                0 <= i < j < new.len() && (#[trigger] new[i].name) is Some && (
                #[trigger] new[j].name) is Some implies new[i].name->0@ != new[j].name->0@ by {
                if i != idx && j != idx {
                    assert(new[i] == olds[i]);
                    assert(new[j] == olds[j]);
                } else {
                    let k = if i == idx {
                        j
                    } else {
                        i
                    };
                    assert(new[k] == olds[k]);
                    if olds[k].name is Some {
                        assert(!tab_named(olds[k], new_name@));
                    }
                }
            }
        }
    }

    /// Replaces the URL snapshot of the tab at `idx`; out-of-range indices
    /// (a tab closed while a navigation settled) change nothing.
    pub fn set_url(&mut self, idx: usize, url: String)
        ensures
            final(self).next_id == old(self).next_id,
            old(self).wf() ==> final(self).wf(),
            idx < old(self).tabs@.len() ==> final(self).tabs@ == old(self).tabs@.update(
                idx as int,
                (Tab {
                    id: old(self).tabs@[idx as int].id,
                    url: url,
                    name: old(self).tabs@[idx as int].name,
                }),
            ),
            idx >= old(self).tabs@.len() ==> *final(self) == *old(self),
    {
        if idx < self.tabs.len() {
            let t = self.tabs.remove(idx);
            self.tabs.insert(idx, Tab { id: t.id, url: url, name: t.name });
            proof {
                let new = self.tabs@;
                let olds = old(self).tabs@;
                assert(new =~= olds.update(
                    idx as int,
                    (Tab { id: olds[idx as int].id, url: url, name: olds[idx as int].name }),
                ));
                if old(self).wf() {
                    assert forall|i: int, j: int|
                        0 <= i < j < new.len() && (#[trigger] new[i].name) is Some && (
                        #[trigger] new[j].name) is Some implies new[i].name->0@
                        != new[j].name->0@ by {
                        assert(new[i].name == olds[i].name);
                        assert(new[j].name == olds[j].name);
                    }
                }
            }
        }
    }

    /// Is some live tab named `n`?
    pub fn name_in_use(&self, n: &str) -> (r: bool)
        ensures
            r == has_name(self.tabs@, n@),
    {
        let mut i: usize = 0;
        while i < self.tabs.len()
            invariant
                i <= self.tabs@.len(),
                forall|j: int| 0 <= j < i ==> !tab_named(self.tabs@[j], n@),
            decreases self.tabs@.len() - i,
        {
            match &self.tabs[i].name {
                Some(m) => {
                    if str_eq(m.as_str(), n) {
                        proof {
                            assert(tab_named(self.tabs@[i as int], n@));
                        }
                        return true;
                    }
                },
                None => {},
            }
            i += 1;
        }
        proof {
            assert(!has_name(self.tabs@, n@)) by {
                if has_name(self.tabs@, n@) {
                    let w = choose|w: int|
                        0 <= w < self.tabs@.len() && tab_named(self.tabs@[w], n@);
                    assert(!tab_named(self.tabs@[w], n@));
                }
            }
        }
        false
    }
}

/// Errors a registry operation can report.
#[derive(Debug, PartialEq)]
pub enum RegistryError {
    NameInUse,
    NotFound,
    InvalidUrl(String),
}

pub open spec fn starts_with(s: Seq<char>, p: Seq<char>) -> bool {
    s.len() >= p.len() && s.subrange(0, p.len() as int) == p
}

fn str_starts_with(s: &str, p: &str) -> (r: bool)
    ensures
        r == starts_with(s@, p@),
{
    let n = s.unicode_len();
    let m = p.unicode_len();
    if n < m {
        return false;
    }
    let pre = s.substring_char(0, m);
    str_eq(pre, p)
}

/// A URL with an `http://` or `https://` scheme kept as is, anything else
/// put under `https://`.
pub open spec fn normalize_url(u: Seq<char>) -> Seq<char> {
    if starts_with(u, "http://"@) || starts_with(u, "https://"@) {
        u
    } else {
        "https://"@ + u
    }
}

fn normalize_url_exec(u: &str) -> (r: String)
    ensures
        r@ == normalize_url(u@),
{
    if str_starts_with(u, "http://") || str_starts_with(u, "https://") {
        u.to_owned()
    } else {
        let mut s = String::new();
        s.append("https://");
        s.append(u);
        proof {
            assert(s@ =~= "https://"@ + u@);
        }
        s
    }
}

/// The error text that parsing `s` as a URL reports, `None` where `s`
/// parses.  Named rather than written out: the URL grammar belongs to the
/// url crate.
pub uninterp spec fn url_parse_err(s: Seq<char>) -> Option<Seq<char>>;

/// Relies on url::Url::parse: whether text parses as an absolute URL, and
/// the error it otherwise reports, depend on the text alone.
#[verifier::external_body]
fn check_url(s: &str) -> (r: Option<String>)
    ensures
        (r is Some) == (url_parse_err(s@) is Some),
        r matches Some(e) ==> e@ == url_parse_err(s@)->0,
{
    match url::Url::parse(s) {
        Ok(_) => None,
        Err(e) => Some(format!("{:?}", e)),
    }
}

impl TabRegistry {
    /// Opens a tab on `url` (normalized), after the name-uniqueness and
    /// URL-well-formedness checks; on success the tab joins the end of the
    /// ordering and the result is its 0-based position.
    pub fn open_tab(&mut self, url: &str, name: Option<String>) -> (r: Result<
        usize,
        RegistryError,
    >)
        requires
            old(self).wf(),
            old(self).next_id < usize::MAX,
        ensures
            final(self).wf(),
            ({
                let full = normalize_url(url@);
                let dup = name matches Some(n) && has_name(old(self).tabs@, n@);
                if dup {
                    (r matches Err(e) && e == RegistryError::NameInUse) && *final(self) == *old(self)
                } else if url_parse_err(full) is Some {
                    (r matches Err(e) && (e matches RegistryError::InvalidUrl(t) && t@
                        == url_parse_err(full)->0)) && *final(self) == *old(self)
                } else {
                    (r matches Ok(pos) && pos == old(self).tabs@.len()) && final(self).next_id
                        == old(self).next_id + 1 && final(self).tabs@.len() == old(self).tabs@.len() + 1 && (forall|j: int|
                        0 <= j < old(self).tabs@.len() ==> final(self).tabs@[j] == old(self).tabs@[j]) && final(self).tabs@.last().id == old(self).next_id && final(self).tabs@.last().url@ == full && final(self).tabs@.last().name == name
                }
            }),
    {
        match &name {
            Some(n) => {
                if self.name_in_use(n.as_str()) {
                    return Err(RegistryError::NameInUse);
                }
            },
            None => {},
        }
        let full = normalize_url_exec(url);
        match check_url(full.as_str()) {
            Some(e) => {
                return Err(RegistryError::InvalidUrl(e));
            },
            None => {},
        }
        let id = self.next_id;
        self.next_id = self.next_id + 1;
        let pos = self.tabs.len();
        self.tabs.push(Tab { id, url: full, name });
        proof {
            let new = self.tabs@;
            let olds = old(self).tabs@;
            assert forall|i: int, j: int|
                0 <= i < j < new.len() && (#[trigger] new[i].name) is Some && (
                #[trigger] new[j].name) is Some implies new[i].name->0@ != new[j].name->0@ by {
                if j < olds.len() {
                    assert(new[i] == olds[i]);
                    assert(new[j] == olds[j]);
                } else {
                    assert(new[i] == olds[i]);
                    assert(!tab_named(olds[i], new[j].name->0@));
                }
            }
        }
        Ok(pos)
    }

    /// Forks the tab at `src_idx`: a new tab on a snapshot of its current
    /// URL, independent afterwards.  The caller has already ruled the name
    /// out as taken.
    pub fn fork_tab(&mut self, src_idx: usize, name: Option<String>) -> (r: Result<
        usize,
        RegistryError,
    >)
        requires
            old(self).wf(),
            old(self).next_id < usize::MAX,
            src_idx < old(self).tabs@.len(),
            name matches Some(n) ==> !has_name(old(self).tabs@, n@),
        ensures
            final(self).wf(),
            ({
                let src_url = old(self).tabs@[src_idx as int].url;
                if url_parse_err(src_url@) is Some {
                    (r matches Err(e) && (e matches RegistryError::InvalidUrl(t) && t@
                        == url_parse_err(src_url@)->0)) && *final(self) == *old(self)
                } else {
                    (r matches Ok(pos) && pos == old(self).tabs@.len()) && final(self).tabs@
                        == old(self).tabs@.push(
                        (Tab { id: old(self).next_id, url: src_url, name: name }),
                    ) && final(self).next_id == old(self).next_id + 1
                }
            }),
    {
        let src_url = self.tabs[src_idx].url.clone();
        match check_url(src_url.as_str()) {
            Some(e) => {
                return Err(RegistryError::InvalidUrl(e));
            },
            None => {},
        }
        let id = self.next_id;
        self.next_id = self.next_id + 1;
        let pos = self.tabs.len();
        self.tabs.push(Tab { id, url: src_url, name });
        proof {
            let new = self.tabs@;
            let olds = old(self).tabs@;
            assert forall|i: int, j: int|
                0 <= i < j < new.len() && (#[trigger] new[i].name) is Some && (
                #[trigger] new[j].name) is Some implies new[i].name->0@ != new[j].name->0@ by {
                if j < olds.len() {
                    assert(new[i] == olds[i]);
                    assert(new[j] == olds[j]);
                } else {
                    assert(new[i] == olds[i]);
                    assert(!tab_named(olds[i], new[j].name->0@));
                }
            }
        }
        Ok(pos)
    }
}

/// The ` (name)` portion of a listing line.
pub open spec fn name_part(name: Option<String>) -> Seq<char> {
    match name {
        Some(n) => " ("@ + n@ + ")"@,
        None => Seq::empty(),
    }
}

/// One listing line: `pos[ (name)]  url`.
pub open spec fn tab_line(pos: nat, t: Tab) -> Seq<char> {
    dec_nat(pos + 1) + name_part(t.name) + "  "@ + t.url@ + "\n"@
}

pub open spec fn tabs_lines(tabs: Seq<Tab>, i: nat) -> Seq<char>
    decreases tabs.len() - i,
{
    if i >= tabs.len() {
        Seq::empty()
    } else {
        tab_line(i, tabs[i as int]) + tabs_lines(tabs, i + 1)
    }
}

/// The full listing: a sentinel when empty, else one line per tab.
pub open spec fn list_text(tabs: Seq<Tab>) -> Seq<char> {
    if tabs.len() == 0 {
        "No open tabs\n"@
    } else {
        tabs_lines(tabs, 0)
    }
}

impl TabRegistry {
    /// Renders the listing of open tabs, exactly as `list_text` describes.
    pub fn list_tabs(&self) -> (r: String)
        ensures
            r@ == list_text(self.tabs@),
    {
        if self.tabs.len() == 0 {
            let mut out = String::new();
            out.append("No open tabs\n");
            proof {
                assert(out@ =~= "No open tabs\n"@);
            }
            return out;
        }
        let mut out = String::new();
        let mut i: usize = 0;
        while i < self.tabs.len()
            invariant
                i <= self.tabs@.len(),
                tabs_lines(self.tabs@, 0) == out@ + tabs_lines(self.tabs@, i as nat),
            decreases self.tabs@.len() - i,
        {
            let ghost before = out@;
            push_dec_u64(&mut out, (i as u64) + 1);
            match &self.tabs[i].name {
                Some(n) => {
                    out.append(" (");
                    out.append(n.as_str());
                    out.append(")");
                },
                None => {},
            }
            out.append("  ");
            out.append(self.tabs[i].url.as_str());
            out.append("\n");
            proof {
                assert(out@ =~= before + tab_line(i as nat, self.tabs@[i as int]));
                assert(tabs_lines(self.tabs@, 0) =~= out@ + tabs_lines(self.tabs@, (i + 1) as nat));
            }
            i += 1;
        }
        proof {
            assert(tabs_lines(self.tabs@, self.tabs@.len() as nat).len() == 0);
            assert(out@ =~= tabs_lines(self.tabs@, 0));
        }
        out
    }
}

/// A valid position string resolves to that position, whatever the names.
pub proof fn lemma_resolve_position(tabs: Seq<Tab>, n: nat)
    requires
        1 <= n <= tabs.len(),
        tabs.len() <= usize::MAX,
    ensures
        resolve_ref(tabs, dec_nat(n)) == Some(n - 1),
{
    crate::nums::lemma_dec_nat_round_trip(n);
}

proof fn lemma_count_push(tabs: Seq<Tab>, t: Tab, n: Seq<char>)
    ensures
        count_named(tabs.push(t), n) == count_named(tabs, n) + (if tab_named(t, n) {
            1nat
        } else {
            0nat
        }),
    decreases tabs.len(),
{
    reveal_with_fuel(count_named, 3);
    if tabs.len() == 0 {
        assert(tabs.push(t)[0] == t);
        assert(tabs.push(t).drop_first() =~= Seq::<Tab>::empty());
    } else {
        assert(tabs.push(t).drop_first() =~= tabs.drop_first().push(t));
        assert(tabs.push(t)[0] == tabs[0]);
        lemma_count_push(tabs.drop_first(), t, n);
    }
}

proof fn lemma_count_zero(tabs: Seq<Tab>, n: Seq<char>)
    ensures
        (count_named(tabs, n) == 0) <==> !has_name(tabs, n),
    decreases tabs.len(),
{
    reveal_with_fuel(count_named, 3);
    if tabs.len() > 0 {
        let t = tabs.drop_first();
        lemma_count_zero(t, n);
        if count_named(tabs, n) == 0 {
            assert forall|j: int| 0 <= j < tabs.len() implies !tab_named(tabs[j], n) by {
                if j > 0 {
                    assert(t[j - 1] == tabs[j]);
                    if tab_named(t[j - 1], n) {
                        assert(has_name(t, n));
                    }
                }
            }
        }
        if !has_name(tabs, n) {
            assert(!tab_named(tabs[0], n));
            assert forall|j: int| 0 <= j < t.len() implies !tab_named(t[j], n) by {
                assert(t[j] == tabs[j + 1]);
            }
        }
    }
}

/// Opening a tab under a fresh name leaves exactly one tab so named; a
/// second open with that name then fails the uniqueness check.
pub proof fn lemma_open_name_unique(tabs: Seq<Tab>, t: Tab, n: Seq<char>)
    requires
        !has_name(tabs, n),
        tab_named(t, n),
    ensures
        has_name(tabs.push(t), n),
        count_named(tabs.push(t), n) == 1,
{
    assert(tabs.push(t)[tabs.len() as int] == t);
    lemma_count_push(tabs, t, n);
    lemma_count_zero(tabs, n);
}

/// Closing position `idx` keeps earlier tabs in place and shifts each later
/// tab's position down by one, so stale references move to the next tab.
pub proof fn lemma_close_shifts(tabs: Seq<Tab>, idx: int)
    requires
        0 <= idx < tabs.len(),
    ensures
        tabs.remove(idx).len() == tabs.len() - 1,
        forall|j: int| 0 <= j < idx ==> tabs.remove(idx)[j] == tabs[j],
        forall|j: int| idx <= j < tabs.len() - 1 ==> tabs.remove(idx)[j] == tabs[j + 1],
{
    tabs.remove_ensures(idx);
}

/// After a close at position `idx`, a stale positional reference `p` past
/// it resolves to the tab that stood one place later before the close.
pub proof fn lemma_close_renumbers(tabs: Seq<Tab>, idx: int, p: nat)
    requires
        0 <= idx < tabs.len(),
        idx < p <= tabs.len() - 1,
        tabs.len() <= usize::MAX,
    ensures
        resolve_ref(tabs.remove(idx), dec_nat(p)) == Some(p - 1),
        tabs.remove(idx)[p - 1] == tabs[p as int],
{
    lemma_close_shifts(tabs, idx);
    lemma_resolve_position(tabs.remove(idx), p);
}

} // verus!
