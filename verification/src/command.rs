//! The text command protocol: one line in, one structured command out.
//!
//! A line is tokenized on ASCII whitespace; the first token picks the verb
//! and the rest follow that verb's grammar.  Malformed input yields no
//! command.  The grammar of each verb is pinned down by `cmd_of_tokens` over
//! the token list.

use vstd::prelude::*;
use vstd::string::StrSliceExecFns;
use vstd::string::StringExecFns;

use crate::text::{find_char, find_char_at, str_eq};

verus! {

/// A parsed daemon command, immutable once constructed.
#[derive(Debug, Clone)]
pub enum DaemonCommand {
    Open { url: String, name: Option<String> },
    Show { tab: String, path: Option<String>, color: bool },
    SetValue { tab: String, path: String, value: String },
    Use { tab: String, path: String, data: Vec<(String, String)> },
    Fork { tab: String, path: String, name: Option<String>, data: Vec<(String, String)> },
    Close { tab: String },
    Name { tab: String, name: String },
    Tabs,
    Shutdown,
}

pub enum CommandView {
    Open { url: Seq<char>, name: Option<Seq<char>> },
    Show { tab: Seq<char>, path: Option<Seq<char>>, color: bool },
    SetValue { tab: Seq<char>, path: Seq<char>, value: Seq<char> },
    Use { tab: Seq<char>, path: Seq<char>, data: Seq<(Seq<char>, Seq<char>)> },
    Fork {
        tab: Seq<char>,
        path: Seq<char>,
        name: Option<Seq<char>>,
        data: Seq<(Seq<char>, Seq<char>)>,
    },
    Close { tab: Seq<char> },
    Name { tab: Seq<char>, name: Seq<char> },
    Tabs,
    Shutdown,
}

pub open spec fn opt_str_view(o: Option<String>) -> Option<Seq<char>> {
    match o {
        Some(s) => Some(s@),
        None => None,
    }
}

pub open spec fn pairs_view(s: Seq<(String, String)>) -> Seq<(Seq<char>, Seq<char>)> {
    s.map_values(|p: (String, String)| (p.0@, p.1@))
}

impl View for DaemonCommand {
    type V = CommandView;

    open spec fn view(&self) -> CommandView {
        match self {
            DaemonCommand::Open { url, name } => CommandView::Open {
                url: url@,
                name: opt_str_view(*name),
            },
            DaemonCommand::Show { tab, path, color } => CommandView::Show {
                tab: tab@,
                path: opt_str_view(*path),
                color: *color,
            },
            DaemonCommand::SetValue { tab, path, value } => CommandView::SetValue {
                tab: tab@,
                path: path@,
                value: value@,
            },
            DaemonCommand::Use { tab, path, data } => CommandView::Use {
                tab: tab@,
                path: path@,
                data: pairs_view(data@),
            },
            DaemonCommand::Fork { tab, path, name, data } => CommandView::Fork {
                tab: tab@,
                path: path@,
                name: opt_str_view(*name),
                data: pairs_view(data@),
            },
            DaemonCommand::Close { tab } => CommandView::Close { tab: tab@ },
            DaemonCommand::Name { tab, name } => CommandView::Name { tab: tab@, name: name@ },
            DaemonCommand::Tabs => CommandView::Tabs,
            DaemonCommand::Shutdown => CommandView::Shutdown,
        }
    }
}

pub open spec fn is_space(c: char) -> bool {
    c == ' ' || c == '\t' || c == '\n' || c == '\r' || c == '\x0C'
}

/// The ASCII-whitespace tokens of a line, folded from the right: a trailing
/// space closes nothing, a character after a non-space extends the last
/// token, and a character after a space (or at the start) opens a new one.
pub open spec fn tokens_of(s: Seq<char>) -> Seq<Seq<char>>
    decreases s.len(),
{
    if s.len() == 0 {
        Seq::empty()
    } else {
        let prev = tokens_of(s.drop_last());
        let c = s.last();
        if is_space(c) {
            prev
        } else if s.len() >= 2 && !is_space(s[s.len() - 2]) {
            prev.update(prev.len() - 1, prev.last().push(c))
        } else {
            prev.push(seq![c])
        }
    }
}

pub open spec fn toks_view(v: Seq<String>) -> Seq<Seq<char>> {
    v.map_values(|t: String| t@)
}

proof fn lemma_toks_push(v: Seq<String>, t: String)
    ensures
        toks_view(v.push(t)) == toks_view(v).push(t@),
{
    assert(toks_view(v.push(t)) =~= toks_view(v).push(t@));
}

/// Splits a line into its whitespace-separated tokens.
pub fn tokenize(s: &str) -> (toks: Vec<String>)
    ensures
        toks_view(toks@) == tokens_of(s@),
{
    let n = s.unicode_len();
    let mut toks: Vec<String> = Vec::new();
    let mut in_tok = false;
    let mut t0: usize = 0;
    let mut i: usize = 0;
    proof {
        assert(s@.take(0) =~= Seq::<char>::empty());
        assert(toks_view(toks@) =~= tokens_of(s@.take(0)));
    }
    while i < n
        invariant
            i <= n,
            n == s@.len(),
            in_tok ==> t0 < i && (forall|j: int| t0 <= j < i ==> !is_space(s@[j])) && (t0 == 0
                || is_space(s@[t0 - 1])) && tokens_of(s@.take(i as int)) == toks_view(toks@).push(
                s@.subrange(t0 as int, i as int),
            ),
            !in_tok ==> (i == 0 || is_space(s@[i - 1])) && tokens_of(s@.take(i as int))
                == toks_view(toks@),
        decreases n - i,
    {
        proof {
            assert(s@.take(i + 1).drop_last() =~= s@.take(i as int));
            assert(s@.take(i + 1).last() == s@[i as int]);
        }
        let c = s.get_char(i);
        let space = c == ' ' || c == '\t' || c == '\n' || c == '\r' || c == '\x0C';
        if in_tok {
            let ghost cur = s@.subrange(t0 as int, i as int);
            if space {
                let seg = s.substring_char(t0, i);
                let ghost prev_toks = toks@;
                toks.push(seg.to_owned());
                proof {
                    assert(seg@ =~= cur);
                    lemma_toks_push(prev_toks, toks@.last());
                }
                in_tok = false;
            } else {
                proof {
                    let prev = tokens_of(s@.take(i as int));
                    assert(prev.last() == cur);
                    assert(cur.push(s@[i as int]) =~= s@.subrange(t0 as int, i + 1));
                    assert(prev.update(prev.len() - 1, cur.push(s@[i as int])) =~= toks_view(
                        toks@,
                    ).push(s@.subrange(t0 as int, i + 1)));
                }
            }
        } else {
            if !space {
                t0 = i;
                in_tok = true;
                proof {
                    assert(s@.subrange(i as int, i + 1) =~= seq![s@[i as int]]);
                }
            }
        }
        i += 1;
    }
    proof {
        assert(s@.take(n as int) =~= s@);
    }
    if in_tok {
        let seg = s.substring_char(t0, n);
        let ghost prev_toks = toks@;
        toks.push(seg.to_owned());
        proof {
            assert(seg@ =~= s@.subrange(t0 as int, n as int));
            lemma_toks_push(prev_toks, toks@.last());
        }
    }
    toks
}

/// The `open` scan: `--name` takes the next token (the last such wins),
/// every other token joins the URL, single-space separated.
pub open spec fn open_scan(toks: Seq<Seq<char>>, url: Seq<char>, name: Option<Seq<char>>) -> (
    Seq<char>,
    Option<Seq<char>>,
)
    decreases toks.len(),
{
    if toks.len() == 0 {
        (url, name)
    } else if toks[0] == "--name"@ && toks.len() >= 2 {
        open_scan(toks.skip(2), url, Some(toks[1]))
    } else {
        open_scan(
            toks.skip(1),
            if url.len() == 0 {
                toks[0]
            } else {
                url + " "@ + toks[0]
            },
            name,
        )
    }
}

/// The tokens that are not the `--color` flag.
pub open spec fn non_color_toks(toks: Seq<Seq<char>>) -> Seq<Seq<char>>
    decreases toks.len(),
{
    if toks.len() == 0 {
        Seq::empty()
    } else {
        let prev = non_color_toks(toks.drop_last());
        if toks.last() == "--color"@ {
            prev
        } else {
            prev.push(toks.last())
        }
    }
}

/// Segments rejoined with `/` between them.
pub open spec fn join_slash(ps: Seq<Seq<char>>) -> Seq<char>
    decreases ps.len(),
{
    if ps.len() == 0 {
        Seq::empty()
    } else if ps.len() == 1 {
        ps[0]
    } else {
        join_slash(ps.drop_last()) + "/"@ + ps.last()
    }
}

/// A token split at its first `=`, or dropped when it has none.
pub open spec fn eq_split(t: Seq<char>) -> Option<(Seq<char>, Seq<char>)> {
    match find_char(t, '=') {
        Some(i) => Some((t.take(i), t.skip(i + 1))),
        None => None,
    }
}

/// The `key=value` pairs among the tokens, in order; tokens without `=` are
/// dropped.
pub open spec fn kv_pairs(toks: Seq<Seq<char>>) -> Seq<(Seq<char>, Seq<char>)>
    decreases toks.len(),
{
    if toks.len() == 0 {
        Seq::empty()
    } else {
        let prev = kv_pairs(toks.drop_last());
        match eq_split(toks.last()) {
            Some(p) => prev.push(p),
            None => prev,
        }
    }
}

/// The `fork` scan: `--name` takes the next token, `key=value` tokens
/// gather as form data, anything else is ignored.
pub open spec fn fork_scan(
    toks: Seq<Seq<char>>,
    name: Option<Seq<char>>,
    data: Seq<(Seq<char>, Seq<char>)>,
) -> (Option<Seq<char>>, Seq<(Seq<char>, Seq<char>)>)
    decreases toks.len(),
{
    if toks.len() == 0 {
        (name, data)
    } else if toks[0] == "--name"@ && toks.len() >= 2 {
        fork_scan(toks.skip(2), Some(toks[1]), data)
    } else {
        match eq_split(toks[0]) {
            Some(p) => fork_scan(toks.skip(1), name, data.push(p)),
            None => fork_scan(toks.skip(1), name, data),
        }
    }
}

proof fn lemma_pairs_push(v: Seq<(String, String)>, p: (String, String))
    ensures
        pairs_view(v.push(p)) == pairs_view(v).push((p.0@, p.1@)),
{
    assert(pairs_view(v.push(p)) =~= pairs_view(v).push((p.0@, p.1@)));
}

fn parse_open(toks: &Vec<String>) -> (r: DaemonCommand)
    requires
        toks@.len() >= 1,
    ensures
        ({
            let res = open_scan(toks_view(toks@).skip(1), Seq::empty(), None);
            r@ == (CommandView::Open { url: res.0, name: res.1 })
        }),
{
    let ghost tv = toks_view(toks@);
    let mut url = String::new();
    let mut name: Option<String> = None;
    let mut i: usize = 1;
    while i < toks.len()
        invariant
            1 <= i <= toks@.len(),
            tv == toks_view(toks@),
            open_scan(tv.skip(i as int), url@, opt_str_view(name)) == open_scan(
                tv.skip(1),
                Seq::empty(),
                None,
            ),
        decreases toks@.len() - i,
    {
        proof {
            assert(tv.skip(i as int)[0] == toks@[i as int]@);
            if i + 1 < toks@.len() {
                assert(tv.skip(i as int)[1] == toks@[i + 1]@);
            }
            assert(tv.skip(i as int).skip(1) =~= tv.skip(i + 1));
            if i + 2 <= toks@.len() {
                assert(tv.skip(i as int).skip(2) =~= tv.skip(i + 2));
            }
        }
        if str_eq(toks[i].as_str(), "--name") && i + 1 < toks.len() {
            name = Some(toks[i + 1].clone());
            i += 2;
        } else {
            let ghost old_url = url@;
            if !url.as_str().is_empty() {
                url.append(" ");
            }
            url.append(toks[i].as_str());
            proof {
                if old_url.len() == 0 {
                    assert(url@ =~= toks@[i as int]@);
                } else {
                    assert(url@ =~= old_url + " "@ + toks@[i as int]@);
                }
            }
            i += 1;
        }
    }
    proof {
        assert(tv.skip(toks@.len() as int).len() == 0);
    }
    DaemonCommand::Open { url, name }
}

fn has_color_flag(toks: &Vec<String>) -> (r: bool)
    ensures
        r == toks_view(toks@).contains("--color"@),
{
    let ghost tv = toks_view(toks@);
    let mut j: usize = 0;
    while j < toks.len()
        invariant
            j <= toks@.len(),
            tv == toks_view(toks@),
            forall|k: int| 0 <= k < j ==> tv[k] != "--color"@,
        decreases toks@.len() - j,
    {
        proof {
            assert(tv[j as int] == toks@[j as int]@);
        }
        if str_eq(toks[j].as_str(), "--color") {
            proof {
                assert(tv[j as int] == "--color"@);
            }
            return true;
        }
        j += 1;
    }
    proof {
        assert(!tv.contains("--color"@)) by {
            if tv.contains("--color"@) {
                let k = choose|k: int| 0 <= k < tv.len() && tv[k] == "--color"@;
                assert(tv[k] != "--color"@);
            }
        }
    }
    false
}

fn parse_show(toks: &Vec<String>) -> (r: DaemonCommand)
    requires
        toks@.len() >= 2,
    ensures
        ({
            let tv = toks_view(toks@);
            let ps = non_color_toks(tv.skip(2));
            r@ == (CommandView::Show {
                tab: tv[1],
                path: if ps.len() == 0 {
                    None
                } else {
                    Some(join_slash(ps))
                },
                color: tv.contains("--color"@),
            })
        }),
{
    let ghost tv = toks_view(toks@);
    proof {
        assert(tv[1] == toks@[1]@);
    }
    let tab = toks[1].clone();
    let color = has_color_flag(toks);
    let mut path = String::new();
    let mut cnt: usize = 0;
    let mut j: usize = 2;
    proof {
        assert(tv.subrange(2, 2) =~= Seq::<Seq<char>>::empty());
    }
    while j < toks.len()
        invariant
            2 <= j <= toks@.len(),
            tv == toks_view(toks@),
            cnt <= j,
            cnt == non_color_toks(tv.subrange(2, j as int)).len(),
            path@ == join_slash(non_color_toks(tv.subrange(2, j as int))),
        decreases toks@.len() - j,
    {
        let ghost ps = non_color_toks(tv.subrange(2, j as int));
        proof {
            assert(tv[j as int] == toks@[j as int]@);
            assert(tv.subrange(2, j + 1).drop_last() =~= tv.subrange(2, j as int));
            assert(tv.subrange(2, j + 1).last() == tv[j as int]);
        }
        if !str_eq(toks[j].as_str(), "--color") {
            let ghost old_path = path@;
            if cnt > 0 {
                path.append("/");
            }
            path.append(toks[j].as_str());
            proof {
                if ps.len() == 0 {
                    assert(path@ =~= tv[j as int]);
                } else {
                    assert(path@ =~= join_slash(ps) + "/"@ + tv[j as int]);
                }
                assert(ps.push(tv[j as int]).drop_last() =~= ps);
            }
            cnt += 1;
        }
        j += 1;
    }
    proof {
        assert(tv.subrange(2, toks@.len() as int) =~= tv.skip(2));
    }
    let path_opt = if cnt == 0 {
        None
    } else {
        Some(path)
    };
    DaemonCommand::Show { tab, path: path_opt, color }
}

fn parse_kv_pairs(toks: &Vec<String>, from: usize) -> (data: Vec<(String, String)>)
    requires
        from <= toks@.len(),
    ensures
        pairs_view(data@) == kv_pairs(toks_view(toks@).skip(from as int)),
{
    let ghost tv = toks_view(toks@);
    let mut data: Vec<(String, String)> = Vec::new();
    let mut j: usize = from;
    proof {
        assert(tv.subrange(from as int, from as int) =~= Seq::<Seq<char>>::empty());
        assert(pairs_view(data@) =~= kv_pairs(tv.subrange(from as int, from as int)));
    }
    while j < toks.len()
        invariant
            from <= j <= toks@.len(),
            tv == toks_view(toks@),
            pairs_view(data@) == kv_pairs(tv.subrange(from as int, j as int)),
        decreases toks@.len() - j,
    {
        proof {
            assert(tv[j as int] == toks@[j as int]@);
            assert(tv.subrange(from as int, j + 1).drop_last() =~= tv.subrange(
                from as int,
                j as int,
            ));
            assert(tv.subrange(from as int, j + 1).last() == tv[j as int]);
        }
        let tok = &toks[j];
        match find_char_at(tok.as_str(), '=') {
            Some(p) => {
                proof {
                    crate::text::lemma_find_char(tv[j as int], '=');
                }
                let len_j = tok.as_str().unicode_len();
                let k = tok.as_str().substring_char(0, p);
                let v = tok.as_str().substring_char(p + 1, len_j);
                let ghost prev_data = data@;
                data.push((k.to_owned(), v.to_owned()));
                proof {
                    crate::text::lemma_find_char(tv[j as int], '=');
                    assert(k@ =~= tv[j as int].take(find_char(tv[j as int], '=')->0));
                    assert(v@ =~= tv[j as int].skip(find_char(tv[j as int], '=')->0 + 1));
                    lemma_pairs_push(prev_data, data@.last());
                }
            },
            None => {},
        }
        j += 1;
    }
    proof {
        assert(tv.subrange(from as int, toks@.len() as int) =~= tv.skip(from as int));
    }
    data
}

fn parse_fork(toks: &Vec<String>) -> (r: DaemonCommand)
    requires
        toks@.len() >= 3,
    ensures
        ({
            let tv = toks_view(toks@);
            let res = fork_scan(tv.skip(3), None, Seq::empty());
            r@ == (CommandView::Fork { tab: tv[1], path: tv[2], name: res.0, data: res.1 })
        }),
{
    let ghost tv = toks_view(toks@);
    proof {
        assert(tv[1] == toks@[1]@);
        assert(tv[2] == toks@[2]@);
    }
    let tab = toks[1].clone();
    let path = toks[2].clone();
    let mut name: Option<String> = None;
    let mut data: Vec<(String, String)> = Vec::new();
    let mut i: usize = 3;
    proof {
        assert(pairs_view(data@) =~= Seq::<(Seq<char>, Seq<char>)>::empty());
    }
    while i < toks.len()
        invariant
            3 <= i <= toks@.len(),
            tv == toks_view(toks@),
            fork_scan(tv.skip(i as int), opt_str_view(name), pairs_view(data@)) == fork_scan(
                tv.skip(3),
                None,
                Seq::empty(),
            ),
        decreases toks@.len() - i,
    {
        proof {
            assert(tv.skip(i as int)[0] == toks@[i as int]@);
            if i + 1 < toks@.len() {
                assert(tv.skip(i as int)[1] == toks@[i + 1]@);
            }
            assert(tv.skip(i as int).skip(1) =~= tv.skip(i + 1));
            if i + 2 <= toks@.len() {
                assert(tv.skip(i as int).skip(2) =~= tv.skip(i + 2));
            }
        }
        if str_eq(toks[i].as_str(), "--name") && i + 1 < toks.len() {
            name = Some(toks[i + 1].clone());
            i += 2;
        } else {
            let tok = &toks[i];
            match find_char_at(tok.as_str(), '=') {
                Some(p) => {
                    proof {
                        crate::text::lemma_find_char(tv[i as int], '=');
                    }
                    let len_i = tok.as_str().unicode_len();
                    let k = tok.as_str().substring_char(0, p);
                    let v = tok.as_str().substring_char(p + 1, len_i);
                    let ghost prev_data = data@;
                    data.push((k.to_owned(), v.to_owned()));
                    proof {
                        crate::text::lemma_find_char(tv[i as int], '=');
                        assert(k@ =~= tv[i as int].take(find_char(tv[i as int], '=')->0));
                        assert(v@ =~= tv[i as int].skip(find_char(tv[i as int], '=')->0 + 1));
                        lemma_pairs_push(prev_data, data@.last());
                    }
                },
                None => {},
            }
            i += 1;
        }
    }
    proof {
        assert(tv.skip(toks@.len() as int).len() == 0);
    }
    DaemonCommand::Fork { tab, path, name, data }
}

/// The command a token list denotes, verb by verb, or `None` where the verb
/// is unknown or a required argument is missing.  `set` demands exactly its
/// three arguments; `close`, `name`, `tabs` and `shutdown` ignore extras.
pub open spec fn cmd_of_tokens(toks: Seq<Seq<char>>) -> Option<CommandView> {
    if toks.len() == 0 {
        None
    } else if toks[0] == "open"@ {
        let r = open_scan(toks.skip(1), Seq::empty(), None);
        Some(CommandView::Open { url: r.0, name: r.1 })
    } else if toks[0] == "show"@ {
        if toks.len() >= 2 {
            let ps = non_color_toks(toks.skip(2));
            Some(
                CommandView::Show {
                    tab: toks[1],
                    path: if ps.len() == 0 {
                        None
                    } else {
                        Some(join_slash(ps))
                    },
                    color: toks.contains("--color"@),
                },
            )
        } else {
            None
        }
    } else if toks[0] == "set"@ {
        if toks.len() == 4 {
            Some(CommandView::SetValue { tab: toks[1], path: toks[2], value: toks[3] })
        } else {
            None
        }
    } else if toks[0] == "use"@ {
        if toks.len() >= 3 {
            Some(CommandView::Use { tab: toks[1], path: toks[2], data: kv_pairs(toks.skip(3)) })
        } else {
            None
        }
    } else if toks[0] == "fork"@ {
        if toks.len() >= 3 {
            let r = fork_scan(toks.skip(3), None, Seq::empty());
            Some(CommandView::Fork { tab: toks[1], path: toks[2], name: r.0, data: r.1 })
        } else {
            None
        }
    } else if toks[0] == "close"@ {
        if toks.len() >= 2 {
            Some(CommandView::Close { tab: toks[1] })
        } else {
            None
        }
    } else if toks[0] == "name"@ {
        if toks.len() >= 3 {
            Some(CommandView::Name { tab: toks[1], name: toks[2] })
        } else {
            None
        }
    } else if toks[0] == "tabs"@ {
        Some(CommandView::Tabs)
    } else if toks[0] == "shutdown"@ {
        Some(CommandView::Shutdown)
    } else {
        None
    }
}

/// Parses one protocol line into a command, exactly as `cmd_of_tokens`
/// describes over the line's whitespace tokens; malformed input gives
/// `None`.
pub fn parse_command(input: &str) -> (r: Option<DaemonCommand>)
    ensures
        match r {
            Some(c) => cmd_of_tokens(tokens_of(input@)) == Some(c@),
            None => cmd_of_tokens(tokens_of(input@)) is None,
        },
{
    let toks = tokenize(input);
    let ghost tv = toks_view(toks@);
    if toks.len() == 0 {
        return None;
    }
    proof {
        assert(tv[0] == toks@[0]@);
        if toks@.len() >= 2 {
            assert(tv[1] == toks@[1]@);
        }
        if toks@.len() >= 3 {
            assert(tv[2] == toks@[2]@);
        }
        if toks@.len() >= 4 {
            assert(tv[3] == toks@[3]@);
        }
    }
    let verb = &toks[0];
    if str_eq(verb.as_str(), "open") {
        Some(parse_open(&toks))
    } else if str_eq(verb.as_str(), "show") {
        if toks.len() >= 2 {
            Some(parse_show(&toks))
        } else {
            None
        }
    } else if str_eq(verb.as_str(), "set") {
        if toks.len() == 4 {
            Some(
                DaemonCommand::SetValue {
                    tab: toks[1].clone(),
                    path: toks[2].clone(),
                    value: toks[3].clone(),
                },
            )
        } else {
            None
        }
    } else if str_eq(verb.as_str(), "use") {
        if toks.len() >= 3 {
            let data = parse_kv_pairs(&toks, 3);
            Some(
                DaemonCommand::Use { tab: toks[1].clone(), path: toks[2].clone(), data },
            )
        } else {
            None
        }
    } else if str_eq(verb.as_str(), "fork") {
        if toks.len() >= 3 {
            Some(parse_fork(&toks))
        } else {
            None
        }
    } else if str_eq(verb.as_str(), "close") {
        if toks.len() >= 2 {
            Some(DaemonCommand::Close { tab: toks[1].clone() })
        } else {
            None
        }
    } else if str_eq(verb.as_str(), "name") {
        if toks.len() >= 3 {
            Some(DaemonCommand::Name { tab: toks[1].clone(), name: toks[2].clone() })
        } else {
            None
        }
    } else if str_eq(verb.as_str(), "tabs") {
        Some(DaemonCommand::Tabs)
    } else if str_eq(verb.as_str(), "shutdown") {
        Some(DaemonCommand::Shutdown)
    } else {
        None
    }
}

} // verus!
