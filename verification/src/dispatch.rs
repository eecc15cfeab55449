//! The dispatcher: executes one command against the tab registry.
//!
//! Commands mutate the registry here; everything the renderer must do comes
//! back as a list of actions for the owning loop to perform.  A `Show`
//! produces no response yet — its reply is formatted from the renderer's
//! answer by the diagnostics module once the query completes.

use vstd::prelude::*;
use vstd::string::StringExecFns;

use crate::command::{opt_str_view, CommandView, DaemonCommand};
use crate::nums::{dec_nat, push_dec_u64};
use crate::registry::{
    has_name, normalize_url, resolve_ref, url_parse_err, RegistryError, Tab, TabRegistry,
};

verus! {

/// One piece of renderer work the owning loop must perform.
pub enum Action {
    /// Create the view backing the tab at `index`, loading `url`.
    CreateView { index: usize, url: String },
    /// Drop the view backing the tab that was at `index`.
    CloseView { index: usize },
    /// Feed one input value to the document of the tab at `index`.
    Input { index: usize, path: String, value: String },
    /// Trigger the control at `path` in the tab at `index`.
    Invoke { index: usize, path: String },
    /// Re-read the tab's location once its navigation settles.
    RefreshUrl { index: usize },
    /// Ask the tab's document and answer the waiting client with it.
    QueryDocument { index: usize, path: Option<String>, color: bool },
}

pub enum ActionView {
    CreateView { index: int, url: Seq<char> },
    CloseView { index: int },
    Input { index: int, path: Seq<char>, value: Seq<char> },
    Invoke { index: int, path: Seq<char> },
    RefreshUrl { index: int },
    QueryDocument { index: int, path: Option<Seq<char>>, color: bool },
}

impl View for Action {
    type V = ActionView;

    open spec fn view(&self) -> ActionView {
        match self {
            Action::CreateView { index, url } => ActionView::CreateView {
                index: *index as int,
                url: url@,
            },
            Action::CloseView { index } => ActionView::CloseView { index: *index as int },
            Action::Input { index, path, value } => ActionView::Input {
                index: *index as int,
                path: path@,
                value: value@,
            },
            Action::Invoke { index, path } => ActionView::Invoke {
                index: *index as int,
                path: path@,
            },
            Action::RefreshUrl { index } => ActionView::RefreshUrl { index: *index as int },
            Action::QueryDocument { index, path, color } => ActionView::QueryDocument {
                index: *index as int,
                path: opt_str_view(*path),
                color: *color,
            },
        }
    }
}

pub open spec fn acts_view(a: Seq<Action>) -> Seq<ActionView> {
    a.map_values(|x: Action| x@)
}

proof fn lemma_acts_push(a: Seq<Action>, x: Action)
    ensures
        acts_view(a.push(x)) == acts_view(a).push(x@),
{
    assert(acts_view(a.push(x)) =~= acts_view(a).push(x@));
}

/// What one command produced: the response text (`None` while a renderer
/// query is still pending), the renderer work, and whether the daemon is to
/// exit.
pub struct Outcome {
    pub response: Option<String>,
    pub actions: Vec<Action>,
    pub shutdown: bool,
}

pub open spec fn resp_is(o: Option<String>, t: Seq<char>) -> bool {
    o matches Some(s) && s@ == t
}

pub open spec fn not_found_msg(t: Seq<char>) -> Seq<char> {
    "Tab '"@ + t + "' not found\n"@
}

pub open spec fn name_in_use_msg(n: Seq<char>) -> Seq<char> {
    "Tab name '"@ + n + "' already in use\n"@
}

pub open spec fn invalid_url_msg(e: Seq<char>) -> Seq<char> {
    "Invalid URL: "@ + e + "\n"@
}

/// The human label of a tab: its 1-based position, with the name after it.
pub open spec fn display_label(pos: nat, name: Option<Seq<char>>) -> Seq<char> {
    match name {
        Some(n) => dec_nat(pos) + " ("@ + n + ")"@,
        None => dec_nat(pos),
    }
}

pub open spec fn opened_msg(label: Seq<char>, url: Seq<char>) -> Seq<char> {
    "Opened tab "@ + label + " at "@ + url + "\n"@
}

pub open spec fn forked_msg(label: Seq<char>) -> Seq<char> {
    "Forked to tab "@ + label + "\n"@
}

pub open spec fn closed_msg(t: Seq<char>) -> Seq<char> {
    "Closed tab '"@ + t + "'\n"@
}

pub open spec fn renamed_msg(pos: nat, n: Seq<char>) -> Seq<char> {
    "Tab "@ + dec_nat(pos) + " renamed to '"@ + n + "'\n"@
}

/// The input events a `use` command sends before invoking its control: one
/// per data pair, in argument order, each at `path/key`.
pub open spec fn input_actions(idx: int, path: Seq<char>, data: Seq<(Seq<char>, Seq<char>)>) -> Seq<
    ActionView,
>
    decreases data.len(),
{
    if data.len() == 0 {
        Seq::empty()
    } else {
        input_actions(idx, path, data.drop_last()).push(
            (ActionView::Input {
                index: idx,
                path: path + "/"@ + data.last().0,
                value: data.last().1,
            }),
        )
    }
}

fn label_string(pos1: usize, name: &Option<String>) -> (r: String)
    ensures
        r@ == display_label(pos1 as nat, opt_str_view(*name)),
{
    let mut out = String::new();
    push_dec_u64(&mut out, pos1 as u64);
    match name {
        Some(n) => {
            out.append(" (");
            out.append(n.as_str());
            out.append(")");
            proof {
                assert(out@ =~= display_label(pos1 as nat, opt_str_view(*name)));
            }
        },
        None => {},
    }
    out
}

fn msg_wrap(before: &str, mid: &str, after: &str) -> (r: String)
    ensures
        r@ == before@ + mid@ + after@,
{
    let mut out = String::new();
    out.append(before);
    out.append(mid);
    out.append(after);
    proof {
        assert(out@ =~= before@ + mid@ + after@);
    }
    out
}

fn clone_opt(o: &Option<String>) -> (r: Option<String>)
    ensures
        r == *o,
{
    match o {
        Some(s) => Some(s.clone()),
        None => None,
    }
}

/// Executes one command against the registry.  Every case of the response,
/// the registry change and the renderer actions is pinned down per verb.
pub fn dispatch(reg: &mut TabRegistry, cmd: DaemonCommand) -> (r: Outcome)
    requires
        old(reg).wf(),
        old(reg).next_id < usize::MAX,
    ensures
        final(reg).wf(),
        r.shutdown == (cmd@ is Shutdown),
        ({
            let tabs0 = old(reg).tabs@;
            match cmd@ {
                CommandView::Open { url, name } => {
                    let full = normalize_url(url);
                    if name matches Some(n) && has_name(tabs0, n) {
                        resp_is(r.response, name_in_use_msg(name->0)) && *final(reg) == *old(reg)
                            && r.actions@.len() == 0
                    } else if url_parse_err(full) is Some {
                        resp_is(r.response, invalid_url_msg(url_parse_err(full)->0)) && *final(reg)
                            == *old(reg) && r.actions@.len() == 0
                    } else {
                        resp_is(r.response, opened_msg(display_label(tabs0.len() + 1, name), url))
                            && final(reg).tabs@.len() == tabs0.len() + 1 && (forall|j: int|
                            0 <= j < tabs0.len() ==> final(reg).tabs@[j] == tabs0[j]) && final(reg).tabs@.last().url@ == full && opt_str_view(final(reg).tabs@.last().name)
                            == name && final(reg).tabs@.last().id == old(reg).next_id && final(reg).next_id == old(reg).next_id + 1 && acts_view(r.actions@) == seq![
                            (ActionView::CreateView { index: tabs0.len() as int, url: full }),
                        ]
                    }
                },
                CommandView::Show { tab, path, color } => match resolve_ref(tabs0, tab) {
                    Some(i) => r.response is None && *final(reg) == *old(reg) && acts_view(
                        r.actions@,
                    ) == seq![(ActionView::QueryDocument { index: i, path: path, color: color })],
                    None => resp_is(r.response, not_found_msg(tab)) && *final(reg) == *old(reg)
                        && r.actions@.len() == 0,
                },
                CommandView::SetValue { tab, path, value } => match resolve_ref(tabs0, tab) {
                    Some(i) => resp_is(r.response, Seq::empty()) && *final(reg) == *old(reg)
                        && acts_view(r.actions@) == seq![
                        (ActionView::Input { index: i, path: path, value: value }),
                    ],
                    None => resp_is(r.response, not_found_msg(tab)) && *final(reg) == *old(reg)
                        && r.actions@.len() == 0,
                },
                CommandView::Use { tab, path, data } => match resolve_ref(tabs0, tab) {
                    Some(i) => resp_is(r.response, Seq::empty()) && *final(reg) == *old(reg)
                        && acts_view(r.actions@) == input_actions(i, path, data).push(
                        (ActionView::Invoke { index: i, path: path }),
                    ).push((ActionView::RefreshUrl { index: i })),
                    None => resp_is(r.response, not_found_msg(tab)) && *final(reg) == *old(reg)
                        && r.actions@.len() == 0,
                },
                CommandView::Fork { tab, path, name, data } => {
                    if name matches Some(n) && has_name(tabs0, n) {
                        resp_is(r.response, name_in_use_msg(name->0)) && *final(reg) == *old(reg)
                            && r.actions@.len() == 0
                    } else {
                        match resolve_ref(tabs0, tab) {
                            None => resp_is(r.response, not_found_msg(tab)) && *final(reg) == *old(reg) && r.actions@.len() == 0,
                            Some(i) => {
                                let src = tabs0[i].url;
                                if url_parse_err(src@) is Some {
                                    resp_is(
                                        r.response,
                                        invalid_url_msg(url_parse_err(src@)->0),
                                    ) && *final(reg) == *old(reg) && r.actions@.len() == 0
                                } else {
                                    resp_is(
                                        r.response,
                                        forked_msg(display_label(tabs0.len() + 1, name)),
                                    ) && final(reg).tabs@ == tabs0.push(
                                        (Tab {
                                            id: old(reg).next_id,
                                            url: src,
                                            name: final(reg).tabs@.last().name,
                                        }),
                                    ) && opt_str_view(final(reg).tabs@.last().name) == name
                                        && final(reg).next_id == old(reg).next_id + 1 && acts_view(
                                        r.actions@,
                                    ) == seq![
                                        (ActionView::CreateView {
                                            index: tabs0.len() as int,
                                            url: src@,
                                        }),
                                    ]
                                }
                            },
                        }
                    }
                },
                CommandView::Close { tab } => match resolve_ref(tabs0, tab) {
                    Some(i) => resp_is(r.response, closed_msg(tab)) && final(reg).tabs@
                        == tabs0.remove(i) && final(reg).next_id == old(reg).next_id && acts_view(
                        r.actions@,
                    ) == seq![(ActionView::CloseView { index: i })],
                    None => resp_is(r.response, not_found_msg(tab)) && *final(reg) == *old(reg)
                        && r.actions@.len() == 0,
                },
                CommandView::Name { tab, name } => {
                    if has_name(tabs0, name) {
                        resp_is(r.response, name_in_use_msg(name)) && *final(reg) == *old(reg)
                            && r.actions@.len() == 0
                    } else {
                        match resolve_ref(tabs0, tab) {
                            Some(i) => resp_is(r.response, renamed_msg((i + 1) as nat, name))
                                && final(reg).tabs@.len() == tabs0.len() && (forall|j: int|
                                0 <= j < tabs0.len() && j != i ==> final(reg).tabs@[j]
                                    == tabs0[j]) && final(reg).tabs@[i].id == tabs0[i].id && final(reg).tabs@[i].url == tabs0[i].url && opt_str_view(final(reg).tabs@[i].name)
                                == Some(name) && final(reg).next_id == old(reg).next_id
                                && r.actions@.len() == 0,
                            None => resp_is(r.response, not_found_msg(tab)) && *final(reg) == *old(reg) && r.actions@.len() == 0,
                        }
                    }
                },
                CommandView::Tabs => resp_is(r.response, crate::registry::list_text(tabs0))
                    && *final(reg) == *old(reg) && r.actions@.len() == 0,
                CommandView::Shutdown => resp_is(r.response, Seq::empty()) && *final(reg) == *old(reg) && r.actions@.len() == 0,
            }
        }),
{
    match cmd {
        DaemonCommand::Open { url, name } => {
            match &name {
                Some(n) => {
                    if reg.name_in_use(n.as_str()) {
                        let resp = msg_wrap("Tab name '", n.as_str(), "' already in use\n");
                        return Outcome {
                            response: Some(resp),
                            actions: Vec::new(),
                            shutdown: false,
                        };
                    }
                },
                None => {},
            }
            let name2 = clone_opt(&name);
            match reg.open_tab(url.as_str(), name) {
                Err(e) => {
                    match e {
                        RegistryError::InvalidUrl(t) => {
                            let resp = msg_wrap("Invalid URL: ", t.as_str(), "\n");
                            Outcome { response: Some(resp), actions: Vec::new(), shutdown: false }
                        },
                        _ => {
                            proof {
                                assert(false);
                            }
                            Outcome { response: None, actions: Vec::new(), shutdown: false }
                        },
                    }
                },
                Ok(pos) => {
                    let pos1 = reg.tabs.len();
                    let label = label_string(pos1, &name2);
                    let mut resp = String::new();
                    resp.append("Opened tab ");
                    resp.append(label.as_str());
                    resp.append(" at ");
                    resp.append(url.as_str());
                    resp.append("\n");
                    let full = reg.tabs[pos].url.clone();
                    let mut actions: Vec<Action> = Vec::new();
                    let ghost no_acts = actions@;
                    actions.push(Action::CreateView { index: pos, url: full });
                    proof {
                        lemma_acts_push(no_acts, actions@.last());
                        assert(acts_view(actions@) =~= seq![
                            (ActionView::CreateView {
                                index: old(reg).tabs@.len() as int,
                                url: normalize_url(url@),
                            }),
                        ]);
                        assert(resp@ =~= opened_msg(
                            display_label(old(reg).tabs@.len() + 1, opt_str_view(name2)),
                            url@,
                        ));
                    }
                    Outcome { response: Some(resp), actions, shutdown: false }
                },
            }
        },
        DaemonCommand::Show { tab, path, color } => {
            match reg.resolve(tab.as_str()) {
                Some(idx) => {
                    let mut actions: Vec<Action> = Vec::new();
                    let ghost no_acts = actions@;
                    actions.push(Action::QueryDocument { index: idx, path, color });
                    proof {
                        lemma_acts_push(no_acts, actions@.last());
                        assert(acts_view(no_acts) =~= Seq::<ActionView>::empty());
                    }
                    Outcome { response: None, actions, shutdown: false }
                },
                None => Outcome {
                    response: Some(msg_wrap("Tab '", tab.as_str(), "' not found\n")),
                    actions: Vec::new(),
                    shutdown: false,
                },
            }
        },
        DaemonCommand::SetValue { tab, path, value } => {
            match reg.resolve(tab.as_str()) {
                Some(idx) => {
                    let mut actions: Vec<Action> = Vec::new();
                    let ghost no_acts = actions@;
                    actions.push(Action::Input { index: idx, path, value });
                    proof {
                        lemma_acts_push(no_acts, actions@.last());
                        assert(acts_view(no_acts) =~= Seq::<ActionView>::empty());
                    }
                    Outcome { response: Some(String::new()), actions, shutdown: false }
                },
                None => Outcome {
                    response: Some(msg_wrap("Tab '", tab.as_str(), "' not found\n")),
                    actions: Vec::new(),
                    shutdown: false,
                },
            }
        },
        DaemonCommand::Use { tab, path, data } => {
            match reg.resolve(tab.as_str()) {
                Some(idx) => {
                    let ghost dv = crate::command::pairs_view(data@);
                    let mut actions: Vec<Action> = Vec::new();
                    let mut k: usize = 0;
                    proof {
                        assert(dv.subrange(0, 0) =~= Seq::<(Seq<char>, Seq<char>)>::empty());
                        assert(acts_view(actions@) =~= input_actions(
                            idx as int,
                            path@,
                            dv.subrange(0, 0),
                        ));
                    }
                    while k < data.len()
                        invariant
                            k <= data@.len(),
                            dv == crate::command::pairs_view(data@),
                            dv.len() == data@.len(),
                            acts_view(actions@) == input_actions(
                                idx as int,
                                path@,
                                dv.subrange(0, k as int),
                            ),
                        decreases data@.len() - k,
                    {
                        proof {
                            assert(dv[k as int] == (data@[k as int].0@, data@[k as int].1@));
                            assert(dv.subrange(0, k + 1).drop_last() =~= dv.subrange(0, k as int));
                            assert(dv.subrange(0, k + 1).last() == dv[k as int]);
                        }
                        let mut fp = path.clone();
                        fp.append("/");
                        fp.append(data[k].0.as_str());
                        proof {
                            assert(fp@ =~= path@ + "/"@ + dv[k as int].0);
                        }
                        let ghost prev_acts = actions@;
                        actions.push(
                            Action::Input { index: idx, path: fp, value: data[k].1.clone() },
                        );
                        proof {
                            lemma_acts_push(prev_acts, actions@.last());
                        }
                        k += 1;
                    }
                    proof {
                        assert(dv.subrange(0, data@.len() as int) =~= dv);
                    }
                    let ghost acts1 = actions@;
                    actions.push(Action::Invoke { index: idx, path });
                    proof {
                        lemma_acts_push(acts1, actions@.last());
                    }
                    let ghost acts2 = actions@;
                    actions.push(Action::RefreshUrl { index: idx });
                    proof {
                        lemma_acts_push(acts2, actions@.last());
                    }
                    Outcome { response: Some(String::new()), actions, shutdown: false }
                },
                None => Outcome {
                    response: Some(msg_wrap("Tab '", tab.as_str(), "' not found\n")),
                    actions: Vec::new(),
                    shutdown: false,
                },
            }
        },
        DaemonCommand::Fork { tab, name, .. } => {
            match &name {
                Some(n) => {
                    if reg.name_in_use(n.as_str()) {
                        let resp = msg_wrap("Tab name '", n.as_str(), "' already in use\n");
                        return Outcome {
                            response: Some(resp),
                            actions: Vec::new(),
                            shutdown: false,
                        };
                    }
                },
                None => {},
            }
            match reg.resolve(tab.as_str()) {
                None => Outcome {
                    response: Some(msg_wrap("Tab '", tab.as_str(), "' not found\n")),
                    actions: Vec::new(),
                    shutdown: false,
                },
                Some(idx) => {
                    let name2 = clone_opt(&name);
                    match reg.fork_tab(idx, name) {
                        Err(e) => {
                            match e {
                                RegistryError::InvalidUrl(t) => {
                                    let resp = msg_wrap("Invalid URL: ", t.as_str(), "\n");
                                    Outcome {
                                        response: Some(resp),
                                        actions: Vec::new(),
                                        shutdown: false,
                                    }
                                },
                                _ => {
                                    proof {
                                        assert(false);
                                    }
                                    Outcome {
                                        response: None,
                                        actions: Vec::new(),
                                        shutdown: false,
                                    }
                                },
                            }
                        },
                        Ok(pos) => {
                            let pos1 = reg.tabs.len();
                            let label = label_string(pos1, &name2);
                            let resp = msg_wrap("Forked to tab ", label.as_str(), "\n");
                            let src = reg.tabs[pos].url.clone();
                            let mut actions: Vec<Action> = Vec::new();
                            let ghost no_acts = actions@;
                            actions.push(Action::CreateView { index: pos, url: src });
                            proof {
                                lemma_acts_push(no_acts, actions@.last());
                                assert(acts_view(no_acts) =~= Seq::<ActionView>::empty());
                            }
                            Outcome { response: Some(resp), actions, shutdown: false }
                        },
                    }
                },
            }
        },
        DaemonCommand::Close { tab } => {
            match reg.resolve(tab.as_str()) {
                Some(idx) => {
                    reg.close_tab(idx);
                    let resp = msg_wrap("Closed tab '", tab.as_str(), "'\n");
                    let mut actions: Vec<Action> = Vec::new();
                    let ghost no_acts = actions@;
                    actions.push(Action::CloseView { index: idx });
                    proof {
                        lemma_acts_push(no_acts, actions@.last());
                        assert(acts_view(no_acts) =~= Seq::<ActionView>::empty());
                    }
                    Outcome { response: Some(resp), actions, shutdown: false }
                },
                None => Outcome {
                    response: Some(msg_wrap("Tab '", tab.as_str(), "' not found\n")),
                    actions: Vec::new(),
                    shutdown: false,
                },
            }
        },
        DaemonCommand::Name { tab, name } => {
            if reg.name_in_use(name.as_str()) {
                let resp = msg_wrap("Tab name '", name.as_str(), "' already in use\n");
                return Outcome { response: Some(resp), actions: Vec::new(), shutdown: false };
            }
            match reg.resolve(tab.as_str()) {
                Some(idx) => {
                    let nlen = reg.tabs.len();
                    proof {
                        assert(idx < nlen);
                    }
                    let pos1 = idx + 1;
                    let name2 = name.clone();
                    reg.rename_tab(idx, name);
                    let mut resp = String::new();
                    resp.append("Tab ");
                    push_dec_u64(&mut resp, pos1 as u64);
                    resp.append(" renamed to '");
                    resp.append(name2.as_str());
                    resp.append("'\n");
                    proof {
                        assert(resp@ =~= renamed_msg((idx + 1) as nat, name2@));
                    }
                    Outcome { response: Some(resp), actions: Vec::new(), shutdown: false }
                },
                None => Outcome {
                    response: Some(msg_wrap("Tab '", tab.as_str(), "' not found\n")),
                    actions: Vec::new(),
                    shutdown: false,
                },
            }
        },
        DaemonCommand::Tabs => {
            let resp = reg.list_tabs();
            Outcome { response: Some(resp), actions: Vec::new(), shutdown: false }
        },
        DaemonCommand::Shutdown => {
            Outcome { response: Some(String::new()), actions: Vec::new(), shutdown: true }
        },
    }
}

} // verus!
