//! The tab registry and the dispatcher, driven through the command protocol.

use mech::{dispatch, parse_command, Action, DaemonCommand, TabRegistry};

fn run(reg: &mut TabRegistry, line: &str) -> mech::Outcome {
    let cmd = parse_command(line).expect("line should parse");
    dispatch(reg, cmd)
}

fn open(reg: &mut TabRegistry, line: &str) -> String {
    let out = run(reg, line);
    out.response.expect("open answers at once")
}

#[test]
fn open_reports_position_and_url() {
    let mut reg = TabRegistry::new();
    let resp = open(&mut reg, "open example.com");
    assert_eq!(resp, "Opened tab 1 at example.com\n");
    assert_eq!(reg.tabs.len(), 1);
    // the registry stores the normalized URL
    assert_eq!(reg.tabs[0].url, "https://example.com");
    let resp2 = open(&mut reg, "open https://b.org --name work");
    assert_eq!(resp2, "Opened tab 2 (work) at https://b.org\n");
}

#[test]
fn open_duplicate_name_rejected() {
    let mut reg = TabRegistry::new();
    open(&mut reg, "open https://a.org --name notes");
    let resp = open(&mut reg, "open https://b.org --name notes");
    assert_eq!(resp, "Tab name 'notes' already in use\n");
    // exactly one tab carries the name
    let named: Vec<_> =
        reg.tabs.iter().filter(|t| t.name.as_deref() == Some("notes")).collect();
    assert_eq!(named.len(), 1);
    assert_eq!(reg.tabs.len(), 1);
}

#[test]
fn open_invalid_url_rejected() {
    let mut reg = TabRegistry::new();
    // "http://" alone has no host, so the URL check fails
    let resp = open(&mut reg, "open http://");
    assert!(resp.starts_with("Invalid URL: "));
    assert!(resp.ends_with("\n"));
    assert_eq!(reg.tabs.len(), 0);
}

#[test]
fn resolve_by_index_then_name() {
    let mut reg = TabRegistry::new();
    open(&mut reg, "open https://a.org --name first");
    open(&mut reg, "open https://b.org --name second");
    open(&mut reg, "open https://c.org --name third");
    assert_eq!(reg.resolve("1"), Some(0));
    assert_eq!(reg.resolve("3"), Some(2));
    assert_eq!(reg.resolve("0"), None);
    assert_eq!(reg.resolve("4"), None);
    assert_eq!(reg.resolve("second"), Some(1));
    assert_eq!(reg.resolve("nobody"), None);
}

#[test]
fn resolve_prefers_index_over_numeric_name() {
    let mut reg = TabRegistry::new();
    open(&mut reg, "open https://a.org --name 2");
    open(&mut reg, "open https://b.org");
    // "2" is a valid position, so the tab literally named "2" is shadowed
    assert_eq!(reg.resolve("2"), Some(1));
    // a leading plus sign still reads as position 2
    assert_eq!(reg.resolve("+2"), Some(1));
}

#[test]
fn close_shifts_later_positions() {
    let mut reg = TabRegistry::new();
    open(&mut reg, "open https://a.org");
    open(&mut reg, "open https://b.org");
    open(&mut reg, "open https://c.org");
    let out = run(&mut reg, "close 1");
    assert_eq!(out.response.unwrap(), "Closed tab '1'\n");
    assert_eq!(reg.tabs.len(), 2);
    assert_eq!(reg.tabs[0].url, "https://b.org");
    assert_eq!(reg.tabs[1].url, "https://c.org");
    // a stale reference to old position 2 now lands on what was position 3
    assert_eq!(reg.resolve("2"), Some(1));
    assert_eq!(reg.tabs[reg.resolve("2").unwrap()].url, "https://c.org");
}

#[test]
fn close_unknown_reports_not_found() {
    let mut reg = TabRegistry::new();
    let out = run(&mut reg, "close 7");
    assert_eq!(out.response.unwrap(), "Tab '7' not found\n");
}

#[test]
fn rename_and_collision() {
    let mut reg = TabRegistry::new();
    open(&mut reg, "open https://a.org");
    open(&mut reg, "open https://b.org --name busy");
    let out = run(&mut reg, "name 1 fresh");
    assert_eq!(out.response.unwrap(), "Tab 1 renamed to 'fresh'\n");
    assert_eq!(reg.tabs[0].name.as_deref(), Some("fresh"));
    let out2 = run(&mut reg, "name 1 busy");
    assert_eq!(out2.response.unwrap(), "Tab name 'busy' already in use\n");
    assert_eq!(reg.tabs[0].name.as_deref(), Some("fresh"));
}

#[test]
fn tabs_listing() {
    let mut reg = TabRegistry::new();
    let out = run(&mut reg, "tabs");
    assert_eq!(out.response.unwrap(), "No open tabs\n");
    open(&mut reg, "open https://a.org --name news");
    open(&mut reg, "open b.org");
    let out2 = run(&mut reg, "tabs");
    assert_eq!(out2.response.unwrap(), "1 (news)  https://a.org\n2  https://b.org\n");
}

#[test]
fn fork_copies_current_url() {
    let mut reg = TabRegistry::new();
    open(&mut reg, "open https://a.org --name base");
    let out = run(&mut reg, "fork base - --name copy");
    assert_eq!(out.response.unwrap(), "Forked to tab 2 (copy)\n");
    assert_eq!(reg.tabs.len(), 2);
    assert_eq!(reg.tabs[1].url, "https://a.org");
    assert_eq!(reg.tabs[1].name.as_deref(), Some("copy"));
    assert!(matches!(out.actions[0], Action::CreateView { index: 1, ref url } if url == "https://a.org"));
}

#[test]
fn fork_duplicate_name_rejected() {
    let mut reg = TabRegistry::new();
    open(&mut reg, "open https://a.org --name base");
    let out = run(&mut reg, "fork 1 - --name base");
    assert_eq!(out.response.unwrap(), "Tab name 'base' already in use\n");
    assert_eq!(reg.tabs.len(), 1);
}

#[test]
fn show_queues_query() {
    let mut reg = TabRegistry::new();
    open(&mut reg, "open https://a.org");
    let out = run(&mut reg, "show 1 nav/home --color");
    assert!(out.response.is_none());
    assert_eq!(out.actions.len(), 1);
    assert!(matches!(
        out.actions[0],
        Action::QueryDocument { index: 0, ref path, color: true } if path.as_deref() == Some("nav/home")
    ));
    let out2 = run(&mut reg, "show missing");
    assert_eq!(out2.response.unwrap(), "Tab 'missing' not found\n");
}

#[test]
fn use_sends_inputs_then_invokes() {
    let mut reg = TabRegistry::new();
    open(&mut reg, "open https://a.org");
    let out = run(&mut reg, "use 1 submit qty=5 side=buy");
    assert_eq!(out.response.unwrap(), "");
    assert_eq!(out.actions.len(), 4);
    assert!(matches!(
        out.actions[0],
        Action::Input { index: 0, ref path, ref value } if path == "submit/qty" && value == "5"
    ));
    assert!(matches!(
        out.actions[1],
        Action::Input { index: 0, ref path, ref value } if path == "submit/side" && value == "buy"
    ));
    assert!(matches!(out.actions[2], Action::Invoke { index: 0, ref path } if path == "submit"));
    assert!(matches!(out.actions[3], Action::RefreshUrl { index: 0 }));
}

#[test]
fn set_sends_single_input() {
    let mut reg = TabRegistry::new();
    open(&mut reg, "open https://a.org");
    let out = run(&mut reg, "set 1 market/ibm/quantity 100");
    assert_eq!(out.response.unwrap(), "");
    assert_eq!(out.actions.len(), 1);
    assert!(matches!(
        out.actions[0],
        Action::Input { index: 0, ref path, ref value } if path == "market/ibm/quantity" && value == "100"
    ));
}

#[test]
fn shutdown_is_the_only_exit() {
    let mut reg = TabRegistry::new();
    let out = run(&mut reg, "shutdown");
    assert_eq!(out.response.unwrap(), "");
    assert!(out.shutdown);
    let out2 = run(&mut reg, "tabs");
    assert!(!out2.shutdown);
}

#[test]
fn set_url_updates_snapshot() {
    let mut reg = TabRegistry::new();
    open(&mut reg, "open https://a.org");
    reg.set_url(0, "https://a.org/next".to_string());
    assert_eq!(reg.tabs[0].url, "https://a.org/next");
    // a stale index changes nothing
    reg.set_url(9, "https://gone".to_string());
    assert_eq!(reg.tabs.len(), 1);
}
