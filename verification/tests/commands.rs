//! The command parser and the client's target syntax.

use mech::{parse_command, parse_target, DaemonCommand};

#[test]
fn main_parse_command_open() {
    let cmd = parse_command("open https://example.com").unwrap();
    assert!(
        matches!(cmd, DaemonCommand::Open { ref url, name: None } if url == "https://example.com")
    );
}

#[test]
fn main_parse_command_open_with_name() {
    let cmd = parse_command("open https://example.com --name myapp").unwrap();
    assert!(
        matches!(cmd, DaemonCommand::Open { ref url, ref name } if url == "https://example.com" && name.as_deref() == Some("myapp"))
    );
}

#[test]
fn main_parse_command_open_with_spaces() {
    let cmd = parse_command("open https://example.com/path with spaces").unwrap();
    assert!(
        matches!(cmd, DaemonCommand::Open { ref url, .. } if url == "https://example.com/path with spaces")
    );
}

#[test]
fn main_parse_command_show() {
    let cmd = parse_command("show 1").unwrap();
    assert!(matches!(cmd, DaemonCommand::Show { ref tab, path: None, color: false } if tab == "1"));
}

#[test]
fn main_parse_command_show_with_path() {
    let cmd = parse_command("show 1 nav/home").unwrap();
    assert!(
        matches!(cmd, DaemonCommand::Show { ref tab, ref path, color: false } if tab == "1" && path.as_deref() == Some("nav/home"))
    );
}

#[test]
fn main_parse_command_show_with_color() {
    let cmd = parse_command("show 1 --color").unwrap();
    assert!(matches!(cmd, DaemonCommand::Show { ref tab, path: None, color: true } if tab == "1"));
}

#[test]
fn main_parse_command_show_with_path_and_color() {
    let cmd = parse_command("show 1 nav/home --color").unwrap();
    assert!(
        matches!(cmd, DaemonCommand::Show { ref tab, ref path, color: true } if tab == "1" && path.as_deref() == Some("nav/home"))
    );
}

#[test]
fn main_parse_command_use() {
    let cmd = parse_command("use 1 nav/home").unwrap();
    assert!(
        matches!(cmd, DaemonCommand::Use { ref tab, ref path, .. } if tab == "1" && path == "nav/home")
    );
}

#[test]
fn main_parse_command_use_with_data() {
    let cmd = parse_command("use 1 submit quantity=5").unwrap();
    if let DaemonCommand::Use { tab, path, data } = cmd {
        assert_eq!(tab, "1");
        assert_eq!(path, "submit");
        assert_eq!(data, vec![("quantity".to_string(), "5".to_string())]);
    } else {
        panic!("Expected Use command");
    }
}

#[test]
fn main_parse_command_close() {
    let cmd = parse_command("close 2").unwrap();
    assert!(matches!(cmd, DaemonCommand::Close { ref tab } if tab == "2"));
}

#[test]
fn main_parse_command_close_by_name() {
    let cmd = parse_command("close myapp").unwrap();
    assert!(matches!(cmd, DaemonCommand::Close { ref tab } if tab == "myapp"));
}

#[test]
fn main_parse_command_name() {
    let cmd = parse_command("name 1 stocks").unwrap();
    assert!(
        matches!(cmd, DaemonCommand::Name { ref tab, ref name } if tab == "1" && name == "stocks")
    );
}

#[test]
fn main_parse_command_tabs() {
    let cmd = parse_command("tabs").unwrap();
    assert!(matches!(cmd, DaemonCommand::Tabs));
}

#[test]
fn main_parse_command_shutdown() {
    let cmd = parse_command("shutdown").unwrap();
    assert!(matches!(cmd, DaemonCommand::Shutdown));
}

#[test]
fn main_parse_command_empty() {
    assert!(parse_command("").is_none());
}

#[test]
fn main_parse_command_unknown() {
    assert!(parse_command("unknown").is_none());
}

#[test]
fn main_parse_command_open_missing_url() {
    // A bare `open` yields an empty URL, which is a valid command.
    let cmd = parse_command("open").unwrap();
    assert!(matches!(cmd, DaemonCommand::Open { ref url, .. } if url.is_empty()));
}

#[test]
fn main_parse_command_show_by_name() {
    // show accepts tab references (name or index)
    let cmd = parse_command("show myapp").unwrap();
    assert!(matches!(cmd, DaemonCommand::Show { ref tab, .. } if tab == "myapp"));
}

#[test]
fn lib_parse_command_open() {
    let cmd = parse_command("open https://example.com").unwrap();
    assert!(
        matches!(cmd, DaemonCommand::Open { ref url, name: None } if url == "https://example.com")
    );
}

#[test]
fn lib_parse_command_open_with_name() {
    let cmd = parse_command("open https://example.com --name myapp").unwrap();
    assert!(
        matches!(cmd, DaemonCommand::Open { ref url, ref name } if url == "https://example.com" && name.as_deref() == Some("myapp"))
    );
}

#[test]
fn lib_parse_command_open_with_spaces() {
    let cmd = parse_command("open https://example.com/path with spaces").unwrap();
    assert!(
        matches!(cmd, DaemonCommand::Open { ref url, .. } if url == "https://example.com/path with spaces")
    );
}

#[test]
fn lib_parse_command_show() {
    let cmd = parse_command("show 1").unwrap();
    assert!(matches!(cmd, DaemonCommand::Show { ref tab, path: None, color: false } if tab == "1"));
}

#[test]
fn lib_parse_command_show_with_path() {
    let cmd = parse_command("show 1 nav/home").unwrap();
    assert!(
        matches!(cmd, DaemonCommand::Show { ref tab, ref path, color: false } if tab == "1" && path.as_deref() == Some("nav/home"))
    );
}

#[test]
fn lib_parse_command_show_with_color() {
    let cmd = parse_command("show 1 --color").unwrap();
    assert!(matches!(cmd, DaemonCommand::Show { ref tab, path: None, color: true } if tab == "1"));
}

#[test]
fn lib_parse_command_show_with_path_and_color() {
    let cmd = parse_command("show 1 nav/home --color").unwrap();
    assert!(
        matches!(cmd, DaemonCommand::Show { ref tab, ref path, color: true } if tab == "1" && path.as_deref() == Some("nav/home"))
    );
}

#[test]
fn parse_command_set() {
    let cmd = parse_command("set 1 market/ibm/quantity 100").unwrap();
    if let DaemonCommand::SetValue { tab, path, value } = cmd {
        assert_eq!(tab, "1");
        assert_eq!(path, "market/ibm/quantity");
        assert_eq!(value, "100");
    } else {
        panic!("Expected Set command");
    }
}

#[test]
fn lib_parse_command_use() {
    let cmd = parse_command("use 1 nav/home").unwrap();
    assert!(
        matches!(cmd, DaemonCommand::Use { ref tab, ref path, .. } if tab == "1" && path == "nav/home")
    );
}

#[test]
fn lib_parse_command_use_with_data() {
    let cmd = parse_command("use 1 submit quantity=5").unwrap();
    if let DaemonCommand::Use { tab, path, data } = cmd {
        assert_eq!(tab, "1");
        assert_eq!(path, "submit");
        assert_eq!(data, vec![("quantity".to_string(), "5".to_string())]);
    } else {
        panic!("Expected Use command");
    }
}

#[test]
fn lib_parse_command_close() {
    let cmd = parse_command("close 2").unwrap();
    assert!(matches!(cmd, DaemonCommand::Close { ref tab } if tab == "2"));
}

#[test]
fn lib_parse_command_close_by_name() {
    let cmd = parse_command("close myapp").unwrap();
    assert!(matches!(cmd, DaemonCommand::Close { ref tab } if tab == "myapp"));
}

#[test]
fn lib_parse_command_name() {
    let cmd = parse_command("name 1 stocks").unwrap();
    assert!(
        matches!(cmd, DaemonCommand::Name { ref tab, ref name } if tab == "1" && name == "stocks")
    );
}

#[test]
fn lib_parse_command_tabs() {
    let cmd = parse_command("tabs").unwrap();
    assert!(matches!(cmd, DaemonCommand::Tabs));
}

#[test]
fn lib_parse_command_shutdown() {
    let cmd = parse_command("shutdown").unwrap();
    assert!(matches!(cmd, DaemonCommand::Shutdown));
}

#[test]
fn lib_parse_command_empty() {
    assert!(parse_command("").is_none());
}

#[test]
fn lib_parse_command_unknown() {
    assert!(parse_command("unknown").is_none());
}

#[test]
fn lib_parse_command_open_missing_url() {
    let cmd = parse_command("open").unwrap();
    assert!(matches!(cmd, DaemonCommand::Open { ref url, .. } if url.is_empty()));
}

#[test]
fn lib_parse_command_show_by_name() {
    let cmd = parse_command("show myapp").unwrap();
    assert!(matches!(cmd, DaemonCommand::Show { ref tab, .. } if tab == "myapp"));
}

#[test]
fn parse_target_simple() {
    let (tab, path) = parse_target("1");
    assert_eq!(tab, "1");
    assert_eq!(path, None);
}

#[test]
fn parse_target_with_path() {
    let (tab, path) = parse_target("1:nav/home");
    assert_eq!(tab, "1");
    assert_eq!(path, Some("nav/home".to_string()));
}

#[test]
fn parse_target_named() {
    let (tab, path) = parse_target("stocks");
    assert_eq!(tab, "stocks");
    assert_eq!(path, None);
}

#[test]
fn parse_target_named_with_path() {
    let (tab, path) = parse_target("stocks:submit");
    assert_eq!(tab, "stocks");
    assert_eq!(path, Some("submit".to_string()));
}

#[test]
fn parse_command_fork_with_name_and_data() {
    let cmd = parse_command("fork 1 nav/home --name copy qty=3").unwrap();
    if let DaemonCommand::Fork { tab, path, name, data } = cmd {
        assert_eq!(tab, "1");
        assert_eq!(path, "nav/home");
        assert_eq!(name.as_deref(), Some("copy"));
        assert_eq!(data, vec![("qty".to_string(), "3".to_string())]);
    } else {
        panic!("Expected Fork command");
    }
}

#[test]
fn parse_command_set_extra_tokens_rejected() {
    assert!(parse_command("set 1 a/b 100 extra").is_none());
}

#[test]
fn parse_command_whitespace_tokens() {
    let cmd = parse_command("  close \t myapp \n").unwrap();
    assert!(matches!(cmd, DaemonCommand::Close { ref tab } if tab == "myapp"));
}
