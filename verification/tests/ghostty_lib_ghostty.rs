use ghostmux::ghostty_lib::ghostty::{
    applescript_escape, build_interactive_command, build_split_script, build_tab_script,
    config_block, create_tab_with_config, env_list_string, equalize_splits, focus_terminal,
    focused_terminal_id, is_available, open, script_outcome, shell_escape_single, split_at,
    split_with_config, terminal_exists, terminal_exists_script,
};
use ghostmux::ghostty_lib::remote::RemoteConfig;

fn remote(host: &str, user: Option<&str>, transport: &str) -> RemoteConfig {
    RemoteConfig {
        host: host.to_string(),
        user: user.map(|u| u.to_string()),
        scan_dirs: vec![],
        transport: transport.to_string(),
    }
}

#[test]
fn test_applescript_escape() {
    assert_eq!(applescript_escape("hello"), "hello");
    assert_eq!(applescript_escape(r#"say "hi""#), r#"say \"hi\""#);
    assert_eq!(applescript_escape(r"path\to\file"), r"path\\to\\file");
    assert_eq!(applescript_escape(r#"a"b\c"#), r#"a\"b\\c"#);
}

#[test]
fn ghostty_test_shell_escape_single() {
    assert_eq!(shell_escape_single("hello"), "hello");
    assert_eq!(shell_escape_single("it's"), "it'\\''s");
    assert_eq!(shell_escape_single("a'b'c"), "a'\\''b'\\''c");
}

#[test]
fn test_build_interactive_command_local() {
    let cmd = build_interactive_command("myrepo.main", "/home/user/Code/myrepo", None);
    assert!(cmd.contains("cd /home/user/Code/myrepo"));
    assert!(cmd.contains("zmx attach myrepo.main"));
}

#[test]
fn test_build_interactive_command_remote_ssh() {
    let remote = RemoteConfig {
        host: "myhost".to_string(),
        user: Some("user".to_string()),
        scan_dirs: vec![],
        transport: "ssh".to_string(),
    };
    let cmd = build_interactive_command("myrepo.main", "/home/user/Code/myrepo", Some(&remote));
    assert!(cmd.starts_with("ssh user@myhost -t"));
    assert!(cmd.contains("zmx attach myrepo.main"));
}

#[test]
fn test_build_interactive_command_remote_mosh() {
    let remote = RemoteConfig {
        host: "myhost".to_string(),
        user: None,
        scan_dirs: vec![],
        transport: "mosh".to_string(),
    };
    let cmd = build_interactive_command("myrepo.main", "/home/user/Code/myrepo", Some(&remote));
    assert!(cmd.starts_with("mosh myhost"));
    assert!(cmd.contains("zmx attach myrepo.main"));
}

#[test]
fn test_build_tab_script_contains_applescript_structure() {
    let script = build_tab_script("test.main", "/tmp/test", None);
    assert!(script.contains("tell application \"Ghostty\""));
    assert!(script.contains("new surface configuration"));
    assert!(script.contains("initial working directory"));
    assert!(script.contains("/tmp/test"));
    assert!(script.contains("zmx attach test.main"));
    assert!(script.contains("new tab in front window"));
    assert!(script.contains("return id of newTerm"));
}

#[test]
fn test_build_tab_script_remote_no_working_dir() {
    let remote = RemoteConfig {
        host: "myhost".to_string(),
        user: None,
        scan_dirs: vec![],
        transport: "ssh".to_string(),
    };
    let script = build_tab_script("test.main", "/remote/path", Some(&remote));
    // Remote tabs don't set initial working directory (SSH handles it)
    assert!(!script.contains("initial working directory"));
    assert!(script.contains("ssh myhost"));
}

#[test]
fn test_build_split_script_direction() {
    let script = build_split_script("test.main", "/tmp/test", "right", None);
    assert!(script.contains("direction right"));
    assert!(script.contains("split t direction right"));

    let script = build_split_script("test.main", "/tmp/test", "down", None);
    assert!(script.contains("direction down"));
}

#[test]
fn test_build_tab_with_config_basic() {
    let env_vars: Vec<(String, String)> = vec![
        ("GMX_SESSION".to_string(), "my-project".to_string()),
        ("GMX_IDX".to_string(), "1".to_string()),
    ];
    let result = env_list_string(&env_vars);
    assert_eq!(result, "{\"GMX_SESSION=my-project\", \"GMX_IDX=1\"}");
}

#[test]
fn test_is_available_env_check() {
    // Only on macOS, and only inside Ghostty.
    assert!(!is_available(false, Some("ghostty")));
    assert!(!is_available(true, None));
    assert!(!is_available(true, Some("iTerm.app")));
    assert!(is_available(true, Some("ghostty")));
}

#[test]
fn interactive_command_exact() {
    assert_eq!(
        build_interactive_command("s.1", "/p/it's", None),
        "cd /p/it'\\''s && zmx attach s.1"
    );
    let r = remote("h", Some("u"), "ssh");
    assert_eq!(
        build_interactive_command("s.1", "/p", Some(&r)),
        "ssh u@h -t 'cd /p && zmx attach s.1'"
    );
    let m = remote("h", None, "mosh");
    assert_eq!(
        build_interactive_command("s.1", "/p", Some(&m)),
        "mosh h -- sh -c 'cd /p && zmx attach s.1'"
    );
}

#[test]
fn tab_script_exact_local() {
    let expected = "tell application \"Ghostty\"\n    set cfg to new surface configuration\n    set initial working directory of cfg to \"/tmp/a\\\"b\"\n    set newTab to new tab in front window with configuration cfg\n    set newTerm to focused terminal of newTab\n    delay 0.5\n    input text \"zmx attach t.main\" to newTerm\n    send key \"enter\" to newTerm\n    return id of newTerm\nend tell";
    assert_eq!(build_tab_script("t.main", "/tmp/a\"b", None), expected);
    assert_eq!(open("t.main", "/tmp/a\"b", None, None), expected);
}

#[test]
fn split_scripts_exact() {
    let r = remote("h", None, "ssh");
    let expected = "tell application \"Ghostty\"\n    set t to focused terminal of selected tab of front window\n    set newTerm to split t direction down\n    delay 0.5\n    input text \"ssh h -t 'cd /p && zmx attach s'\" to newTerm\n    send key \"enter\" to newTerm\n    return id of newTerm\nend tell";
    assert_eq!(build_split_script("s", "/p", "down", Some(&r)), expected);
    assert_eq!(open("s", "/p", Some("down"), Some(&r)), expected);
    let at = split_at("T1", "s", "/p", "right", None);
    assert!(at.starts_with(
        "tell application \"Ghostty\"\n    set t to first terminal whose id is \"T1\"\n    focus t\n    set newTerm to split t direction right\n"
    ));
    assert!(at.contains("input text \"cd /p && zmx attach s\" to newTerm"));
}

#[test]
fn terminal_scripts() {
    assert_eq!(
        focus_terminal("a\"b"),
        "tell application \"Ghostty\"\n    set t to first terminal whose id is \"a\\\"b\"\n    focus t\nend tell"
    );
    assert!(terminal_exists_script("X").contains("return \"gone\""));
    assert!(terminal_exists(Some("ok")));
    assert!(!terminal_exists(Some("gone")));
    assert!(!terminal_exists(None));
    assert!(equalize_splits().contains("perform action \"equalize_splits\" on t"));
    assert!(focused_terminal_id().ends_with("    return id of t\nend tell"));
}

#[test]
fn config_blocks() {
    let env: Vec<(String, String)> = vec![("K".to_string(), "v\"1".to_string())];
    assert_eq!(config_block(None, &vec![]), "");
    assert_eq!(
        config_block(Some("/w"), &env),
        "    set initial working directory of cfg to \"/w\"\n    set environment variables of cfg to {\"K=v\\\"1\"}"
    );
    let tab = create_tab_with_config("cmd", None, &vec![]);
    assert_eq!(
        tab,
        "tell application \"Ghostty\"\n    set cfg to new surface configuration\n\n    set newTab to new tab in front window with configuration cfg\n    set newTerm to focused terminal of newTab\n    delay 0.5\n    input text \"cmd\" to newTerm\n    send key \"enter\" to newTerm\n    return id of newTerm\nend tell"
    );
    let split = split_with_config("T", "down", "cmd", Some("/w"), &vec![]);
    assert!(split.contains("    focus t\n    set cfg to new surface configuration\n    set initial working directory of cfg to \"/w\"\n    set newTerm to split t direction down with configuration cfg\n"));
}

#[test]
fn osascript_outcomes() {
    assert_eq!(script_outcome(true, " id-1 \n", ""), Ok("id-1".to_string()));
    assert_eq!(script_outcome(false, "", " boom \n"), Err("boom".to_string()));
}
