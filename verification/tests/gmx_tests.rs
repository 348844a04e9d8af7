use ghostmux::ghostty_lib::remote::RemoteConfig;
use ghostmux::ghostty_lib::zmx::ZmxSession;
use ghostmux::gmx::commands::{
    attach_entry, attach_pane_script, auto_session_name, check_live, check_new_session,
    configure_remote, current_session, group_counts, kill_target, ls_row, merge_counts,
    new_session_tab_script, pane_index, pane_name, registered_remote, resolve_remote,
    session_working_dir, split_pane_script, undiscovered_sessions,
};
use ghostmux::gmx::config::{GmxConfig, SessionRegistry};
use ghostmux::gmx::keybinds::{generate_keybinds, install_keybinds, remove_gmx_block, uninstall_keybinds};
use ghostmux::gmx::session::{
    build_zmx_command, discover_sessions, extract_session_name, shell_escape_single,
};

fn make_remote(host: &str, transport: &str) -> RemoteConfig {
    RemoteConfig {
        host: host.to_string(),
        user: None,
        scan_dirs: vec![],
        transport: transport.to_string(),
    }
}

fn zs(name: &str) -> ZmxSession {
    ZmxSession {
        name: name.to_string(),
        pid: None,
        clients: 0,
        started_in: None,
    }
}

#[test]
fn test_gmx_config_defaults() {
    let config = GmxConfig::default();
    assert_eq!(config.default_split_direction, "right");
    assert!(config.remotes.is_empty());
}

#[test]
fn test_session_registry_operations() {
    let mut reg = SessionRegistry::default();
    assert!(reg.get("test").is_none());

    reg.register("test", Some("nicbook"), "/home/user/Code/test");
    let entry = reg.get("test").unwrap();
    assert_eq!(entry.remote, Some("nicbook".to_string()));
    assert_eq!(entry.dir, "/home/user/Code/test");

    reg.register("local-project", None, "/Users/nico/Code/project");
    let entry = reg.get("local-project").unwrap();
    assert!(entry.remote.is_none());
    assert_eq!(entry.dir, "/Users/nico/Code/project");

    reg.remove("test");
    assert!(reg.get("test").is_none());
    assert!(reg.get("local-project").is_some());
}

#[test]
fn test_session_registry_overwrite() {
    let mut reg = SessionRegistry::default();
    reg.register("test", Some("host1"), "/path1");
    reg.register("test", Some("host2"), "/path2");

    let entry = reg.get("test").unwrap();
    assert_eq!(entry.remote, Some("host2".to_string()));
    assert_eq!(entry.dir, "/path2");
}

#[test]
fn test_extract_session_name_numbered() {
    assert_eq!(extract_session_name("my-project.1"), "my-project");
    assert_eq!(extract_session_name("my-project.2"), "my-project");
    assert_eq!(extract_session_name("my-project.10"), "my-project");
    assert_eq!(extract_session_name("my-project.99"), "my-project");
}

#[test]
fn test_extract_session_name_no_number() {
    assert_eq!(extract_session_name("my-project"), "my-project");
    assert_eq!(extract_session_name("foo.bar"), "foo.bar");
    assert_eq!(extract_session_name("simple"), "simple");
}

#[test]
fn test_extract_session_name_nested() {
    assert_eq!(extract_session_name("foo.bar.1"), "foo.bar");
    assert_eq!(extract_session_name("a.b.c.3"), "a.b.c");
}

#[test]
fn test_extract_session_name_non_numeric_suffix() {
    // ".abc" is not a number, so the whole thing is the session name
    assert_eq!(extract_session_name("my-project.abc"), "my-project.abc");
    assert_eq!(extract_session_name("foo.bar.baz"), "foo.bar.baz");
}

#[test]
fn test_build_zmx_command_local() {
    let cmd = build_zmx_command("my-project.1", "/home/user/Code/project", None);
    assert!(cmd.contains("cd /home/user/Code/project"));
    assert!(cmd.contains("zmx attach my-project.1"));
    assert!(!cmd.contains("ssh"));
    assert!(!cmd.contains("mosh"));
}

#[test]
fn test_build_zmx_command_remote_ssh() {
    let remote = RemoteConfig {
        host: "nicbook".to_string(),
        user: Some("nico".to_string()),
        scan_dirs: vec![],
        transport: "ssh".to_string(),
    };
    let cmd = build_zmx_command("my-project.1", "~/Code/project", Some(&remote));
    assert!(cmd.starts_with("ssh nico@nicbook -t"));
    assert!(cmd.contains("cd ~/Code/project"));
    assert!(cmd.contains("zmx attach my-project.1"));
}

#[test]
fn test_build_zmx_command_remote_mosh() {
    let remote = RemoteConfig {
        host: "nicbook".to_string(),
        user: None,
        scan_dirs: vec![],
        transport: "mosh".to_string(),
    };
    let cmd = build_zmx_command("my-project.1", "~/Code/project", Some(&remote));
    assert!(cmd.starts_with("mosh nicbook"));
    assert!(cmd.contains("cd ~/Code/project"));
    assert!(cmd.contains("zmx attach my-project.1"));
}

#[test]
fn test_build_zmx_command_escapes_quotes() {
    let cmd = build_zmx_command("session.1", "/path/with spaces", None);
    assert!(cmd.contains("/path/with spaces"));
}

#[test]
fn session_test_shell_escape_single() {
    assert_eq!(shell_escape_single("hello"), "hello");
    assert_eq!(shell_escape_single("it's"), "it'\\''s");
}

#[test]
fn test_discover_sessions_grouping() {
    let zmx_names = vec![
        "project-a.1",
        "project-a.2",
        "project-a.3",
        "project-b.1",
        "standalone",
    ];

    let mut groups: std::collections::HashMap<String, Vec<&str>> =
        std::collections::HashMap::new();
    for name in &zmx_names {
        let group = extract_session_name(name);
        groups.entry(group).or_default().push(name);
    }

    assert_eq!(groups.len(), 3);
    assert_eq!(groups["project-a"].len(), 3);
    assert_eq!(groups["project-b"].len(), 1);
    assert_eq!(groups["standalone"].len(), 1);
}

#[test]
fn discover_sessions_sorted_groups() {
    let all = vec![zs("b.2"), zs("a.1"), zs("b.1"), zs("b"), zs("a.x")];
    let groups = discover_sessions(all);
    let summary: Vec<(String, Vec<String>)> = groups
        .iter()
        .map(|(g, ss)| (g.clone(), ss.iter().map(|s| s.name.clone()).collect()))
        .collect();
    assert_eq!(
        summary,
        vec![
            ("a".to_string(), vec!["a.1".to_string()]),
            ("a.x".to_string(), vec!["a.x".to_string()]),
            ("b".to_string(), vec!["b".to_string(), "b.1".to_string(), "b.2".to_string()]),
        ]
    );
}

#[test]
fn test_zmx_session_naming_convention() {
    let base = "my-project";
    let first = pane_name(base, 1);
    let second = pane_name(base, 2);

    assert_eq!(first, "my-project.1");
    assert_eq!(second, "my-project.2");

    let names = vec![
        "my-project".to_string(),
        "my-project.1".to_string(),
        "my-project.2".to_string(),
        "my-project.10".to_string(),
        "other-project.1".to_string(),
    ];

    let matches: Vec<&String> = names
        .iter()
        .filter(|n| **n == base || n.starts_with(&format!("{}.", base)))
        .collect();

    assert_eq!(matches.len(), 4);
    assert!(!matches.contains(&&"other-project.1".to_string()));
}

#[test]
fn test_zmx_command_local_format() {
    let cmd = build_zmx_command("my-project.1", "/Users/nico/Code/project", None);
    assert!(cmd.starts_with("cd /Users/nico/Code/project"));
    assert!(cmd.contains("zmx attach my-project.1"));
    assert!(!cmd.contains("ssh"));
}

#[test]
fn test_zmx_command_remote_ssh_format() {
    let remote = make_remote("nicbook", "ssh");
    let cmd = build_zmx_command("my-project.1", "~/Code/project", Some(&remote));

    assert!(cmd.starts_with("ssh nicbook"));
    assert!(cmd.contains("-t"));
    assert!(cmd.contains("zmx attach my-project.1"));
}

#[test]
fn test_zmx_command_remote_mosh_format() {
    let remote = make_remote("nicbook", "mosh");
    let cmd = build_zmx_command("my-project.1", "~/Code/project", Some(&remote));

    assert!(cmd.starts_with("mosh nicbook"));
    assert!(cmd.contains("sh -c"));
    assert!(cmd.contains("zmx attach my-project.1"));
}

#[test]
fn test_remote_config_with_user() {
    let remote = RemoteConfig {
        host: "nicbook".to_string(),
        user: Some("nico".to_string()),
        scan_dirs: vec![],
        transport: "ssh".to_string(),
    };
    assert_eq!(remote.ssh_target(), "nico@nicbook");
}

#[test]
fn remotes_resolve_or_explain() {
    let mut config = GmxConfig::default();
    configure_remote(
        &mut config,
        "box".to_string(),
        "box.local".to_string(),
        Some("me".to_string()),
        "mosh".to_string(),
    );
    let r = resolve_remote(&config, Some("box")).unwrap().unwrap();
    assert_eq!(r.ssh_target(), "me@box.local");
    assert!(r.use_mosh());
    assert!(resolve_remote(&config, None).unwrap().is_none());
    assert_eq!(
        resolve_remote(&config, Some("nope")).unwrap_err(),
        "remote 'nope' not found in gmx config. Add it with: gmx config remote nope <host>"
    );
    let mut reg = SessionRegistry::new();
    reg.register("s", Some("box"), "/d");
    reg.register("t", Some("gone"), "/d");
    assert!(registered_remote(&config, &reg, "s").unwrap().is_some());
    assert!(registered_remote(&config, &reg, "missing").unwrap().is_none());
    assert!(registered_remote(&config, &reg, "t").is_err());
}

#[test]
fn new_session_checks() {
    assert_eq!(auto_session_name(Some("/home/me/proj")), "proj");
    assert_eq!(auto_session_name(Some("/")), "gmx");
    assert_eq!(auto_session_name(None), "gmx");
    assert_eq!(session_working_dir(Some("/d"), true, None), Ok("/d".to_string()));
    assert_eq!(
        session_working_dir(None, true, Some("/cwd")),
        Err("--dir is required for remote sessions".to_string())
    );
    assert_eq!(session_working_dir(None, false, Some("/cwd")), Ok("/cwd".to_string()));
    assert!(check_new_session("p", &vec![]).is_ok());
    assert_eq!(
        check_new_session("p", &vec![zs("p.1"), zs("p.2")]).unwrap_err(),
        "session 'p' already exists (2 zmx session(s)). Use 'gmx attach p' to reattach."
    );
    let script = new_session_tab_script("p", "/d", None);
    assert!(script.contains("input text \"cd /d && zmx attach p.1\" to newTerm"));
    assert!(script.contains("set environment variables of cfg to {\"GMX_SESSION=p\", \"GMX_IDX=1\"}"));
    assert!(script.contains("set initial working directory of cfg to \"/d\""));
}

#[test]
fn attach_and_split_scripts() {
    let reg = {
        let mut r = SessionRegistry::new();
        r.register("p", None, "/d");
        r
    };
    assert_eq!(attach_entry(&reg, "p").unwrap().dir, "/d");
    assert_eq!(
        attach_entry(&reg, "q").err().unwrap(),
        "session 'q' not found in registry. Create it with: gmx new q"
    );
    assert_eq!(
        check_live("q", &vec![]).unwrap_err(),
        "no live zmx sessions for 'q'. Create with: gmx new q"
    );
    let sessions = vec![zs("p.1"), zs("p.2")];
    let first = attach_pane_script("p", "/d", None, &sessions, "right", 0, None);
    assert!(first.contains("new tab in front window"));
    assert!(first.contains("\"GMX_IDX=1\""));
    let second = attach_pane_script("p", "/d", None, &sessions, "right", 1, Some("T1"));
    assert!(second.contains("first terminal whose id is \"T1\""));
    assert!(second.contains("split t direction right with configuration cfg"));
    assert!(second.contains("zmx attach p.2"));
    assert!(second.contains("\"GMX_IDX=2\""));
    assert_eq!(pane_index("p.7", "p"), "7");
    assert_eq!(pane_index("q", "p"), "1");
    let split = split_pane_script("T", "down", "p", "p.3", "/d", None);
    assert!(split.contains("\"GMX_IDX=3\""));
    assert_eq!(
        kill_target(None, None).unwrap_err(),
        "no session name given and not inside a gmx session (GMX_SESSION not set)"
    );
    assert_eq!(kill_target(None, Some("env")), Ok("env".to_string()));
    assert_eq!(kill_target(Some("n"), Some("env")), Ok("n".to_string()));
    assert!(current_session(None).is_err());
}

#[test]
fn rename_moves_entry() {
    let mut reg = SessionRegistry::new();
    reg.register("old", Some("h"), "/d");
    assert!(reg.rename("old", "new"));
    assert!(reg.get("old").is_none());
    assert_eq!(reg.get("new").unwrap().remote, Some("h".to_string()));
    assert!(!reg.rename("missing", "x"));
}

#[test]
fn ls_rows_and_counts() {
    let counts = group_counts(vec![zs("b.1"), zs("a.1"), zs("b.2")]);
    assert_eq!(counts, vec![("a".to_string(), 1), ("b".to_string(), 2)]);
    let mut reg = SessionRegistry::new();
    reg.register("c", Some("h"), "/c");
    reg.register("a", None, "/a");
    assert_eq!(undiscovered_sessions(&reg, &counts), vec!["c".to_string()]);
    let merged = merge_counts(counts, vec![("c".to_string(), 0), ("a".to_string(), 9)]);
    assert_eq!(
        merged,
        vec![("a".to_string(), 1), ("b".to_string(), 2), ("c".to_string(), 0)]
    );
    let row = ls_row("c", 0, &reg);
    assert_eq!(
        (row.name.as_str(), row.remote.as_str(), row.panes.as_str(), row.dir.as_str()),
        ("c", "h", "dead", "/c")
    );
    let row = ls_row("b", 2, &reg);
    assert_eq!(
        (row.remote.as_str(), row.panes.as_str(), row.dir.as_str()),
        ("local", "2", "-")
    );
}

#[test]
fn keybinds_install_and_uninstall() {
    let block = generate_keybinds(None);
    assert!(block.starts_with("# gmx keybindings\nkeybind = ctrl+shift+d=text:gmx split right\\n\n"));
    assert!(block.ends_with("# end gmx keybindings"));
    let prefixed = generate_keybinds(Some("ctrl+b"));
    assert!(prefixed.contains("keybind = ctrl+b=activate_key_table_once:gmx\n"));
    let config = "font-size = 12\n# gmx keybindings\nold\n# end gmx keybindings\ntheme = x\n";
    assert_eq!(remove_gmx_block(config), "font-size = 12\ntheme = x\n");
    let installed = install_keybinds(config, None);
    assert_eq!(installed, format!("font-size = 12\ntheme = x\n{}\n", block));
    assert_eq!(install_keybinds(&installed, None), installed);
    assert_eq!(uninstall_keybinds("font = 1\n"), None);
    assert_eq!(uninstall_keybinds(&installed), Some("font-size = 12\ntheme = x\n".to_string()));
}

#[test]
fn config_paths() {
    assert_eq!(GmxConfig::config_dir("/cfg"), "/cfg/gmx");
    assert_eq!(GmxConfig::config_path("/cfg/"), "/cfg/gmx/config.json");
    assert_eq!(SessionRegistry::registry_path("/cfg"), "/cfg/gmx/sessions.json");
}

#[test]
fn keybinds_reinstall_and_remove_with_prefix() {
    let config = "a = 1\r\n# gmx keybindings\r\nold\r\n# end gmx keybindings\r\n\r\n  \n";
    let once = install_keybinds(config, Some("ctrl+a"));
    let block = generate_keybinds(Some("ctrl+a"));
    assert_eq!(once, format!("a = 1\n{}\n", block));
    assert_eq!(install_keybinds(&once, Some("ctrl+a")), once);
    assert_eq!(uninstall_keybinds(&once), Some("a = 1\n".to_string()));
    let empty = install_keybinds("", None);
    assert_eq!(empty, format!("\n{}\n", generate_keybinds(None)));
    assert_eq!(install_keybinds(&empty, None), empty);
    assert_eq!(uninstall_keybinds(&empty), Some("\n".to_string()));
    // a line that still ends with a carriage return after its line break is
    // read is kept as it is once, and loses that carriage return when read again
    let cr = install_keybinds("x\r\r\ny\n", None);
    assert!(cr.starts_with("x\r\ny\n"));
    assert!(install_keybinds(&cr, None).starts_with("x\ny\n"));
}
