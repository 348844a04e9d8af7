use ghostmux::ghostty_lib::zmx::{
    attach_command, ensure_session, find_session, find_sessions_by_prefix, find_worktree_sessions,
    kill_session, list_sessions, next_session_name, next_session_name_from_base, parse_zmx_list,
    repo_name_from_path, session_name, ZmxSession,
};

fn make_session(name: &str, clients: u32) -> ZmxSession {
    ZmxSession {
        name: name.to_string(),
        pid: None,
        clients,
        started_in: None,
    }
}

fn names(v: &[ZmxSession]) -> Vec<String> {
    v.iter().map(|s| s.name.clone()).collect()
}

#[test]
fn test_parse_zmx_list_basic() {
    let output = "session_name=foo.main\tpid=1234\tclients=1\tstarted_in=/tmp\n\
                   session_name=bar.dev\tpid=5678\tclients=0\tstarted_in=/home\n";
    let sessions = parse_zmx_list(output);
    assert_eq!(sessions.len(), 2);
    assert_eq!(sessions[0].name, "foo.main");
    assert_eq!(sessions[0].pid, Some("1234".to_string()));
    assert_eq!(sessions[0].clients, 1);
    assert!(sessions[0].is_attached());
    assert_eq!(sessions[1].name, "bar.dev");
    assert_eq!(sessions[1].clients, 0);
    assert!(!sessions[1].is_attached());
}

#[test]
fn test_parse_zmx_list_empty() {
    assert!(parse_zmx_list("").is_empty());
    assert!(parse_zmx_list("no sessions\n").is_empty());
}

#[test]
fn test_parse_zmx_list_arrow_prefix() {
    // zmx prefixes the current session with "→ " when run inside a session
    let output = "  session_name=other\tpid=111\tclients=0\n\
                   → session_name=current.1\tpid=222\tclients=1\tstarted_in=/tmp\n";
    let sessions = parse_zmx_list(output);
    assert_eq!(sessions.len(), 2);
    assert_eq!(sessions[0].name, "other");
    assert_eq!(sessions[1].name, "current.1");
    assert_eq!(sessions[1].clients, 1);
    assert!(sessions[1].is_attached());
}

#[test]
fn test_parse_zmx_list_missing_fields() {
    let output = "session_name=minimal\n";
    let sessions = parse_zmx_list(output);
    assert_eq!(sessions.len(), 1);
    assert_eq!(sessions[0].name, "minimal");
    assert_eq!(sessions[0].pid, None);
    assert_eq!(sessions[0].clients, 0);
    assert_eq!(sessions[0].started_in, None);
}

#[test]
fn test_parse_zmx_list_no_session_name() {
    // Lines without session_name should be skipped
    let output = "pid=1234\tclients=1\n";
    let sessions = parse_zmx_list(output);
    assert!(sessions.is_empty());
}

#[test]
fn test_session_name() {
    assert_eq!(session_name("myrepo", "main"), "myrepo.main");
    assert_eq!(session_name("foo", "feature-branch"), "foo.feature-branch");
}

#[test]
fn test_repo_name_from_path() {
    assert_eq!(repo_name_from_path("/home/user/Code/myrepo"), "myrepo");
    assert_eq!(repo_name_from_path("~/Code/foo"), "foo");
    assert_eq!(repo_name_from_path("/home/user/Code/myrepo/"), "myrepo");
}

#[test]
fn test_attach_command() {
    let cmd = attach_command("foo.main", "/home/user/Code/foo");
    assert_eq!(cmd[0], "zmx");
    assert_eq!(cmd[1], "attach");
    assert_eq!(cmd[2], "foo.main");
    assert!(cmd[5].contains("/home/user/Code/foo"));
}

#[test]
fn test_is_attached() {
    let attached = ZmxSession {
        name: "test".to_string(),
        pid: None,
        clients: 2,
        started_in: None,
    };
    assert!(attached.is_attached());

    let detached = ZmxSession {
        name: "test".to_string(),
        pid: None,
        clients: 0,
        started_in: None,
    };
    assert!(!detached.is_attached());
}

#[test]
fn parse_edge_cases() {
    // the last field with a key counts; a bad client count is 0
    let s = parse_zmx_list("session_name=a\tclients=x\tsession_name=b\r\n→\tsession_name=c\n");
    assert_eq!(names(&s), vec!["b", "c"]);
    assert_eq!(s[0].clients, 0);
    assert_eq!(repo_name_from_path("/"), "/");
    assert_eq!(repo_name_from_path("a/.."), "a/..");
    assert_eq!(repo_name_from_path("a/./"), "a");
}

#[test]
fn list_and_kill_commands() {
    assert!(list_sessions(None).is_empty());
    assert_eq!(names(&list_sessions(Some("session_name=x\n"))), vec!["x"]);
    assert_eq!(kill_session("x.1"), vec!["zmx", "kill", "x.1"]);
    assert_eq!(
        attach_command("s", "/p")[5],
        "cd '/p' && exec ${SHELL:-sh}"
    );
}

#[test]
fn finding_sessions() {
    let sessions = vec![
        make_session("r.main.10", 0),
        make_session("r.main", 1),
        make_session("r.main.2", 0),
        make_session("r.main-x", 0),
        make_session("other", 0),
    ];
    assert_eq!(find_session("r.main.2", &sessions).unwrap().name, "r.main.2");
    assert!(find_session("nope", &sessions).is_none());
    assert_eq!(
        names(&find_worktree_sessions("r", "main", sessions.clone())),
        vec!["r.main", "r.main.10", "r.main.2"]
    );
    assert_eq!(
        names(&find_sessions_by_prefix("r.main", sessions.clone())),
        vec!["r.main", "r.main.2", "r.main.10"]
    );
}

#[test]
fn next_names() {
    let sessions = vec![make_session("b.2", 0), make_session("b.3", 0), make_session("b.5", 0)];
    assert_eq!(next_session_name_from_base("b", &sessions), "b.4");
    assert_eq!(next_session_name_from_base("c", &sessions), "c.2");
    assert_eq!(next_session_name("r", "m", &vec![make_session("r.m", 0)]), "r.m.2");
}

#[test]
fn ensure_session_only_when_missing() {
    let sessions = vec![make_session("s.1", 0)];
    assert_eq!(ensure_session("s.1", "/p", &sessions), None);
    assert_eq!(
        ensure_session("s.2", "/p", &sessions),
        Some(vec![
            "zmx".to_string(),
            "run".to_string(),
            "s.2".to_string(),
            "sh".to_string(),
            "-c".to_string(),
            "cd '/p' && exec ${SHELL:-sh}".to_string(),
        ])
    );
}

#[test]
fn next_session_name_prefers_base() {
    assert_eq!(next_session_name("ghostree", "main", &vec![]), "ghostree.main");
    assert_eq!(
        next_session_name("ghostree", "main", &vec![make_session("ghostree.main.2", 0)]),
        "ghostree.main"
    );
    assert_eq!(
        next_session_name(
            "ghostree",
            "main",
            &vec![make_session("ghostree.main", 1), make_session("ghostree.main.2", 0)]
        ),
        "ghostree.main.3"
    );
}
