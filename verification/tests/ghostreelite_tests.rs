use ghostmux::config::{Config, RemoteConfig, RepoConfig};
use ghostmux::display::WorktreeDisplay;
use ghostmux::ghostreelite::commands::{
    client_status, first_live, open_plan, OpenPlan, read_answer, remote_env_label, remove_choice, reopen_plan,
    repo_choice_lines, repo_matches, repo_remote_label, resolve_repo, split_by_location, with_worktrees, worktree_rows, worktree_search_order,
    GatheredState, RemoveChoice, ReopenStep,
};
use ghostmux::ghostreelite::discovery::{
    discover_repos, expand_tilde, expand_tilde_with, scan_remote_command, scan_remote_dir,
    DiscoveredRepo,
};
use ghostmux::ghostreelite::logic::{
    find_session_for_worktree, match_picker_selection, resolve_picker_action, PickerAction,
};
use ghostmux::ghostty_lib::worktree::{
    parse_batch_git_output, Worktree, WorktreeCommit, WorktreeDiff, WorktreeRemote,
    WorktreeWorkingTree,
};
use ghostmux::ghostty_lib::zmx::ZmxSession;
use ghostmux::zmx as gzmx;

fn make_session(name: &str, clients: u32) -> ZmxSession {
    ZmxSession {
        name: name.to_string(),
        pid: Some("1234".to_string()),
        clients,
        started_in: None,
    }
}

fn worktree(branch: &str, ts: Option<u64>) -> Worktree {
    Worktree {
        branch: branch.to_string(),
        path: format!("/r/{}", branch),
        is_main: false,
        is_current: false,
        commit: ts.map(|t| WorktreeCommit {
            short_sha: "abc".to_string(),
            message: "m".to_string(),
            timestamp: t,
        }),
        working_tree: None,
        remote: None,
    }
}

fn local_repo(path: &str) -> DiscoveredRepo {
    DiscoveredRepo {
        config: RepoConfig {
            path: path.to_string(),
            remote: None,
        },
        env_name: "local".to_string(),
        remote: None,
    }
}

#[test]
fn test_find_session_for_worktree_exists() {
    let sessions = vec![
        make_session("myrepo.main", 1),
        make_session("myrepo.feature", 0),
        make_session("other.main", 2),
    ];
    let found = find_session_for_worktree(&sessions, "myrepo", "main");
    assert!(found.is_some());
    assert_eq!(found.unwrap().name, "myrepo.main");
    assert!(found.unwrap().is_attached());
}

#[test]
fn test_find_session_for_worktree_not_found() {
    let sessions = vec![make_session("myrepo.main", 1)];
    let found = find_session_for_worktree(&sessions, "myrepo", "develop");
    assert!(found.is_none());
}

#[test]
fn test_find_session_for_worktree_empty() {
    let sessions: Vec<ZmxSession> = vec![];
    let found = find_session_for_worktree(&sessions, "repo", "main");
    assert!(found.is_none());
}

#[test]
fn test_find_session_no_partial_match() {
    let sessions = vec![make_session("myrepo.main.2", 0)];
    // Should not match "myrepo.main" because exact match is required
    let found = find_session_for_worktree(&sessions, "myrepo", "main");
    assert!(found.is_none());
}

#[test]
fn test_resolve_picker_action_enter() {
    assert_eq!(resolve_picker_action(false, None), PickerAction::Open);
    assert_eq!(resolve_picker_action(false, Some('a')), PickerAction::Open);
}

#[test]
fn test_resolve_picker_action_ctrl_keys() {
    assert_eq!(resolve_picker_action(true, Some('a')), PickerAction::NewWorktree);
    assert_eq!(resolve_picker_action(true, Some('d')), PickerAction::Remove);
    assert_eq!(resolve_picker_action(true, Some('n')), PickerAction::NewSession);
    assert_eq!(resolve_picker_action(true, Some('s')), PickerAction::SplitRight);
    assert_eq!(resolve_picker_action(true, Some('v')), PickerAction::SplitDown);
}

#[test]
fn test_resolve_picker_action_unknown_ctrl() {
    assert_eq!(resolve_picker_action(true, Some('z')), PickerAction::Open);
    assert_eq!(resolve_picker_action(true, None), PickerAction::Open);
}

#[test]
fn test_match_picker_selection() {
    let items = vec![
        ("  local: myrepo/main".to_string(), 0),
        ("  local: myrepo/feature".to_string(), 1),
        ("● nicbook: other/dev".to_string(), 2),
    ];

    assert_eq!(match_picker_selection(&items, "  local: myrepo/main"), Some(0));
    assert_eq!(match_picker_selection(&items, "● nicbook: other/dev"), Some(2));
    assert_eq!(match_picker_selection(&items, "nonexistent"), None);
}

#[test]
fn config_settings() {
    let mut c = Config::default();
    assert_eq!(c.split_direction, "");
    c.apply_setting("remote.user", "me").unwrap();
    let r = c.remote.as_ref().unwrap();
    assert_eq!(r.host, "");
    assert_eq!(r.user, Some("me".to_string()));
    assert_eq!(r.transport, "ssh");
    c.apply_setting("remote.host", "box").unwrap();
    c.apply_setting("remote.scan_dirs", " ~/a, ,b ,").unwrap();
    assert_eq!(c.remote.as_ref().unwrap().scan_dirs, vec!["~/a", "b"]);
    c.apply_setting("scan_dirs", "x,y").unwrap();
    assert_eq!(c.scan_dirs, vec!["x", "y"]);
    c.apply_setting("default_agent", "aider").unwrap();
    assert_eq!(c.default_agent, Some("aider".to_string()));
    assert_eq!(
        c.apply_setting("colour", "red"),
        Err("unknown config key: colour".to_string())
    );
    assert_eq!(Config::config_path("/cfg"), "/cfg/ghostreelite/config.json");
}

#[test]
fn config_repos() {
    let mut c = Config::default();
    assert!(c.add_repo("/a".to_string(), None));
    assert!(!c.add_repo("/a".to_string(), Some("h".to_string())));
    assert!(c.add_repo("/b".to_string(), Some("h".to_string())));
    assert_eq!(c.repos.len(), 2);
    assert_eq!(c.repos[1].remote.as_ref().unwrap().host, "h");
    let global = RemoteConfig::with_host("g".to_string());
    c.remote = Some(global);
    assert_eq!(c.effective_remote(&c.repos[0]).unwrap().host, "g");
    assert_eq!(c.effective_remote(&c.repos[1]).unwrap().host, "h");
    assert!(c.remove_repo("/a"));
    assert!(!c.remove_repo("/a"));
    assert_eq!(c.repos.len(), 1);
}

#[test]
fn discovery_dedups_and_orders() {
    let mut c = Config::default();
    c.add_repo("/x".to_string(), None);
    c.scan_dirs = vec!["~/Code".to_string()];
    let mut remote = RemoteConfig::with_host("box".to_string());
    remote.scan_dirs = vec!["~/src".to_string()];
    c.remote = Some(remote);
    let local_found = vec![vec!["/x".to_string(), "/y".to_string()]];
    let remote_found = vec![vec!["/x".to_string(), "/x".to_string()]];
    let found = discover_repos(&c, &local_found, &remote_found);
    let keys: Vec<(String, String)> = found
        .iter()
        .map(|d| (d.config.path.clone(), d.env_name.clone()))
        .collect();
    assert_eq!(
        keys,
        vec![
            ("/x".to_string(), "local".to_string()),
            ("/y".to_string(), "local".to_string()),
            ("/x".to_string(), "box".to_string()),
        ]
    );
    assert!(found[2].remote.is_some());
}

#[test]
fn remote_scan_and_tilde() {
    let cmd = scan_remote_command("~/src");
    assert_eq!(
        cmd[2],
        "for d in ~/src/*/; do [ -d \"$d/.git/worktrees\" ] && echo \"$d\"; done 2>/dev/null; true"
    );
    assert_eq!(scan_remote_dir("/a/\n\n/b//\n"), vec!["/a", "/b"]);
    assert_eq!(expand_tilde_with("~/Code", Some("/home/me")), "/home/me/Code");
    assert_eq!(expand_tilde_with("~x/Code", Some("/home/me")), "~x/Code");
    assert_eq!(expand_tilde_with("~/Code", None), "~/Code");
    assert_eq!(expand_tilde("/abs"), "/abs");
    assert!(expand_tilde("~/Code").ends_with("/Code"));
}

#[test]
fn repo_resolution() {
    let repos = vec![local_repo("/home/a/one"), local_repo("/home/a/two")];
    assert!(repo_matches("/home/a/two", "a/two"));
    assert!(!repo_matches("/home/a/two", "b"));
    let picked = resolve_repo(vec![local_repo("/home/a/one"), local_repo("/home/a/two")], Some("two")).unwrap();
    assert_eq!(picked.config.path, "/home/a/two");
    assert_eq!(
        resolve_repo(vec![local_repo("/p")], Some("q")).err().unwrap(),
        "repo not found: q"
    );
    assert_eq!(resolve_repo(vec![local_repo("/p")], None).unwrap().config.path, "/p");
    assert_eq!(
        resolve_repo(vec![], None).err().unwrap(),
        "no repos configured. Set scan_dirs or add repos explicitly."
    );
    assert_eq!(
        resolve_repo(repos, None).err().unwrap(),
        "multiple repos found, specify with --repo. Repos: /home/a/one, /home/a/two"
    );
    let order = worktree_search_order(vec![local_repo("/a/x"), local_repo("/b/y")], Some("y"));
    assert_eq!(order.len(), 1);
    assert_eq!(order[0].config.path, "/b/y");
}

#[test]
fn gathering_and_rows() {
    let mut remote_repo = local_repo("/srv/r2");
    remote_repo.env_name = "box".to_string();
    remote_repo.remote = Some(RemoteConfig::with_host("box".to_string()));
    let all = vec![local_repo("/l/r1"), remote_repo];
    let remotes = split_by_location(
        vec![local_repo("/l/r1"), {
            let mut d = local_repo("/srv/r2");
            d.remote = Some(RemoteConfig::with_host("box".to_string()));
            d
        }],
        true,
    );
    assert_eq!(remotes.len(), 1);
    assert_eq!(remotes[0].config.path, "/srv/r2");
    let listing = parse_batch_git_output(
        "___REPO___/l/r1\nworktree /l/r1\nbranch refs/heads/main\n\nworktree /l/r1-f\nbranch refs/heads/f\n\n___ENDREPO___\n",
    );
    let gathered = with_worktrees(all, &listing);
    assert_eq!(gathered.len(), 1);
    assert_eq!(gathered[0].1, "r1");
    assert_eq!(repo_choice_lines(&gathered), vec!["local: r1 (/l/r1)"]);
    let mut g = gathered;
    g[0].2 = vec![worktree("old", Some(10)), worktree("new", Some(20)), worktree("main", None)];
    let state = GatheredState {
        repos: g,
        local_sessions: vec![make_session("r1.old", 0), make_session("r1.main", 1)],
        remote_sessions: vec![],
    };
    let rows = worktree_rows(&state);
    let order: Vec<String> = rows.iter().map(|r| r.worktree.branch.clone()).collect();
    assert_eq!(order, vec!["main", "old", "new"]);
    assert_eq!(state.sessions_for_env("box").len(), 0);
    assert_eq!(state.sessions_for_env("local").len(), 2);
}

#[test]
fn reopen_and_dialogs() {
    let names = vec!["a".to_string(), "b".to_string(), "c".to_string(), "d".to_string()];
    let live = vec![None, Some("T".to_string()), None];
    let plan = reopen_plan(&names, &live);
    let kinds: Vec<String> = plan
        .iter()
        .map(|s| match s {
            ReopenStep::Focus(id) => format!("focus {}", id),
            ReopenStep::Tab(n) => format!("tab {}", n),
            ReopenStep::SplitRight(n) => format!("split {}", n),
        })
        .collect();
    assert_eq!(kinds, vec!["tab a", "focus T", "split c", "split d"]);
    let ids = vec!["t1".to_string(), "t2".to_string()];
    assert_eq!(first_live(&ids, &vec![false, true]), Some("t2".to_string()));
    assert_eq!(first_live(&ids, &vec![false]), None);
    assert_eq!(remove_choice(true, "\n"), RemoveChoice::KillSessions);
    assert_eq!(remove_choice(true, " 2 "), RemoveChoice::KillAndRemove);
    assert_eq!(remove_choice(true, "q"), RemoveChoice::Cancel);
    assert_eq!(remove_choice(false, "1"), RemoveChoice::RemoveWorktree);
    assert_eq!(remove_choice(false, "2"), RemoveChoice::Cancel);
    assert_eq!(read_answer("  feat \n"), Some("feat".to_string()));
    assert_eq!(read_answer(" \n"), None);
}

#[test]
fn display_lines_and_keys() {
    let mut wt = worktree("main", Some(5));
    wt.remote = Some(WorktreeRemote { ahead: 2, behind: 0 });
    wt.working_tree = Some(WorktreeWorkingTree {
        staged: true,
        modified: false,
        untracked: true,
        diff: WorktreeDiff { added: 3, deleted: 1 },
    });
    let s = make_session("r.main", 1);
    let d = WorktreeDisplay {
        env_name: "local",
        repo_name: "r",
        worktree: &wt,
        session: Some(&s),
    };
    assert_eq!(d.tracking_info_plain(), "↑2 staged,untracked +3-1");
    assert_eq!(d.picker_line(), "● local: r/main [↑2 staged,untracked +3-1]");
    assert_eq!(d.sort_key(), (0, u64::MAX - 5));
    let colored = d.tracking_info();
    let visible: String = strip_escapes(&colored);
    assert_eq!(visible, "↑2 staged,untracked +3-1");
    assert_eq!(strip_escapes(&d.session_indicator()), "●");
    assert_eq!(strip_escapes(&d.session_label()), "attached");
    let clean = worktree("x", None);
    let d2 = WorktreeDisplay {
        env_name: "box",
        repo_name: "r",
        worktree: &clean,
        session: None,
    };
    assert_eq!(d2.picker_line(), "  box: r/x");
    assert_eq!(d2.sort_key(), (2, u64::MAX));
    assert_eq!(strip_escapes(&d2.tracking_info()), "clean");
}

fn strip_escapes(s: &str) -> String {
    let mut out = String::new();
    let mut in_esc = false;
    for c in s.chars() {
        if in_esc {
            if c == 'm' {
                in_esc = false;
            }
        } else if c == '\u{1b}' {
            in_esc = true;
        } else {
            out.push(c);
        }
    }
    out
}

#[test]
fn top_level_zmx_variant() {
    let out = "→ session_name=a\n  session_name=b\nsession_name=c\tclients=2\n";
    let sessions = gzmx::parse_zmx_list(out);
    // lines are read whole: the marked and the indented line name nothing usable
    let names: Vec<String> = sessions.iter().map(|s| s.name.clone()).collect();
    assert_eq!(names, vec!["c"]);
    assert_eq!(gzmx::next_session_name("r", "m", &vec![]), "r.m");
    assert_eq!(
        gzmx::next_session_name("r", "m", &vec![make_session("r.m", 0), make_session("r.m.2", 0)]),
        "r.m.3"
    );
}

#[test]
fn session_and_repo_labels() {
    assert_eq!(strip_escapes(&client_status(&make_session("a", 2))), "● 2");
    assert_eq!(strip_escapes(&client_status(&make_session("b", 0))), "◌ 0");
    let mut config = Config::default();
    assert_eq!(remote_env_label(&config), "remote");
    let local_repo = RepoConfig { path: "/src/app".to_string(), remote: None };
    assert_eq!(strip_escapes(&repo_remote_label(&config, &local_repo)), " (local)");
    let mut rm = RemoteConfig::with_host("devbox".to_string());
    rm.user = Some("me".to_string());
    config.remote = Some(rm);
    assert_eq!(remote_env_label(&config), "devbox");
    assert_eq!(strip_escapes(&repo_remote_label(&config, &local_repo)), " (me@devbox)");
}

#[test]
fn open_plans() {
    let sessions = vec![make_session("r.m.2", 0), make_session("r.m", 1), make_session("r.x", 0)];
    match open_plan("r", "m", Some("right"), true, true, &sessions, Some("T1")) {
        OpenPlan::SplitNew { session, terminal, direction } => {
            assert_eq!((session.as_str(), terminal.as_str(), direction.as_str()), ("r.m.3", "T1", "right"))
        }
        other => panic!("unexpected {:?}", other),
    }
    match open_plan("r", "m", Some("down"), true, true, &sessions, None) {
        OpenPlan::TabNew { session, fallback } => assert_eq!((session.as_str(), fallback), ("r.m.3", true)),
        other => panic!("unexpected {:?}", other),
    }
    match open_plan("r", "n", None, true, false, &sessions, None) {
        OpenPlan::AttachNew { session } => assert_eq!(session, "r.n"),
        other => panic!("unexpected {:?}", other),
    }
    match open_plan("r", "m", None, false, true, &sessions, None) {
        OpenPlan::Reopen { sessions } => {
            let names: Vec<&str> = sessions.iter().map(|s| s.name.as_str()).collect();
            assert_eq!(names, vec!["r.m", "r.m.2"]);
        }
        other => panic!("unexpected {:?}", other),
    }
    match open_plan("r", "z", None, false, true, &sessions, None) {
        OpenPlan::TabBase { session } => assert_eq!(session, "r.z"),
        other => panic!("unexpected {:?}", other),
    }
    match open_plan("r", "m", None, false, false, &sessions, None) {
        OpenPlan::AttachBase { session } => assert_eq!(session, "r.m"),
        other => panic!("unexpected {:?}", other),
    }
}
