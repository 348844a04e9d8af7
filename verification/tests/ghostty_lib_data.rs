use ghostmux::ghostty_lib::remote::RemoteConfig;
use ghostmux::ghostty_lib::state::TerminalState;
use ghostmux::ghostty_lib::worktree::{
    batch_git_script, create_worktree, find_worktree, list_worktrees_batch_fast,
    parse_batch_git_output, remove_worktree, Worktree,
};

#[test]
fn test_ssh_target_with_user() {
    let r = RemoteConfig {
        host: "myhost".to_string(),
        user: Some("nico".to_string()),
        scan_dirs: vec![],
        transport: "ssh".to_string(),
    };
    assert_eq!(r.ssh_target(), "nico@myhost");
}

#[test]
fn test_ssh_target_no_user() {
    let r = RemoteConfig {
        host: "myhost".to_string(),
        user: None,
        scan_dirs: vec![],
        transport: "ssh".to_string(),
    };
    assert_eq!(r.ssh_target(), "myhost");
}

#[test]
fn test_use_mosh() {
    let ssh = RemoteConfig {
        host: "h".to_string(),
        user: None,
        scan_dirs: vec![],
        transport: "ssh".to_string(),
    };
    assert!(!ssh.use_mosh());

    let mosh = RemoteConfig {
        host: "h".to_string(),
        user: None,
        scan_dirs: vec![],
        transport: "mosh".to_string(),
    };
    assert!(mosh.use_mosh());
}

#[test]
fn remote_with_host_defaults_to_ssh() {
    let r = RemoteConfig::with_host("box".to_string());
    assert_eq!(r.transport, "ssh");
    assert_eq!(r.ssh_target(), "box");
    assert!(!r.use_mosh());
}

#[test]
fn test_add_and_get() {
    let mut state = TerminalState::default();
    state.add("foo.main", "term-1");
    state.add("foo.main", "term-2");
    state.add("bar.dev", "term-3");

    assert_eq!(state.get("foo.main"), vec!["term-1", "term-2"]);
    assert_eq!(state.get("bar.dev"), vec!["term-3"]);
    assert!(state.get("nonexistent").is_empty());
}

#[test]
fn test_remove_session() {
    let mut state = TerminalState::default();
    state.add("foo.main", "term-1");
    state.add("foo.main", "term-2");
    state.add("bar.dev", "term-3");

    state.remove_session("foo.main");
    assert!(state.get("foo.main").is_empty());
    assert_eq!(state.get("bar.dev"), vec!["term-3"]);
}

#[test]
fn test_remove_terminal() {
    let mut state = TerminalState::default();
    state.add("foo.main", "term-1");
    state.add("foo.main", "term-2");
    state.add("bar.dev", "term-2"); // same ID in different session

    state.remove_terminal("term-2");
    assert_eq!(state.get("foo.main"), vec!["term-1"]);
    assert!(state.get("bar.dev").is_empty()); // cleaned up empty entry
}

#[test]
fn test_get_worktree_terminals() {
    let mut state = TerminalState::default();
    state.add("myrepo.main", "t1");
    state.add("myrepo.main.2", "t2");
    state.add("myrepo.main.3", "t3");
    state.add("myrepo.feature", "t4");
    state.add("other.main", "t5");

    let wt = state.get_worktree_terminals("myrepo", "main");
    let names: Vec<String> = wt.iter().map(|(n, _)| n.clone()).collect();
    assert!(names.contains(&"myrepo.main".to_string()));
    assert!(names.contains(&"myrepo.main.2".to_string()));
    assert!(names.contains(&"myrepo.main.3".to_string()));
    assert_eq!(wt.len(), 3);
}

#[test]
fn test_get_worktree_terminals_no_false_match() {
    let mut state = TerminalState::default();
    state.add("repo.main", "t1");
    state.add("repo.main-v2", "t2"); // different branch, not a variant

    let wt = state.get_worktree_terminals("repo", "main");
    assert_eq!(wt.len(), 1);
}

#[test]
fn state_lifecycle_in_memory() {
    let mut state = TerminalState::new();
    assert!(state.terminals.is_empty());
    state.add("project.main", "term-aaa");
    state.add("project.main", "term-bbb");
    state.add("project.main.2", "term-ccc");
    state.add("project.feature", "term-ddd");
    assert_eq!(state.get_worktree_terminals("project", "main").len(), 2);
    state.remove_session("project.main.2");
    assert!(state.get("project.main.2").is_empty());
    state.remove_terminal("term-aaa");
    assert_eq!(state.get("project.main"), vec!["term-bbb"]);
    assert_eq!(TerminalState::state_path("/base"), "/base/terminals.json");
    assert_eq!(TerminalState::state_path("/base/"), "/base/terminals.json");
}

#[test]
fn cleanup_removes_gone_terminals() {
    let mut state = TerminalState::new();
    state.add("a.main", "t1");
    state.add("a.main", "t2");
    state.add("b.dev", "t3");
    let all = state.all_terminals();
    assert_eq!(
        all,
        vec![
            ("a.main".to_string(), "t1".to_string()),
            ("a.main".to_string(), "t2".to_string()),
            ("b.dev".to_string(), "t3".to_string()),
        ]
    );
    // t1 alive, t2 alive, t3 gone
    state.cleanup(&vec![true, true, false]);
    assert_eq!(state.get("a.main"), vec!["t1", "t2"]);
    assert!(state.get("b.dev").is_empty());
    assert_eq!(state.terminals.len(), 1);
    // nothing gone: nothing changes
    state.cleanup(&vec![true, true]);
    assert_eq!(state.get("a.main"), vec!["t1", "t2"]);
}

#[test]
fn find_valid_terminal_takes_first_alive() {
    let mut state = TerminalState::new();
    state.add("r.main", "t1");
    state.add("r.main.2", "t2");
    state.add("other.main", "t9");
    let c = state.worktree_candidates("r", "main");
    assert_eq!(c.len(), 2);
    assert_eq!(
        state.find_valid_terminal("r", "main", &vec![false, true]),
        Some(("r.main.2".to_string(), "t2".to_string()))
    );
    assert_eq!(state.find_valid_terminal("r", "main", &vec![false, false]), None);
    assert_eq!(state.find_valid_terminal("r", "main", &vec![]), None);
}

const ONE_REPO: &str = "\
___REPO___/home/user/Code/myrepo
worktree /home/user/Code/myrepo
HEAD abc123
branch refs/heads/main

___STATUS___
___REMOTE___
3\t1
___ENDREPO___
";

#[test]
fn test_parse_batch_single_repo_single_worktree() {
    let result = parse_batch_git_output(ONE_REPO);
    assert_eq!(result.len(), 1);
    let wts = result.get("/home/user/Code/myrepo").unwrap();
    assert_eq!(wts.len(), 1);
    assert_eq!(wts[0].branch, "main");
    assert_eq!(wts[0].path, "/home/user/Code/myrepo");
    assert!(wts[0].is_main);
    // Remote ahead/behind applied to first worktree
    let remote = wts[0].remote.as_ref().unwrap();
    assert_eq!(remote.ahead, 3);
    assert_eq!(remote.behind, 1);
}

#[test]
fn test_parse_batch_multiple_worktrees() {
    let output = "\
___REPO___/home/user/Code/myrepo
worktree /home/user/Code/myrepo
HEAD abc123
branch refs/heads/main

worktree /home/user/Code/myrepo-feature
HEAD def456
branch refs/heads/feature

___STATUS___
 M src/main.rs
?? untracked.txt
___REMOTE___
___ENDREPO___
";
    let result = parse_batch_git_output(output);
    let wts = result.get("/home/user/Code/myrepo").unwrap();
    assert_eq!(wts.len(), 2);

    // First worktree is main
    assert_eq!(wts[0].branch, "main");
    assert!(wts[0].is_main);

    // Second worktree is not main
    assert_eq!(wts[1].branch, "feature");
    assert!(!wts[1].is_main);

    // Status applied to first worktree
    let wt = wts[0].working_tree.as_ref().unwrap();
    assert!(wt.modified);
    assert!(wt.untracked);
    assert!(!wt.staged);
}

#[test]
fn test_parse_batch_status_parsing() {
    let output = "\
___REPO___/repo
worktree /repo
HEAD abc
branch refs/heads/main

___STATUS___
A  new_file.rs
 M modified.rs
?? untracked.txt
___REMOTE___
___ENDREPO___
";
    let result = parse_batch_git_output(output);
    let wts = result.get("/repo").unwrap();
    let wt = wts[0].working_tree.as_ref().unwrap();
    assert!(wt.staged); // A in index column
    assert!(wt.modified); // M in working tree column
    assert!(wt.untracked); // ??
}

#[test]
fn test_parse_batch_multiple_repos() {
    let output = "\
___REPO___/repo1
worktree /repo1
HEAD abc
branch refs/heads/main

___STATUS___
___REMOTE___
___ENDREPO___
___REPO___/repo2
worktree /repo2
HEAD def
branch refs/heads/develop

___STATUS___
___REMOTE___
___ENDREPO___
";
    let result = parse_batch_git_output(output);
    assert_eq!(result.len(), 2);
    assert!(result.contains_key("/repo1"));
    assert!(result.contains_key("/repo2"));
    assert_eq!(result.get("/repo1").unwrap()[0].branch, "main");
    assert_eq!(result.get("/repo2").unwrap()[0].branch, "develop");
}

#[test]
fn test_parse_batch_trailing_slash_stripped() {
    let output = "\
___REPO___/repo/
worktree /repo
HEAD abc
branch refs/heads/main

___STATUS___
___REMOTE___
___ENDREPO___
";
    let result = parse_batch_git_output(output);
    assert!(result.contains_key("/repo"));
}

#[test]
fn test_parse_batch_empty_input() {
    let result = parse_batch_git_output("");
    assert!(result.is_empty());
}

#[test]
fn test_parse_batch_no_remote_tracking() {
    let output = "\
___REPO___/repo
worktree /repo
HEAD abc
branch refs/heads/main

___STATUS___
___REMOTE___
___ENDREPO___
";
    let result = parse_batch_git_output(output);
    let wts = result.get("/repo").unwrap();
    assert!(wts[0].remote.is_none());
}

#[test]
fn test_parse_batch_clean_status() {
    let output = "\
___REPO___/repo
worktree /repo
HEAD abc
branch refs/heads/main

___STATUS___
___REMOTE___
0\t0
___ENDREPO___
";
    let result = parse_batch_git_output(output);
    let wts = result.get("/repo").unwrap();
    let wt = wts[0].working_tree.as_ref().unwrap();
    assert!(!wt.staged);
    assert!(!wt.modified);
    assert!(!wt.untracked);
    // 0/0 ahead/behind means no remote tracking info stored
    assert!(wts[0].remote.is_none());
}

#[test]
fn worktree_commands() {
    assert_eq!(
        create_worktree("/r", "feat", Some("main")),
        vec!["wt", "-C", "/r", "switch", "--yes", "--create", "feat", "--base", "main"]
    );
    assert_eq!(
        remove_worktree("/r", "feat", true),
        vec!["wt", "-C", "/r", "remove", "--yes", "--foreground", "feat", "--force"]
    );
    assert_eq!(list_worktrees_batch_fast(&vec![]), None);
    let cmd = list_worktrees_batch_fast(&vec!["/a b".to_string()]).unwrap();
    assert_eq!(cmd[0], "sh");
    assert_eq!(cmd[1], "-c");
    assert!(cmd[2].starts_with("for d in '/a b'; do\n"));
    assert_eq!(cmd[2], batch_git_script(&vec!["/a b".to_string()]));
}

#[test]
fn find_worktree_by_branch() {
    let wts: Vec<Worktree> = parse_batch_git_output(ONE_REPO)
        .get("/home/user/Code/myrepo")
        .unwrap()
        .clone();
    assert_eq!(find_worktree(wts.clone(), "main").unwrap().path, "/home/user/Code/myrepo");
    assert!(find_worktree(wts, "other").is_none());
}

#[test]
fn batch_output_blocks_recorded() {
    let output = "___REPO___/src/a/\nworktree /src/a\nHEAD abc\nbranch refs/heads/main\n\nworktree /src/a-feat\nHEAD def\nbranch refs/heads/feat\n\n___STATUS___\n M x.rs\n?? y.rs\n___REMOTE___\n2\t1\n___ENDREPO___\n___REPO___/src/b\nworktree /src/b\nHEAD abc\ndetached\n\n___STATUS___\n___REMOTE___\n___ENDREPO___\n";
    let result = parse_batch_git_output(output);
    assert_eq!(result.len(), 1);
    assert!(result.contains_key("/src/a"));
    assert!(!result.contains_key("/src/b"));
    let wts = result.get("/src/a").unwrap();
    assert_eq!(wts.len(), 2);
    assert!(wts[0].is_main);
    let first = wts[0].working_tree.as_ref().unwrap();
    assert!(first.modified && first.untracked && !first.staged);
    assert_eq!(wts[0].remote.as_ref().map(|r| (r.ahead, r.behind)), Some((2, 1)));
    assert!(!wts[1].is_main);
    assert!(wts[1].remote.is_none());
    let second = wts[1].working_tree.as_ref().unwrap();
    assert!(!second.staged && !second.modified && !second.untracked);
    assert!(wts.iter().all(|w| w.commit.is_none() && !w.is_current));
}
