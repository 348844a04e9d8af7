use ghostmux::ghostty_lib::cmd::{
    command_line, command_outcome, interactive_command_line, shell_escape, shell_join,
    ssh_control_path, ssh_mux_args,
};
use ghostmux::ghostty_lib::remote::RemoteConfig;

fn strings(v: &[&str]) -> Vec<String> {
    v.iter().map(|s| s.to_string()).collect()
}

#[test]
fn test_shell_escape_simple() {
    assert_eq!(shell_escape("hello"), "hello");
    assert_eq!(shell_escape("foo-bar_baz"), "foo-bar_baz");
    assert_eq!(shell_escape("/usr/bin/zmx"), "/usr/bin/zmx");
    assert_eq!(shell_escape("host:port"), "host:port");
}

#[test]
fn test_shell_escape_special_chars() {
    assert_eq!(shell_escape("hello world"), "'hello world'");
    assert_eq!(shell_escape("it's"), "'it'\\''s'");
    assert_eq!(shell_escape("foo;bar"), "'foo;bar'");
}

#[test]
fn test_shell_join() {
    assert_eq!(
        shell_join(&strings(&["zmx", "attach", "foo.main"])),
        "zmx attach foo.main"
    );
    assert_eq!(
        shell_join(&strings(&["sh", "-c", "echo hello"])),
        "sh -c 'echo hello'"
    );
}

#[test]
fn test_ssh_control_path() {
    let path = ssh_control_path("/tmp", "user@host.example.com");
    assert!(path.contains("ghostreelite-ssh-"));
    assert!(path.contains("user_host_example_com"));
    assert!(!path.contains('@'));
    assert!(!path.contains('.'));
}

#[test]
fn test_ssh_mux_args() {
    let args = ssh_mux_args("/tmp", "user@host");
    assert_eq!(args.len(), 8); // 4 pairs of -o + value
    assert!(args.contains(&"ControlMaster=auto".to_string()));
    assert!(args.contains(&"ControlPersist=60".to_string()));
    assert!(args.contains(&"ConnectTimeout=5".to_string()));
}

#[test]
fn shell_escape_unicode_letters_are_plain() {
    assert_eq!(shell_escape("café"), "café");
    assert_eq!(shell_escape(""), "");
    assert_eq!(shell_escape("a b'c"), "'a b'\\''c'");
}

#[test]
fn ssh_control_path_exact() {
    assert_eq!(
        ssh_control_path("/tmp", "u@h.x"),
        "/tmp/ghostreelite-ssh-u_h_x"
    );
    assert_eq!(
        ssh_mux_args("/tmp", "h")[3],
        "ControlPath=/tmp/ghostreelite-ssh-h"
    );
}

#[test]
fn command_line_local_and_remote() {
    assert_eq!(command_line(&strings(&[]), None, "/tmp"), None);
    assert_eq!(
        command_line(&strings(&["zmx", "list"]), None, "/tmp"),
        Some(strings(&["zmx", "list"]))
    );
    let r = RemoteConfig {
        host: "h".to_string(),
        user: Some("u".to_string()),
        scan_dirs: vec![],
        transport: "ssh".to_string(),
    };
    let line = command_line(&strings(&["sh", "-c", "echo hi"]), Some(&r), "/tmp").unwrap();
    assert_eq!(line.len(), 11);
    assert_eq!(line[0], "ssh");
    assert_eq!(line[9], "u@h");
    assert_eq!(line[10], "sh -c 'echo hi'");
    assert_eq!(
        interactive_command_line(&strings(&["zmx", "attach", "a b"]), Some(&r)),
        Some(strings(&["ssh", "-t", "u@h", "zmx attach 'a b'"]))
    );
    assert_eq!(interactive_command_line(&strings(&[]), None), None);
}

#[test]
fn command_outcome_errors() {
    assert_eq!(command_outcome(true, "out\n", "err"), Ok("out\n".to_string()));
    assert_eq!(command_outcome(false, " out \n", ""), Err("out".to_string()));
    assert_eq!(command_outcome(false, "out", " bad \n"), Err("bad".to_string()));
}

#[test]
fn plain_ascii_words() {
    assert_eq!(shell_escape("hello"), "hello");
    assert_eq!(shell_escape("a-b_c/d.e:f"), "a-b_c/d.e:f");
    assert_eq!(shell_escape("it's"), "'it'\\''s'");
    assert_eq!(shell_join(&vec!["ls".to_string(), "-la".to_string(), "my dir".to_string()]), "ls -la 'my dir'");
}
