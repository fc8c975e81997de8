use agentssh::cli::{ContextCmd, HostKeyPolicyArg};
use agentssh::config::{
    apply_context_command, auth_from_flags, check_contexts_mode, default_port, expand_home,
    get_context, path_join, paths_in, Auth, ConfigError, ContextsFile, HostKeyPolicy, SshContext,
};

fn ctx(host: &str, port: u16, user: &str, auth: Auth, policy: HostKeyPolicy) -> SshContext {
    SshContext { host: host.into(), port, user: user.into(), auth, host_key_policy: policy }
}

fn add(name: &str, host: &str, key: Option<&str>, agent: bool) -> ContextCmd {
    ContextCmd::Add {
        name: name.into(),
        host: host.into(),
        port: 22,
        user: "deploy".into(),
        key: key.map(|k| k.to_string()),
        agent,
        host_key_policy: HostKeyPolicyArg::AcceptNew,
    }
}

#[test]
fn defaults() {
    assert_eq!(default_port(), 22);
    assert_eq!(HostKeyPolicy::default(), HostKeyPolicy::AcceptNew);
}

#[test]
fn insert_get_remove() {
    let mut f = ContextsFile::new();
    assert!(f.is_empty());
    assert!(!f.insert("prod".into(), ctx("10.0.0.1", 22, "u", Auth::Agent, HostKeyPolicy::Strict)));
    assert!(!f.insert("dev".into(), ctx("10.0.0.2", 2222, "v", Auth::Agent, HostKeyPolicy::AcceptNew)));
    assert_eq!(f.get("prod").unwrap().host, "10.0.0.1");
    assert!(f.insert("prod".into(), ctx("10.0.0.3", 22, "u", Auth::Agent, HostKeyPolicy::Strict)));
    assert_eq!(f.get("prod").unwrap().host, "10.0.0.3");
    assert_eq!(f.len(), 2);
    assert_eq!(f.entry(0).0, "dev");
    assert_eq!(f.entry(1).0, "prod");
    assert!(f.remove("dev"));
    assert!(!f.remove("dev"));
    assert!(f.get("dev").is_none());
}

#[test]
fn entries_are_sorted_like_btreemap() {
    let mut f = ContextsFile::new();
    let names = ["zeta", "Alpha", "alpha", "é", "a", "", "ab", "b"];
    for n in names {
        f.insert(n.into(), ctx("h", 22, "u", Auth::Agent, HostKeyPolicy::AcceptNew));
    }
    let mut expected: Vec<&str> = names.to_vec();
    expected.sort();
    let got: Vec<String> = (0..f.len()).map(|i| f.entry(i).0.clone()).collect();
    assert_eq!(got, expected);
}

#[test]
fn get_context_error() {
    let f = ContextsFile::new();
    match get_context(&f, "nope") {
        Err(e @ ConfigError::NoContext(_)) => assert_eq!(
            e.message(),
            "no context named 'nope'. Add one with: agentssh context add nope --host <h> --user <u> --key <path>"
        ),
        other => panic!("unexpected {other:?}"),
    }
}

#[test]
fn add_show_list_remove() {
    let mut f = ContextsFile::new();
    let r = apply_context_command(&mut f, add("prod", "10.0.4.2", Some("~/.ssh/id_ed25519"), false)).unwrap();
    assert_eq!(r.lines, vec!["added context 'prod'".to_string()]);
    assert!(r.changed);
    let r = apply_context_command(&mut f, add("prod", "10.0.4.3", None, true)).unwrap();
    assert_eq!(r.lines, vec!["updated context 'prod'".to_string()]);
    let got = get_context(&f, "prod").unwrap();
    assert_eq!(got.host, "10.0.4.3");
    assert!(matches!(got.auth, Auth::Agent));

    let r = apply_context_command(&mut f, ContextCmd::Show { name: "prod".into() }).unwrap();
    assert!(!r.changed);
    assert_eq!(
        r.lines,
        vec![
            "name            prod".to_string(),
            "host            10.0.4.3:22".to_string(),
            "user            deploy".to_string(),
            "auth            ssh-agent".to_string(),
            "host key policy accept-new".to_string(),
        ]
    );
    let r = apply_context_command(&mut f, ContextCmd::List).unwrap();
    assert_eq!(
        r.lines,
        vec![
            format!("{:<16} {:<24} {:<12} {:<8} POLICY", "NAME", "HOST", "USER", "AUTH"),
            format!("{:<16} {:<24} {:<12} {:<8} {}", "prod", "10.0.4.3:22", "deploy", "agent", "accept-new"),
        ]
    );
    let r = apply_context_command(&mut f, ContextCmd::Remove { name: "prod".into() }).unwrap();
    assert_eq!(r.lines, vec!["removed context 'prod'".to_string()]);
    let r = apply_context_command(&mut f, ContextCmd::List).unwrap();
    assert_eq!(r.lines, vec!["no contexts (add one with: agentssh context add ...)".to_string()]);
}

#[test]
fn context_command_errors() {
    let mut f = ContextsFile::new();
    let e = apply_context_command(&mut f, add("x", "h", None, false)).unwrap_err();
    assert_eq!(e.message(), "specify --key <path> or --agent");
    let e = apply_context_command(&mut f, ContextCmd::Show { name: "x".into() }).unwrap_err();
    assert_eq!(e.message(), "no context named 'x'");
    let e = apply_context_command(&mut f, ContextCmd::Remove { name: "x".into() }).unwrap_err();
    assert_eq!(e.message(), "no context named 'x'");
    assert!(f.is_empty());
}

#[test]
fn key_context_show_line() {
    let mut f = ContextsFile::new();
    apply_context_command(&mut f, add("k", "h", Some("/keys/id"), false)).unwrap();
    let r = apply_context_command(&mut f, ContextCmd::Show { name: "k".into() }).unwrap();
    assert_eq!(r.lines[3], "auth            key file at /keys/id");
}

#[test]
fn auth_flags() {
    assert!(matches!(auth_from_flags(Some("p".into()), false), Ok(Auth::Key { path }) if path == "p"));
    assert!(matches!(auth_from_flags(None, true), Ok(Auth::Agent)));
    assert!(matches!(auth_from_flags(None, false), Err(ConfigError::MissingAuth)));
}

#[test]
fn contexts_file_mode() {
    assert!(check_contexts_mode("/c", 0o100600).is_ok());
    assert!(check_contexts_mode("/c", 0o100400).is_ok());
    let e = check_contexts_mode("/c/contexts.toml", 0o100644).unwrap_err();
    assert_eq!(
        e.message(),
        "/c/contexts.toml is readable by other users (mode 644); it holds connection config.\nFix it with: chmod 600 /c/contexts.toml"
    );
}

#[test]
fn paths_and_join() {
    for (a, b) in [("/home/u/.config", "x.toml"), ("/d/", "x"), ("", "x"), ("/d", "/abs"), ("/d", "")] {
        let expected = std::path::Path::new(a).join(b).to_string_lossy().into_owned();
        assert_eq!(path_join(a, b), expected, "{a:?} {b:?}");
    }
    let p = paths_in("/cfg/agentssh", "/data/agentssh");
    assert_eq!(p.contexts_file, "/cfg/agentssh/contexts.toml");
    assert_eq!(p.db_file, "/data/agentssh/agentssh.db");
    assert_eq!(p.recordings_dir, "/data/agentssh/recordings");
}

#[test]
fn home_expansion() {
    assert_eq!(expand_home("~/.ssh/id", Some("/home/u")), "/home/u/.ssh/id");
    assert_eq!(expand_home("~/.ssh/id", None), "~/.ssh/id");
    assert_eq!(expand_home("/abs/id", Some("/home/u")), "/abs/id");
    assert_eq!(expand_home("~user/id", Some("/home/u")), "~user/id");
}
