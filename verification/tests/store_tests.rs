use agentssh::store::{
    list_sessions_sql, needs_migration, new_session_id, next_command_seq, pick_session,
    recording_path, session_id_from_bytes, FindError, Session,
};

fn session(id: &str) -> Session {
    Session {
        id: id.into(),
        context: "prod".into(),
        kind: "run".into(),
        command: Some("ls".into()),
        tmux_name: None,
        cols: Some(80),
        rows: Some(24),
        started_at: "2024-05-01T10:00:00Z".into(),
        ended_at: None,
        exit_code: None,
        status: "active".into(),
        recording: "/r/x.cast".into(),
    }
}

#[test]
fn ids_are_lower_hex() {
    assert_eq!(session_id_from_bytes([0, 1, 0xab, 0xff, 0x10, 0x09, 0x7f, 0x80]), "0001abff10097f80");
    let id = new_session_id();
    assert_eq!(id.len(), 16);
    assert!(id.chars().all(|c| c.is_ascii_hexdigit() && !c.is_ascii_uppercase()));
    assert_ne!(new_session_id(), new_session_id());
}

#[test]
fn recording_file() {
    assert_eq!(recording_path("/data/recordings", "abc"), "/data/recordings/abc.cast");
}

#[test]
fn command_numbers() {
    assert_eq!(next_command_seq(None), 1);
    assert_eq!(next_command_seq(Some(41)), 42);
}

#[test]
fn list_query() {
    assert_eq!(list_sessions_sql(false, false), "SELECT * FROM sessions WHERE 1=1 ORDER BY started_at DESC LIMIT ?");
    assert_eq!(
        list_sessions_sql(true, true),
        "SELECT * FROM sessions WHERE 1=1 AND context = ? AND status IN ('active','detached') ORDER BY started_at DESC LIMIT ?"
    );
}

#[test]
fn migration_check() {
    assert!(!needs_migration(None));
    assert!(needs_migration(Some("CREATE TABLE sessions (kind TEXT CHECK (kind IN ('run','connect')))")));
    assert!(!needs_migration(Some("CREATE TABLE sessions (kind TEXT CHECK (kind IN ('run','shell','connect')))")));
}

#[test]
fn prefix_resolution() {
    let exact = pick_session("abc", Some(session("abc")), vec![session("abcd"), session("abce")]).unwrap();
    assert_eq!(exact.id, "abc");
    let one = pick_session("ab", None, vec![session("abcd")]).unwrap();
    assert_eq!(one.id, "abcd");
    let e = pick_session("zz", None, vec![]).unwrap_err();
    assert!(matches!(&e, FindError::NoMatch(p) if p == "zz"));
    assert_eq!(e.message(), "no session matching 'zz' (see: agentssh sessions list)");
    let e = pick_session("ab", None, vec![session("abcd"), session("abce")]).unwrap_err();
    assert!(matches!(&e, FindError::Ambiguous(p, 2) if p == "ab"));
    assert_eq!(e.message(), "'ab' is ambiguous (2 sessions match); use a longer prefix");
}
