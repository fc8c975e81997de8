use agentssh::store::{Command, Session};
use agentssh::web::{timestamp_nanos, bind_allowed, command_row, duration_of, format_duration, session_row, short};

fn session(kind: &str, started: &str, ended: Option<&str>) -> Session {
    Session {
        id: "abc".into(),
        context: "prod".into(),
        kind: kind.into(),
        command: Some("line one\nline two".into()),
        tmux_name: None,
        cols: None,
        rows: None,
        started_at: started.into(),
        ended_at: ended.map(|e| e.to_string()),
        exit_code: Some(0),
        status: "closed".into(),
        recording: "/r".into(),
    }
}

#[test]
fn short_timestamps() {
    assert_eq!(short("2024-05-01T10:00:00.123456Z"), "2024-05-01 10:00:00");
    assert_eq!(short("bad"), "bad");
}

#[test]
fn durations() {
    assert_eq!(format_duration(0), "0s");
    assert_eq!(format_duration(59), "59s");
    assert_eq!(format_duration(187), "3m07s");
    assert_eq!(format_duration(3900), "1h05m");
    assert_eq!(duration_of(&session("run", "2024-05-01T10:00:00Z", Some("2024-05-01T10:03:07.9Z"))), "3m07s");
    assert_eq!(duration_of(&session("run", "2024-05-01T10:00:00Z", None)), "-");
    assert_eq!(duration_of(&session("run", "garbage", Some("2024-05-01T10:00:00Z"))), "-");
    assert_eq!(duration_of(&session("run", "2024-05-01T10:00:05Z", Some("2024-05-01T10:00:00Z"))), "0s");
    assert_eq!(duration_of(&session("run", "2024-05-01T12:00:00+02:00", Some("2024-05-01T10:00:30Z"))), "30s");
}

#[test]
fn rows() {
    let r = session_row(&session("run", "2024-05-01T10:00:00Z", Some("2024-05-01T11:05:00Z")), 0, None);
    assert_eq!(r.started, "2024-05-01 10:00:00");
    assert_eq!(r.ended, "2024-05-01 11:05:00");
    assert_eq!(r.duration, "1h05m");
    assert_eq!(r.exit, "0");
    assert_eq!(r.command, "line one\nline two");
    assert_eq!(r.summary, "line one line two");
    let r = session_row(&session("shell", "2024-05-01T10:00:00Z", None), 5, Some("make\ntest"));
    assert_eq!(r.command, "make\ntest");
    assert_eq!(r.summary, "[5 cmds] make test");
    let r = session_row(&session("shell", "2024-05-01T10:00:00Z", None), 0, None);
    assert_eq!(r.summary, "[0 cmds]");
    assert_eq!(r.command, "");
}

#[test]
fn command_rows() {
    let c = |code: Option<i64>, ended: bool| Command {
        seq: 1,
        command: "ls".into(),
        started_at: "2024-05-01T10:00:00Z".into(),
        ended_at: if ended { Some("2024-05-01T10:00:01Z".into()) } else { None },
        exit_code: code,
    };
    let r = command_row(&c(Some(1), true));
    assert_eq!(r.exit, "1");
    assert!(r.failed);
    let r = command_row(&c(None, true));
    assert_eq!(r.exit, "-");
    assert!(!r.failed);
    let r = command_row(&c(None, false));
    assert_eq!(r.exit, "running");
    assert_eq!(r.started, "2024-05-01 10:00:00");
}

#[test]
fn binding() {
    assert!(bind_allowed(true, false));
    assert!(!bind_allowed(false, false));
    assert!(bind_allowed(false, true));
}

#[test]
fn timestamps_parse_to_nanos() {
    assert_eq!(timestamp_nanos("1970-01-01T00:00:01.5Z"), Some(1_500_000_000));
    assert_eq!(timestamp_nanos("1970-01-01T01:00:00+01:00"), Some(0));
    assert_eq!(timestamp_nanos("not a time"), None);
}
