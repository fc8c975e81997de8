use agentssh::handler::{key_accepted, ClientHandler, HostKeyVerdict, KnownHostsCheck};
use agentssh::config::HostKeyPolicy;
use agentssh::session::{
    attach_refusal, backoff_base_ms, retry_delay_ms, drive_step, DriveAction, DriveEvent, DriveState, command_column_width, command_field, command_show_line, is_shell, list_command,
    needs_reactivation, output_tail, pump_end_on_close, reap_action, record_size, segment_line,
    segment_outcome, segment_reason, session_list_header, session_list_row, shell_list_header,
    shell_list_row, shell_outcome, stop_selection, term_size_or_default, AttachRefusal, PumpEnd,
    ReapAction, SegmentOutcome, ShellOutcome, StopSelection, MAX_ATTEMPTS,
};
use agentssh::store::{Command, Segment, Session};

fn session(kind: &str, status: &str, tmux: Option<&str>) -> Session {
    Session {
        id: "0123456789abcdef".into(),
        context: "prod".into(),
        kind: kind.into(),
        command: Some("echo hi\nls".into()),
        tmux_name: tmux.map(|t| t.to_string()),
        cols: None,
        rows: None,
        started_at: "2024-05-01T10:00:00.123Z".into(),
        ended_at: None,
        exit_code: Some(2),
        status: status.into(),
        recording: "/r.cast".into(),
    }
}

#[test]
fn terminal_sizes() {
    assert_eq!(term_size_or_default(Some((100, 40))), (100, 40));
    assert_eq!(term_size_or_default(Some((0, 40))), (80, 24));
    assert_eq!(term_size_or_default(None), (80, 24));
    assert_eq!(record_size((80, 24)), (120, 30));
    assert_eq!(record_size((200, 60)), (200, 60));
}

#[test]
fn backoff_schedule_law() {
    let got: Vec<u64> = (1..=MAX_ATTEMPTS).map(backoff_base_ms).collect();
    assert_eq!(got, vec![500, 1000, 2000, 4000, 8000, 15000, 15000, 15000, 15000, 15000]);
    assert_eq!(backoff_base_ms(0), 500);
    assert_eq!(backoff_base_ms(u32::MAX), 15000);
}

#[test]
fn host_key_policy_law() {
    let strict = ClientHandler { host: "h".into(), port: 22, policy: HostKeyPolicy::Strict };
    let accept = ClientHandler { host: "h".into(), port: 22, policy: HostKeyPolicy::AcceptNew };
    assert_eq!(strict.host_key_verdict(KnownHostsCheck::Matches), HostKeyVerdict::Accept);
    assert_eq!(strict.host_key_verdict(KnownHostsCheck::Unknown), HostKeyVerdict::RefuseUnknown);
    assert_eq!(accept.host_key_verdict(KnownHostsCheck::Unknown), HostKeyVerdict::Learn);
    for h in [&strict, &accept] {
        let v = h.host_key_verdict(KnownHostsCheck::Failed);
        assert_eq!(v, HostKeyVerdict::RefuseFailed);
        assert!(!key_accepted(v, true));
    }
    assert!(key_accepted(HostKeyVerdict::Learn, true));
    assert!(!key_accepted(HostKeyVerdict::Learn, false));
}

#[test]
fn segments() {
    assert_eq!(pump_end_on_close(Some(0)), PumpEnd::Clean(Some(0)));
    assert_eq!(pump_end_on_close(None), PumpEnd::Dropped);
    let o = segment_outcome(PumpEnd::Clean(Some(3)), true);
    assert_eq!(o, SegmentOutcome::Detached(3));
    assert_eq!(segment_reason(o), "detached");
    let o = segment_outcome(PumpEnd::Clean(None), false);
    assert_eq!(o, SegmentOutcome::Closed(None, 0));
    assert_eq!(segment_reason(o), "closed");
    let o = segment_outcome(PumpEnd::Dropped, true);
    assert_eq!(o, SegmentOutcome::Reconnect);
    assert_eq!(segment_reason(o), "dropped");
}

#[test]
fn attach_rules() {
    assert_eq!(attach_refusal(&session("run", "closed", None)), Some(AttachRefusal::NoTmux));
    assert_eq!(attach_refusal(&session("connect", "closed", Some("t"))), Some(AttachRefusal::Closed));
    assert_eq!(attach_refusal(&session("shell", "detached", Some("t"))), None);
}

#[test]
fn shell_decisions() {
    assert_eq!(reap_action(false, Some(0), true), ReapAction::Nothing);
    assert_eq!(reap_action(true, Some(7), false), ReapAction::CollectLate(7));
    assert_eq!(reap_action(true, None, true), ReapAction::CloseWithoutCode);
    assert_eq!(reap_action(true, None, false), ReapAction::Busy);
    assert_eq!(shell_outcome(254, false), ShellOutcome::ShellEnded);
    assert_eq!(shell_outcome(254, true), ShellOutcome::Finished(254));
    assert_eq!(shell_outcome(0, false), ShellOutcome::Finished(0));
    assert!(matches!(stop_selection(Some("x".into()), true), StopSelection::All));
    assert!(matches!(stop_selection(Some("x".into()), false), StopSelection::One(t) if t == "x"));
    assert!(matches!(stop_selection(None, false), StopSelection::Missing));
    assert!(needs_reactivation(&session("shell", "detached", Some("t"))));
    assert!(!needs_reactivation(&session("shell", "active", Some("t"))));
    assert!(is_shell(&session("shell", "active", None)));
    assert!(!is_shell(&session("run", "active", None)));
}

#[test]
fn listing_cells() {
    assert_eq!(command_column_width(None), 80);
    assert_eq!(command_column_width(Some(0)), 80);
    assert_eq!(command_column_width(Some(100)), 24);
    assert_eq!(command_column_width(Some(200)), 121);
    assert_eq!(command_column_width(Some(110)), 31);
    assert_eq!(command_column_width(Some(400)), 200);
    let run = session("run", "closed", None);
    assert_eq!(list_command(&run, 0, None, 80), "echo hi ls");
    let shell = session("shell", "active", Some("t"));
    assert_eq!(list_command(&shell, 3, Some("make   test"), 80), "[3 cmds] make test");
    assert_eq!(list_command(&shell, 0, None, 80), "[0 cmds]");
}

#[test]
fn listing_rows() {
    assert_eq!(
        session_list_header(),
        format!("{:<18} {:<12} {:<8} {:<9} {:<21} {:<5} COMMAND", "ID", "CONTEXT", "KIND", "STATUS", "STARTED", "EXIT")
    );
    let s = session("run", "closed", None);
    assert_eq!(
        session_list_row(&s, "echo hi ls"),
        format!("{:<18} {:<12} {:<8} {:<9} {:<21} {:<5} {}", s.id, "prod", "run", "closed", "2024-05-01T10:00:00", "2", "echo hi ls")
    );
    assert_eq!(
        shell_list_header(),
        format!("{:<18} {:<12} {:<9} {:<21} {:<5} LAST COMMAND", "ID", "CONTEXT", "STATUS", "STARTED", "CMDS")
    );
    assert_eq!(
        shell_list_row(&s, 4, None),
        format!("{:<18} {:<12} {:<9} {:<21} {:<5} {}", s.id, "prod", "closed", "2024-05-01T10:00:00", 4, "-")
    );
    let seg = Segment { connected_at: "2024-05-01T10:00:00Z".into(), disconnected_at: None, reason: None };
    assert_eq!(segment_line(1, &seg), "  1 2024-05-01T10:00:00 -> ... (active)");
}

#[test]
fn transcript_tail() {
    assert_eq!(output_tail("hello", 10), "hello");
    assert_eq!(output_tail("hello world", 5), "...world");
    // A cut inside a multi-byte character moves to the next boundary.
    assert_eq!(output_tail("ab\u{2026}cd", 4), "...cd");
    assert_eq!(output_tail("ab\u{2026}cd", 5), "...\u{2026}cd");
    assert_eq!(output_tail("\u{2026}", 1), "...");
}

fn command(seq: i64, exit: Option<i64>, ended: bool) -> Command {
    Command {
        seq,
        command: "make   test\n  && echo done".into(),
        started_at: "2024-05-01T10:11:12.5Z".into(),
        ended_at: if ended { Some("2024-05-01T10:11:20Z".into()) } else { None },
        exit_code: exit,
    }
}

#[test]
fn command_show_line_cells() {
    assert_eq!(command_show_line(&command(3, Some(0), true)), "    3 10:11:12    0  make test && echo done");
    assert_eq!(command_show_line(&command(12, Some(-1), true)), "   12 10:11:12   -1  make test && echo done");
    assert_eq!(command_show_line(&command(1, None, true)), "    1 10:11:12    -  make test && echo done");
    assert_eq!(command_show_line(&command(1000, None, false)), "  1000 10:11:12  ...  make test && echo done");
    let mut c = command(7, Some(1), true);
    c.started_at = "bad".into();
    assert_eq!(command_show_line(&c), "    7     1  make test && echo done");
}

#[test]
fn command_field_indents_continuations() {
    assert_eq!(command_field("ls -l"), vec!["command   ls -l".to_string()]);
    assert_eq!(
        command_field("echo a\r\necho b\n\nx"),
        vec![
            "command   echo a".to_string(),
            "          echo b".to_string(),
            "          ".to_string(),
            "          x".to_string(),
        ]
    );
    assert_eq!(command_field(""), vec!["command   ".to_string()]);
}

#[test]
fn drive_steps() {
    let first = DriveState { first_segment: true, segments: 0 };
    assert_eq!(
        drive_step(first, DriveEvent::ConnectFailed),
        (DriveState { first_segment: false, segments: 0 }, DriveAction::CloseAndFail)
    );
    assert_eq!(drive_step(first, DriveEvent::TmuxMissing).1, DriveAction::CloseAndFail);
    let (s1, a1) = drive_step(first, DriveEvent::Connected);
    assert_eq!(s1, DriveState { first_segment: false, segments: 1 });
    assert_eq!(a1, DriveAction::StartSegment(1));
    let (s1, a) = drive_step(s1, DriveEvent::SegmentEnded(SegmentOutcome::Reconnect));
    assert_eq!(a, DriveAction::Reconnect);
    // Every reconnect attempt failed: detached, exit 255.
    assert_eq!(drive_step(s1, DriveEvent::ConnectFailed).1, DriveAction::Detach(255));
    assert_eq!(drive_step(s1, DriveEvent::Connected).1, DriveAction::StartSegment(2));
    assert_eq!(
        drive_step(s1, DriveEvent::SegmentEnded(SegmentOutcome::Detached(0))).1,
        DriveAction::Detach(0)
    );
    assert_eq!(
        drive_step(s1, DriveEvent::SegmentEnded(SegmentOutcome::Closed(Some(3), 3))).1,
        DriveAction::Close(Some(3), 3)
    );
}

#[test]
fn retry_delays() {
    assert_eq!(retry_delay_ms(0), None);
    assert_eq!(retry_delay_ms(1), Some(500));
    assert_eq!(retry_delay_ms(5), Some(8000));
    assert_eq!(retry_delay_ms(MAX_ATTEMPTS), Some(15000));
    assert_eq!(retry_delay_ms(MAX_ATTEMPTS + 1), None);
    let n = (1..).take_while(|&a| retry_delay_ms(a).is_some()).count();
    assert_eq!(n as u32, MAX_ATTEMPTS);
}
