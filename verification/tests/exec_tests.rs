use agentssh::exec::{is_idle_shell, local_exit_code, lossy_string, probe_ok, Captured, ExecOutcome};

fn cap(out: &[u8], err: &[u8], code: Option<u32>) -> Captured {
    Captured { stdout: out.to_vec(), stderr: err.to_vec(), exit_code: code }
}

#[test]
fn captured_status() {
    assert!(cap(b"", b"", Some(0)).ok());
    assert!(!cap(b"", b"", Some(1)).ok());
    assert!(!cap(b"", b"", None).ok());
}

#[test]
fn captured_text_is_trimmed() {
    let c = cap(b"  hello\n", b"\tno such file \n", Some(1));
    assert_eq!(c.out(), "hello");
    assert_eq!(c.err(), "no such file");
}

#[test]
fn invalid_utf8_is_replaced() {
    let c = cap(b"a\xffb\n", b"", Some(0));
    assert_eq!(c.out(), "a\u{fffd}b");
    assert_eq!(lossy_string(b"caf\xc3\xa9"), "café");
}

#[test]
fn exit_code_file() {
    assert_eq!(cap(b"0\n", b"", Some(0)).exit_code_file(), Some(0));
    assert_eq!(cap(b" 130 \n", b"", Some(0)).exit_code_file(), Some(130));
    assert_eq!(cap(b"", b"", Some(1)).exit_code_file(), None);
    assert_eq!(cap(b"x", b"", Some(0)).exit_code_file(), None);
}

#[test]
fn probes_and_exit_codes() {
    assert!(probe_ok(Some(0)));
    assert!(!probe_ok(Some(127)));
    assert!(!probe_ok(None));
    assert_eq!(local_exit_code(Some(3)), 3);
    assert_eq!(local_exit_code(None), 255);
    assert_eq!(local_exit_code(Some(u32::MAX)), u32::MAX as i32);
    let o = ExecOutcome { exit_code: Some(0) };
    assert_eq!(local_exit_code(o.exit_code), 0);
}

#[test]
fn idle_pane_commands() {
    for s in ["bash", "-bash", "sh", "zsh", "--dash", "ksh", "ash"] {
        assert!(is_idle_shell(s), "{s}");
    }
    for s in ["vim", "sleep", "", "-", "bash2", "fish"] {
        assert!(!is_idle_shell(s), "{s}");
    }
}
