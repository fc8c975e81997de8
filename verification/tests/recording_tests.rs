use agentssh::recording::{render_plain_text, resize_data, strip_ansi, Event, EventKind, OutputState};

#[test]
fn event_codes() {
    assert_eq!(EventKind::Output.code(), "o");
    assert_eq!(EventKind::Input.code(), "i");
    assert_eq!(EventKind::Marker.code(), "m");
    assert_eq!(EventKind::Resize.code(), "r");
}

#[test]
fn crlf_translation_only_when_on() {
    let mut st = OutputState::new();
    assert_eq!(st.record_bytes(EventKind::Output, b"a\nb\n"), b"a\nb\n".to_vec());
    assert!(st.at_line_start);
    let mut st = OutputState::new().newline_fixup(true);
    assert_eq!(st.record_bytes(EventKind::Output, b"a\nb"), b"a\r\nb".to_vec());
    assert!(!st.at_line_start);
    assert!(st.needs_line_break());
}

#[test]
fn crlf_split_across_chunks_is_not_doubled() {
    let mut st = OutputState::new().newline_fixup(true);
    let a = st.record_bytes(EventKind::Output, b"line\r");
    assert!(st.pending_cr);
    let b = st.record_bytes(EventKind::Output, b"\nnext\n");
    let mut joined = a.clone();
    joined.extend_from_slice(&b);
    assert_eq!(joined, b"line\r\nnext\r\n".to_vec());
    let mut whole = OutputState::new().newline_fixup(true);
    assert_eq!(whole.record_bytes(EventKind::Output, b"line\r\nnext\n"), joined);
}

#[test]
fn input_is_recorded_untouched() {
    let mut st = OutputState::new().newline_fixup(true);
    assert_eq!(st.record_bytes(EventKind::Input, b"ls\n"), b"ls\n".to_vec());
    assert!(st.at_line_start);
    assert!(!st.pending_cr);
}

#[test]
fn library_text_uses_crlf() {
    let mut st = OutputState::new();
    assert_eq!(st.record_text(""), None);
    assert_eq!(st.record_text("a\nb\r\nc\n").as_deref(), Some("a\r\nb\r\nc\r\n"));
    assert!(st.at_line_start);
    assert_eq!(st.record_text("x\r").as_deref(), Some("x\r"));
    assert!(st.pending_cr);
    assert!(!st.at_line_start);
}

#[test]
fn resize_event_data() {
    assert_eq!(resize_data(120, 30), "120x30");
}

#[test]
fn strip_ansi_removes_sequences() {
    assert_eq!(strip_ansi("\x1b[1;31mred\x1b[0m text"), "red text");
    assert_eq!(strip_ansi("a\x1b]0;title\x07b"), "ab");
    assert_eq!(strip_ansi("a\x1b]0;title\x1b\\b"), "ab");
    // A two-character escape takes only the character after ESC.
    assert_eq!(strip_ansi("a\x1b(Bb"), "aBb");
    assert_eq!(strip_ansi("line1\r\nline2\tx\x08"), "line1\nline2\tx");
    assert_eq!(strip_ansi("end\x1b"), "end");
    // Any letter is a CSI final byte.
    assert_eq!(strip_ansi("\x1b[unterminated"), "nterminated");
    assert_eq!(strip_ansi("ok\x1b[12;3"), "ok");
}

#[test]
fn strip_ansi_keeps_plain_text_law() {
    let s = "plain text, with tabs\tand\nnewlines — and unicode ✓";
    assert_eq!(strip_ansi(s), s);
}

#[test]
fn transcript_of_events() {
    let ev = |t: &str, k: &str, d: &str| Event { time: t.into(), kind: k.into(), data: d.into() };
    let events = vec![
        ev("0.0", "m", "run: ls"),
        ev("0.1", "o", "\x1b[32mfile\x1b[0m\r\n"),
        ev("0.2", "i", "ignored"),
        ev("0.3", "r", "80x24"),
        ev("1.5", "m", "exit 0"),
    ];
    assert_eq!(
        render_plain_text(&events),
        "\n--- [0.0s] run: ls ---\nfile\n\n--- [1.5s] exit 0 ---\n"
    );
    assert_eq!(render_plain_text(&vec![]), "");
}

enum W<'a> {
    B(&'a [u8]),
    T(&'a str),
}

fn record_run(fixup: bool, writes: &[W]) -> Vec<Vec<u8>> {
    let mut st = OutputState::new().newline_fixup(fixup);
    let mut out = Vec::new();
    for w in writes {
        match w {
            W::B(d) => out.push(st.record_bytes(EventKind::Output, d)),
            W::T(t) => {
                if let Some(s) = st.record_text(t) {
                    out.push(s.into_bytes());
                }
            }
        }
    }
    out
}

#[test]
fn recording_no_bare_lf_law() {
    let writes = [
        W::B(b"line1\nline2\r"),
        W::B(b"\nline3"),
        W::T("\n$ ls\r\n"),
        W::B(b"a\n\n"),
        W::T("[exit 1]\r"),
        W::B(b"\nend\xe2\x80\xa6\n"),
        W::B(b""),
        W::T(""),
    ];
    let all: Vec<u8> = record_run(true, &writes).concat();
    for (k, &b) in all.iter().enumerate() {
        if b == b'\n' {
            assert!(k > 0 && all[k - 1] == b'\r', "bare LF at {k} in {all:?}");
        }
    }
    assert_eq!(
        all,
        b"line1\r\nline2\r\nline3\r\n$ ls\r\na\r\n\r\n[exit 1]\r\nend\xe2\x80\xa6\r\n".to_vec()
    );
}

#[test]
fn recording_chunks_law() {
    let data = b"one\r\ntwo\nthree\r";
    let whole = record_run(true, &[W::B(data)]).concat();
    for cut in 0..=data.len() {
        let (a, b) = data.split_at(cut);
        assert_eq!(record_run(true, &[W::B(a), W::B(b)]).concat(), whole, "cut at {cut}");
        assert_eq!(record_run(false, &[W::B(a), W::B(b)]).concat(), data.to_vec());
    }
    assert_eq!(whole, b"one\r\ntwo\r\nthree\r".to_vec());
}

fn is_subsequence(a: &str, b: &str) -> bool {
    let mut it = b.chars();
    a.chars().all(|c| it.any(|d| d == c))
}

#[test]
fn strip_ansi_is_subsequence_law() {
    for s in ["\x1b[1;31mred\x1b[0m text", "a\x1b]0;t\x07b\r\n\tc\x08", "\x1b(Bx\x1b", "plain ✓"] {
        let r = strip_ansi(s);
        assert!(is_subsequence(&r, s), "{r:?} from {s:?}");
        assert_eq!(strip_ansi(&r), r);
    }
}
