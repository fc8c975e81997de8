use agentssh::quoting::{shell_escape, shell_join};

#[test]
fn safe_words_are_left_alone() {
    assert_eq!(shell_escape("ls"), "ls");
    assert_eq!(shell_escape("/usr/bin/env"), "/usr/bin/env");
    assert_eq!(shell_escape("a=b:c@d%e+f,g-h_i.j"), "a=b:c@d%e+f,g-h_i.j");
}

#[test]
fn other_words_are_single_quoted() {
    assert_eq!(shell_escape(""), "''");
    assert_eq!(shell_escape("a b"), "'a b'");
    assert_eq!(shell_escape("it's"), "'it'\\''s'");
    assert_eq!(shell_escape("$HOME"), "'$HOME'");
    assert_eq!(shell_escape("é"), "'é'");
}

#[test]
fn join_quotes_each_argument() {
    let args: Vec<String> = vec!["echo".into(), "hello world".into(), "it's".into()];
    assert_eq!(shell_join(&args), "echo 'hello world' 'it'\\''s'");
    assert_eq!(shell_join(&vec![]), "");
}

/// Reads a word back the way a POSIX shell does (quotes and backslashes).
fn sh_unquote(w: &str) -> String {
    let mut out = String::new();
    let mut quoted = false;
    let mut escaped = false;
    for c in w.chars() {
        if escaped {
            out.push(c);
            escaped = false;
        } else if quoted {
            if c == '\'' { quoted = false } else { out.push(c) }
        } else if c == '\'' {
            quoted = true;
        } else if c == '\\' {
            escaped = true;
        } else {
            out.push(c);
        }
    }
    out
}

#[test]
fn quoting_round_trips_law() {
    for s in ["", "x", "a b", "'", "''", "a'b'c", "\\", "new\nline", "$(rm -rf /)", "tab\there"] {
        assert_eq!(sh_unquote(&shell_escape(s)), s);
    }
}

/// Splits a command line the way a POSIX shell does for plain words, single
/// quotes and backslashes.
fn split_like_sh(s: &str) -> Vec<String> {
    let mut words = Vec::new();
    let mut cur = String::new();
    let mut started = false;
    let mut chars = s.chars();
    while let Some(c) = chars.next() {
        match c {
            ' ' | '\t' => {
                if started {
                    words.push(std::mem::take(&mut cur));
                    started = false;
                }
            }
            '\'' => {
                started = true;
                for q in chars.by_ref() {
                    if q == '\'' {
                        break;
                    }
                    cur.push(q);
                }
            }
            '\\' => {
                started = true;
                if let Some(n) = chars.next() {
                    cur.push(n);
                }
            }
            _ => {
                started = true;
                cur.push(c);
            }
        }
    }
    if started {
        words.push(cur);
    }
    words
}

#[test]
fn shell_join_round_trip_law() {
    let cases: Vec<Vec<String>> = vec![
        vec![],
        vec!["".into()],
        vec!["ls".into(), "-la".into(), "/tmp".into()],
        vec!["sh".into(), "-c".into(), "echo 'hi' && cd \"$HOME\"\nls".into()],
        vec!["".into(), "a b".into(), "it's".into(), "back\\slash".into(), "\t".into()],
    ];
    for args in cases {
        let line = shell_join(&args);
        assert_eq!(split_like_sh(&line), args, "{line:?}");
    }
}
