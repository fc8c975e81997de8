//! Quoting argv for the remote shell. SSH carries a command as one string,
//! not an argv, so each argument is quoted so that the remote POSIX shell
//! reads it back as exactly one word with exactly its characters.

use vstd::prelude::*;

use crate::text::{chars_of, is_ascii_alnum, is_ascii_alphanumeric, push_char, push_str};

verus! {

/// Characters that never need quoting in a POSIX shell word.
pub open spec fn is_safe_char(c: char) -> bool {
    is_ascii_alnum(c) || c == '-' || c == '_' || c == '.' || c == '/' || c == '=' || c == ':'
        || c == '@' || c == '%' || c == '+' || c == ','
}

/// Every character of `s` is safe unquoted.
pub open spec fn all_safe(s: Seq<char>) -> bool {
    forall|k: int| 0 <= k < s.len() ==> is_safe_char(#[trigger] s[k])
}

/// `s` with each `'` replaced by `'\''` (close the quote, an escaped quote,
/// reopen the quote).
pub open spec fn quote_body(s: Seq<char>) -> Seq<char>
    decreases s.len(),
{
    if s.len() == 0 {
        s
    } else if s[0] == '\'' {
        seq!['\'', '\\', '\'', '\''] + quote_body(s.drop_first())
    } else {
        seq![s[0]] + quote_body(s.drop_first())
    }
}

/// The word the remote shell should see for `s`: `s` itself when it is
/// non-empty and entirely safe, otherwise `s` in single quotes.
pub open spec fn shell_escape_spec(s: Seq<char>) -> Seq<char> {
    if s.len() > 0 && all_safe(s) {
        s
    } else {
        seq!['\''] + quote_body(s) + seq!['\'']
    }
}

/// The words joined by single spaces.
pub open spec fn shell_join_spec(args: Seq<Seq<char>>) -> Seq<char>
    decreases args.len(),
{
    if args.len() == 0 {
        Seq::empty()
    } else if args.len() == 1 {
        shell_escape_spec(args[0])
    } else {
        shell_join_spec(args.drop_last()) + seq![' '] + shell_escape_spec(args.last())
    }
}

fn is_safe(c: char) -> (b: bool)
    ensures
        b == is_safe_char(c),
{
    is_ascii_alphanumeric(c) || c == '-' || c == '_' || c == '.' || c == '/' || c == '=' || c
        == ':' || c == '@' || c == '%' || c == '+' || c == ','
}

/// Quote one argument for the remote shell.
pub fn shell_escape(s: &str) -> (r: String)
    ensures
        r@ == shell_escape_spec(s@),
{
    let v = chars_of(s);
    let mut safe = v.len() > 0;
    let mut i: usize = 0;
    while i < v.len()
        invariant
            i <= v.len(),
            safe == (v@.len() > 0 && forall|k: int| 0 <= k < i ==> is_safe_char(#[trigger] v@[k])),
        decreases v.len() - i,
    {
        if !is_safe(v[i]) {
            safe = false;
        }
        i += 1;
    }
    let mut r = String::new();
    if safe {
        push_str(&mut r, s);
        return r;
    }
    push_char(&mut r, '\'');
    let mut j: usize = 0;
    assert(v@.skip(0) == v@);
    while j < v.len()
        invariant
            j <= v.len(),
            quote_body(v@) == r@.drop_first() + quote_body(v@.skip(j as int)),
            r@.len() > 0 && r@[0] == '\'',
        decreases v.len() - j,
    {
        assert(v@.skip(j as int).drop_first() == v@.skip(j + 1));
        let ghost before = r@;
        if v[j] == '\'' {
            push_char(&mut r, '\'');
            push_char(&mut r, '\\');
            push_char(&mut r, '\'');
            push_char(&mut r, '\'');
        } else {
            push_char(&mut r, v[j]);
        }
        assert(r@.drop_first() == before.drop_first() + (if v@[j as int] == '\'' {
            seq!['\'', '\\', '\'', '\'']
        } else {
            seq![v@[j as int]]
        }));
        j += 1;
    }
    assert(v@.skip(j as int).len() == 0);
    push_char(&mut r, '\'');
    assert(r@ == seq!['\''] + quote_body(v@) + seq!['\'']);
    r
}

/// Join argv into one remote command line, each argument quoted for the
/// remote shell.
pub fn shell_join(args: &Vec<String>) -> (r: String)
    ensures
        r@ == shell_join_spec(args@.map_values(|a: String| a@)),
{
    let ghost words = args@.map_values(|a: String| a@);
    let mut r = String::new();
    let mut i: usize = 0;
    while i < args.len()
        invariant
            i <= args.len(),
            words == args@.map_values(|a: String| a@),
            r@ == shell_join_spec(words.take(i as int)),
        decreases args.len() - i,
    {
        let e = shell_escape(args[i].as_str());
        assert(words.take(i + 1).drop_last() == words.take(i as int));
        assert(words.take(i + 1).last() == args@[i as int]@);
        if i > 0 {
            push_char(&mut r, ' ');
        } else {
            assert(words.take(1).len() == 1);
        }
        push_str(&mut r, e.as_str());
        i += 1;
    }
    assert(words.take(args.len() as int) == words);
    r
}

// ---------------------------------------------------------------------------
// what the remote shell reads back
// ---------------------------------------------------------------------------

/// Where a POSIX shell stands while reading one word.
#[derive(Copy, Clone, Debug, PartialEq, Eq, Structural)]
pub enum WordMode {
    /// Outside quotes.
    Bare,
    /// Inside single quotes.
    Quoted,
    /// Just after a backslash outside quotes.
    Escaped,
}

/// The characters a POSIX shell takes from one word, reading from `mode`:
/// single quotes and backslashes are removed, what they quote is kept.
pub open spec fn unquote_from(s: Seq<char>, mode: WordMode) -> Seq<char>
    decreases s.len(),
{
    if s.len() == 0 {
        Seq::empty()
    } else {
        let c = s[0];
        let rest = s.drop_first();
        match mode {
            WordMode::Bare => {
                if c == '\'' {
                    unquote_from(rest, WordMode::Quoted)
                } else if c == '\\' {
                    unquote_from(rest, WordMode::Escaped)
                } else {
                    seq![c] + unquote_from(rest, WordMode::Bare)
                }
            },
            WordMode::Quoted => {
                if c == '\'' {
                    unquote_from(rest, WordMode::Bare)
                } else {
                    seq![c] + unquote_from(rest, WordMode::Quoted)
                }
            },
            WordMode::Escaped => seq![c] + unquote_from(rest, WordMode::Bare),
        }
    }
}

/// The characters a POSIX shell takes from the word `s`.
pub open spec fn unquote(s: Seq<char>) -> Seq<char> {
    unquote_from(s, WordMode::Bare)
}

proof fn lemma_unquote_safe(s: Seq<char>)
    requires
        all_safe(s),
    ensures
        unquote_from(s, WordMode::Bare) == s,
    decreases s.len(),
{
    if s.len() > 0 {
        assert(is_safe_char(s[0]));
        assert(all_safe(s.drop_first())) by {
            assert forall|k: int| 0 <= k < s.drop_first().len() implies is_safe_char(
                #[trigger] s.drop_first()[k],
            ) by {
                assert(s.drop_first()[k] == s[k + 1]);
            }
        }
        lemma_unquote_safe(s.drop_first());
        assert(seq![s[0]] + s.drop_first() == s);
    }
}

proof fn lemma_unquote_body(t: Seq<char>, rest: Seq<char>)
    ensures
        unquote_from(quote_body(t) + rest, WordMode::Quoted) == t + unquote_from(
            rest,
            WordMode::Quoted,
        ),
    decreases t.len(),
{
    if t.len() == 0 {
        assert(quote_body(t) + rest == rest);
        assert(t + unquote_from(rest, WordMode::Quoted) == unquote_from(rest, WordMode::Quoted));
    } else {
        let tail = t.drop_first();
        lemma_unquote_body(tail, rest);
        let x = quote_body(tail) + rest;
        if t[0] == '\'' {
            let w = seq!['\'', '\\', '\'', '\''] + x;
            assert(quote_body(t) + rest == w);
            assert(w.drop_first() == seq!['\\', '\'', '\''] + x);
            assert(w.drop_first().drop_first() == seq!['\'', '\''] + x);
            assert(w.drop_first().drop_first().drop_first() == seq!['\''] + x);
            assert((seq!['\''] + x).drop_first() == x);
            assert(unquote_from(seq!['\''] + x, WordMode::Bare) == unquote_from(
                x,
                WordMode::Quoted,
            ));
            assert(unquote_from(seq!['\'', '\''] + x, WordMode::Escaped) == seq!['\''] + unquote_from(
                seq!['\''] + x,
                WordMode::Bare,
            ));
            assert(unquote_from(w, WordMode::Quoted) == unquote_from(
                w.drop_first(),
                WordMode::Bare,
            ));
            assert(unquote_from(w.drop_first(), WordMode::Bare) == unquote_from(
                w.drop_first().drop_first(),
                WordMode::Escaped,
            ));
            assert(seq![t[0]] + tail == t);
        } else {
            let w = seq![t[0]] + x;
            assert(quote_body(t) + rest == w);
            assert(w.drop_first() == x);
            assert(seq![t[0]] + tail == t);
        }
    }
}

/// Quoting is exact: the remote shell reads the quoted word back as exactly
/// the argument's characters, whatever they are (quotes, backslashes,
/// spaces, newlines, `$` and the like).
pub proof fn law_shell_escape_round_trip(s: Seq<char>)
    ensures
        unquote(shell_escape_spec(s)) == s,
{
    if s.len() > 0 && all_safe(s) {
        lemma_unquote_safe(s);
    } else {
        let w = seq!['\''] + quote_body(s) + seq!['\''];
        assert(w.drop_first() == quote_body(s) + seq!['\'']);
        lemma_unquote_body(s, seq!['\'']);
        assert(seq!['\''].drop_first() == Seq::<char>::empty());
        assert(unquote_from(Seq::<char>::empty(), WordMode::Bare) == Seq::<char>::empty());
        assert(unquote_from(seq!['\''], WordMode::Quoted) == Seq::<char>::empty());
        assert(s + Seq::<char>::empty() == s);
    }
}


/// Blanks, which separate words outside quotes.
pub open spec fn is_blank(c: char) -> bool {
    c == ' ' || c == '\t'
}

/// The words a POSIX shell reads from `s`, reading from `mode` with the
/// characters `cur` of the current word taken so far (`started` once the
/// word has begun, even if it is still empty, as after `''`).
pub open spec fn words_from(s: Seq<char>, mode: WordMode, cur: Seq<char>, started: bool) -> Seq<
    Seq<char>,
>
    decreases s.len(),
{
    if s.len() == 0 {
        if started {
            seq![cur]
        } else {
            Seq::empty()
        }
    } else {
        let c = s[0];
        let rest = s.drop_first();
        match mode {
            WordMode::Bare => {
                if is_blank(c) {
                    if started {
                        seq![cur] + words_from(rest, WordMode::Bare, Seq::empty(), false)
                    } else {
                        words_from(rest, WordMode::Bare, Seq::empty(), false)
                    }
                } else if c == '\'' {
                    words_from(rest, WordMode::Quoted, cur, true)
                } else if c == '\\' {
                    words_from(rest, WordMode::Escaped, cur, true)
                } else {
                    words_from(rest, WordMode::Bare, cur.push(c), true)
                }
            },
            WordMode::Quoted => {
                if c == '\'' {
                    words_from(rest, WordMode::Bare, cur, true)
                } else {
                    words_from(rest, WordMode::Quoted, cur.push(c), true)
                }
            },
            WordMode::Escaped => words_from(rest, WordMode::Bare, cur.push(c), true),
        }
    }
}

/// The words, that is the argv, a POSIX shell reads from a command line made
/// of plain words, single quotes and backslashes.
pub open spec fn split_words(s: Seq<char>) -> Seq<Seq<char>> {
    words_from(s, WordMode::Bare, Seq::empty(), false)
}

proof fn lemma_words_safe(t: Seq<char>, rest: Seq<char>, cur: Seq<char>, started: bool)
    requires
        all_safe(t),
        t.len() > 0,
    ensures
        words_from(t + rest, WordMode::Bare, cur, started) == words_from(
            rest,
            WordMode::Bare,
            cur + t,
            true,
        ),
    decreases t.len(),
{
    let c = t[0];
    let tail = t.drop_first();
    assert(is_safe_char(c));
    assert((t + rest)[0] == c);
    assert((t + rest).drop_first() == tail + rest);
    assert(cur.push(c) + tail == cur + t);
    if tail.len() == 0 {
        assert(tail + rest == rest);
        assert(cur.push(c) == cur + t);
    } else {
        assert(all_safe(tail)) by {
            assert forall|k: int| 0 <= k < tail.len() implies is_safe_char(#[trigger] tail[k]) by {
                assert(tail[k] == t[k + 1]);
            }
        }
        lemma_words_safe(tail, rest, cur.push(c), true);
    }
}

proof fn lemma_words_body(t: Seq<char>, rest: Seq<char>, cur: Seq<char>)
    ensures
        words_from(quote_body(t) + rest, WordMode::Quoted, cur, true) == words_from(
            rest,
            WordMode::Quoted,
            cur + t,
            true,
        ),
    decreases t.len(),
{
    if t.len() == 0 {
        assert(quote_body(t) + rest == rest);
        assert(cur + t == cur);
    } else {
        let tail = t.drop_first();
        let x = quote_body(tail) + rest;
        if t[0] == '\'' {
            lemma_words_body(tail, rest, cur.push('\''));
            let w = seq!['\'', '\\', '\'', '\''] + x;
            assert(quote_body(t) + rest == w);
            assert(w.drop_first() == seq!['\\', '\'', '\''] + x);
            assert(w.drop_first().drop_first() == seq!['\'', '\''] + x);
            assert(w.drop_first().drop_first().drop_first() == seq!['\''] + x);
            assert((seq!['\''] + x).drop_first() == x);
            assert(words_from(seq!['\''] + x, WordMode::Bare, cur.push('\''), true) == words_from(
                x,
                WordMode::Quoted,
                cur.push('\''),
                true,
            ));
            assert(words_from(seq!['\'', '\''] + x, WordMode::Escaped, cur, true) == words_from(
                seq!['\''] + x,
                WordMode::Bare,
                cur.push('\''),
                true,
            ));
            assert(words_from(seq!['\\', '\'', '\''] + x, WordMode::Bare, cur, true) == words_from(
                seq!['\'', '\''] + x,
                WordMode::Escaped,
                cur,
                true,
            ));
            assert(words_from(w, WordMode::Quoted, cur, true) == words_from(
                w.drop_first(),
                WordMode::Bare,
                cur,
                true,
            ));
            assert(cur.push('\'') + tail == cur + t);
        } else {
            lemma_words_body(tail, rest, cur.push(t[0]));
            let w = seq![t[0]] + x;
            assert(quote_body(t) + rest == w);
            assert(w.drop_first() == x);
            assert(cur.push(t[0]) + tail == cur + t);
        }
    }
}

/// Reading one quoted word from the start of a word.
proof fn lemma_words_escape(a: Seq<char>, rest: Seq<char>)
    ensures
        words_from(shell_escape_spec(a) + rest, WordMode::Bare, Seq::empty(), false) == words_from(
            rest,
            WordMode::Bare,
            a,
            true,
        ),
{
    if a.len() > 0 && all_safe(a) {
        lemma_words_safe(a, rest, Seq::empty(), false);
        assert(Seq::<char>::empty() + a == a);
    } else {
        let w = seq!['\''] + quote_body(a) + seq!['\''] + rest;
        assert(shell_escape_spec(a) + rest == w);
        assert(w[0] == '\'');
        assert(w.drop_first() == quote_body(a) + (seq!['\''] + rest));
        lemma_words_body(a, seq!['\''] + rest, Seq::empty());
        assert(Seq::<char>::empty() + a == a);
        assert((seq!['\''] + rest)[0] == '\'');
        assert((seq!['\''] + rest).drop_first() == rest);
    }
}

proof fn lemma_words_join(args: Seq<Seq<char>>, rest: Seq<char>)
    requires
        args.len() >= 1,
    ensures
        words_from(shell_join_spec(args) + rest, WordMode::Bare, Seq::empty(), false)
            == args.drop_last() + words_from(rest, WordMode::Bare, args.last(), true),
    decreases args.len(),
{
    if args.len() == 1 {
        lemma_words_escape(args[0], rest);
        assert(args.drop_last() =~= Seq::<Seq<char>>::empty());
        assert(args.drop_last() + words_from(rest, WordMode::Bare, args.last(), true) =~= words_from(
            rest,
            WordMode::Bare,
            args.last(),
            true,
        ));
    } else {
        let front = args.drop_last();
        let last = args.last();
        let r2 = seq![' '] + shell_escape_spec(last) + rest;
        assert(shell_join_spec(args) + rest == shell_join_spec(front) + r2);
        lemma_words_join(front, r2);
        assert(r2[0] == ' ');
        assert(r2.drop_first() == shell_escape_spec(last) + rest);
        lemma_words_escape(last, rest);
        assert(words_from(r2, WordMode::Bare, front.last(), true) == seq![front.last()]
            + words_from(rest, WordMode::Bare, last, true));
        assert(front.drop_last().push(front.last()) =~= front);
        assert(front.drop_last() + (seq![front.last()] + words_from(rest, WordMode::Bare, last, true))
            =~= front + words_from(rest, WordMode::Bare, last, true));
    }
}

/// Joining is exact: the remote shell splits the joined command line back
/// into exactly the arguments, however many there are and whatever they hold
/// (empty arguments, spaces, quotes, backslashes).
pub proof fn law_shell_join_round_trip(args: Seq<Seq<char>>)
    ensures
        split_words(shell_join_spec(args)) == args,
{
    if args.len() == 0 {
        assert(shell_join_spec(args) == Seq::<char>::empty());
    } else {
        lemma_words_join(args, Seq::empty());
        assert(shell_join_spec(args) + Seq::<char>::empty() == shell_join_spec(args));
        assert(args.drop_last().push(args.last()) =~= args);
        assert(args.drop_last() + seq![args.last()] =~= args);
    }
}

/// Characters a POSIX shell gives a meaning of its own when they stand
/// unquoted: pipes, lists, redirections, subshells, expansions, globs,
/// comments, history, quotes and line breaks.
pub open spec fn is_shell_special(c: char) -> bool {
    c == '|' || c == '&' || c == ';' || c == '<' || c == '>' || c == '(' || c == ')' || c == '$'
        || c == '`' || c == '*' || c == '?' || c == '[' || c == ']' || c == '~' || c == '#'
        || c == '!' || c == '\n' || c == '"' || c == '{' || c == '}' || c == '^'
}

/// Whether no shell-special character stands unquoted in `s`, reading from
/// `mode` (single quotes and backslashes quote, as in `unquote_from`).
pub open spec fn no_bare_special(s: Seq<char>, mode: WordMode) -> bool
    decreases s.len(),
{
    if s.len() == 0 {
        true
    } else {
        let c = s[0];
        let rest = s.drop_first();
        match mode {
            WordMode::Bare => !is_shell_special(c) && if c == '\'' {
                no_bare_special(rest, WordMode::Quoted)
            } else if c == '\\' {
                no_bare_special(rest, WordMode::Escaped)
            } else {
                no_bare_special(rest, WordMode::Bare)
            },
            WordMode::Quoted => if c == '\'' {
                no_bare_special(rest, WordMode::Bare)
            } else {
                no_bare_special(rest, WordMode::Quoted)
            },
            WordMode::Escaped => no_bare_special(rest, WordMode::Bare),
        }
    }
}

proof fn lemma_special_safe(t: Seq<char>, rest: Seq<char>)
    requires
        all_safe(t),
    ensures
        no_bare_special(t + rest, WordMode::Bare) == no_bare_special(rest, WordMode::Bare),
    decreases t.len(),
{
    if t.len() == 0 {
        assert(t + rest == rest);
    } else {
        let c = t[0];
        assert(is_safe_char(c));
        assert((t + rest)[0] == c);
        assert((t + rest).drop_first() == t.drop_first() + rest);
        assert(all_safe(t.drop_first())) by {
            assert forall|k: int| 0 <= k < t.drop_first().len() implies is_safe_char(
                #[trigger] t.drop_first()[k],
            ) by {
                assert(t.drop_first()[k] == t[k + 1]);
            }
        }
        lemma_special_safe(t.drop_first(), rest);
    }
}

proof fn lemma_special_body(t: Seq<char>, rest: Seq<char>)
    ensures
        no_bare_special(quote_body(t) + rest, WordMode::Quoted) == no_bare_special(
            rest,
            WordMode::Quoted,
        ),
    decreases t.len(),
{
    if t.len() == 0 {
        assert(quote_body(t) + rest == rest);
    } else {
        let tail = t.drop_first();
        lemma_special_body(tail, rest);
        let x = quote_body(tail) + rest;
        if t[0] == '\'' {
            let w = seq!['\'', '\\', '\'', '\''] + x;
            assert(quote_body(t) + rest == w);
            assert(w.drop_first() == seq!['\\', '\'', '\''] + x);
            assert(w.drop_first().drop_first() == seq!['\'', '\''] + x);
            assert(w.drop_first().drop_first().drop_first() == seq!['\''] + x);
            assert((seq!['\''] + x).drop_first() == x);
            assert(!is_shell_special('\\') && !is_shell_special('\''));
            assert(no_bare_special(seq!['\''] + x, WordMode::Bare) == no_bare_special(
                x,
                WordMode::Quoted,
            ));
            assert(no_bare_special(seq!['\'', '\''] + x, WordMode::Escaped) == no_bare_special(
                seq!['\''] + x,
                WordMode::Bare,
            ));
            assert(no_bare_special(seq!['\\', '\'', '\''] + x, WordMode::Bare) == no_bare_special(
                seq!['\'', '\''] + x,
                WordMode::Escaped,
            ));
            assert(no_bare_special(w, WordMode::Quoted) == no_bare_special(
                w.drop_first(),
                WordMode::Bare,
            ));
        } else {
            let w = seq![t[0]] + x;
            assert(quote_body(t) + rest == w);
            assert(w[0] == t[0]);
            assert(w.drop_first() == x);
        }
    }
}

proof fn lemma_special_escape(a: Seq<char>, rest: Seq<char>)
    ensures
        no_bare_special(shell_escape_spec(a) + rest, WordMode::Bare) == no_bare_special(
            rest,
            WordMode::Bare,
        ),
{
    if a.len() > 0 && all_safe(a) {
        lemma_special_safe(a, rest);
    } else {
        let w = seq!['\''] + quote_body(a) + seq!['\''] + rest;
        assert(shell_escape_spec(a) + rest == w);
        assert(w.drop_first() == quote_body(a) + (seq!['\''] + rest));
        lemma_special_body(a, seq!['\''] + rest);
        assert((seq!['\''] + rest).drop_first() == rest);
    }
}

proof fn lemma_special_join(args: Seq<Seq<char>>, rest: Seq<char>)
    requires
        args.len() >= 1,
    ensures
        no_bare_special(shell_join_spec(args) + rest, WordMode::Bare) == no_bare_special(
            rest,
            WordMode::Bare,
        ),
    decreases args.len(),
{
    if args.len() == 1 {
        lemma_special_escape(args[0], rest);
    } else {
        let front = args.drop_last();
        let last = args.last();
        let r2 = seq![' '] + shell_escape_spec(last) + rest;
        assert(shell_join_spec(args) + rest == shell_join_spec(front) + r2);
        lemma_special_join(front, r2);
        assert(r2.drop_first() == shell_escape_spec(last) + rest);
        lemma_special_escape(last, rest);
    }
}

/// A word goes to the remote shell bare exactly when it is non-empty and
/// made only of ASCII letters and digits and `- _ . / = : @ % + ,`, none of
/// which a shell treats specially; any other word is single-quoted, and the
/// shell reads it back as exactly its characters.
pub proof fn law_bare_words_are_plain(s: Seq<char>)
    ensures
        (shell_escape_spec(s) == s) <==> (s.len() > 0 && forall|k: int|
            0 <= k < s.len() ==> {
                let c = #[trigger] s[k];
                ('a' <= c <= 'z') || ('A' <= c <= 'Z') || ('0' <= c <= '9') || c == '-' || c
                    == '_' || c == '.' || c == '/' || c == '=' || c == ':' || c == '@' || c == '%'
                    || c == '+' || c == ','
            }),
        shell_escape_spec(s) != s ==> shell_escape_spec(s).len() >= 2 && shell_escape_spec(s)[0]
            == '\'' && shell_escape_spec(s).last() == '\'',
        unquote(shell_escape_spec(s)) == s,
{
    law_shell_escape_round_trip(s);
    assert(all_safe(s) <==> forall|k: int|
        0 <= k < s.len() ==> {
            let c = #[trigger] s[k];
            ('a' <= c <= 'z') || ('A' <= c <= 'Z') || ('0' <= c <= '9') || c == '-' || c == '_'
                || c == '.' || c == '/' || c == '=' || c == ':' || c == '@' || c == '%' || c == '+'
                || c == ','
        }) by {
        assert forall|k: int| 0 <= k < s.len() implies is_safe_char(#[trigger] s[k]) == {
            let c = s[k];
            ('a' <= c <= 'z') || ('A' <= c <= 'Z') || ('0' <= c <= '9') || c == '-' || c == '_'
                || c == '.' || c == '/' || c == '=' || c == ':' || c == '@' || c == '%' || c == '+'
                || c == ','
        } by {
            lemma_safe_char_listed(s[k]);
        }
    }
    if !(s.len() > 0 && all_safe(s)) {
        let w = seq!['\''] + quote_body(s) + seq!['\''];
        lemma_quote_body_len(s);
        assert(w.len() > s.len());
    }
}

proof fn lemma_safe_char_listed(c: char)
    ensures
        is_safe_char(c) == (('a' <= c <= 'z') || ('A' <= c <= 'Z') || ('0' <= c <= '9') || c
            == '-' || c == '_' || c == '.' || c == '/' || c == '=' || c == ':' || c == '@' || c
            == '%' || c == '+' || c == ','),
{
    assert(('a' as u32) == 0x61 && ('z' as u32) == 0x7a && ('A' as u32) == 0x41 && ('Z' as u32)
        == 0x5a && ('0' as u32) == 0x30 && ('9' as u32) == 0x39);
}

proof fn lemma_quote_body_len(s: Seq<char>)
    ensures
        quote_body(s).len() >= s.len(),
    decreases s.len(),
{
    if s.len() > 0 {
        lemma_quote_body_len(s.drop_first());
    }
}

/// The joined command line leaves no shell-special character (`|`, `&`,
/// `;`, redirections, `$`, backquotes, globs, `~`, `#`, `!`, newlines, ...)
/// outside quotes, and the shell splits it back into exactly the arguments:
/// it runs the one command the arguments name, with those arguments.
pub proof fn law_shell_join_is_inert(args: Seq<Seq<char>>)
    ensures
        no_bare_special(shell_join_spec(args), WordMode::Bare),
        split_words(shell_join_spec(args)) == args,
{
    law_shell_join_round_trip(args);
    if args.len() > 0 {
        lemma_special_join(args, Seq::empty());
        assert(shell_join_spec(args) + Seq::<char>::empty() == shell_join_spec(args));
    } else {
        assert(shell_join_spec(args) == Seq::<char>::empty());
    }
}

} // verus!
