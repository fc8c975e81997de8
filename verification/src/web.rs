//! What the playback web UI shows about sessions: shortened timestamps,
//! durations, the rows of its tables, and whether it may listen on an
//! address at all.

use vstd::prelude::*;

use crate::store::{Command, Session};
use crate::text::{
    digit_char,
    byte_prefix_or_all, byte_prefix_spec, dec, one_line, one_line_spec, push_i64, push_i64_zero_padded,
    push_str, replace_t_with_space, signed_dec, signed_dec_padded, t_to_space,
};

verus! {

/// A timestamp as the tables show it: its first 19 bytes (date and time to
/// the second), with the `T` between date and time turned into a space.
pub open spec fn short_spec(ts: Seq<char>) -> Seq<char> {
    t_to_space(
        match byte_prefix_spec(ts, 19) {
            Some(p) => p,
            None => ts,
        },
    )
}

/// Shortens an RFC 3339 timestamp for a table cell.
pub fn short(ts: &str) -> (r: String)
    ensures
        r@ == short_spec(ts@),
{
    let p = byte_prefix_or_all(ts, 19);
    replace_t_with_space(p.as_str())
}

/// The instant an RFC 3339 timestamp names, in nanoseconds since the Unix
/// epoch, or `None` when `time` cannot parse it.
pub uninterp spec fn rfc3339_nanos(s: Seq<char>) -> Option<int>;

/// Parses an RFC 3339 timestamp.
///
/// Trusted: `time::OffsetDateTime::parse` with the `Rfc3339` description;
/// the instant is read back with `unix_timestamp_nanos`. The result is named,
/// not stated: the RFC 3339 grammar is the `time` crate's.
#[verifier::external_body]
fn parse_rfc3339_nanos(s: &str) -> (r: Option<i128>)
    ensures
        r == match rfc3339_nanos(s@) {
            Some(n) => Some(n as i128),
            None => None::<i128>,
        },
        r matches Some(n) ==> rfc3339_nanos(s@) == Some(n as int),
{
    match time::OffsetDateTime::parse(s, &time::format_description::well_known::Rfc3339) {
        Ok(t) => Some(t.unix_timestamp_nanos()),
        Err(_) => None,
    }
}

/// The instant an RFC 3339 timestamp names, in nanoseconds since the Unix
/// epoch; `None` when it does not parse.
pub fn timestamp_nanos(ts: &str) -> (r: Option<i128>)
    ensures
        r == match rfc3339_nanos(ts@) {
            Some(n) => Some(n as i128),
            None => None::<i128>,
        },
        r matches Some(n) ==> rfc3339_nanos(ts@) == Some(n as int),
{
    parse_rfc3339_nanos(ts)
}

/// A number of seconds as the tables show a duration: `1h05m`, `3m07s` or
/// `42s`.
pub open spec fn duration_text(secs: nat) -> Seq<char> {
    if secs >= 3600 {
        dec(secs / 3600) + seq!['h'] + signed_dec_padded(((secs % 3600) / 60) as int, 2) + seq!['m']
    } else if secs >= 60 {
        dec(secs / 60) + seq!['m'] + signed_dec_padded((secs % 60) as int, 2) + seq!['s']
    } else {
        dec(secs) + seq!['s']
    }
}

/// The two characters of a field that `{:02}` writes for `v < 100`: both
/// ASCII digits, reading back as `v`.
pub open spec fn two_digit_field(f: Seq<char>, v: nat) -> bool {
    &&& f.len() == 2
    &&& '0' <= f[0] <= '9'
    &&& '0' <= f[1] <= '9'
    &&& ((f[0] as u32) - 48) * 10 + ((f[1] as u32) - 48) == v
}

proof fn lemma_two_digits(v: nat)
    requires
        v < 100,
    ensures
        two_digit_field(signed_dec_padded(v as int, 2), v),
{
    reveal_with_fuel(dec, 3);
    if v < 10 {
        assert(dec(v) == seq![digit_char(v)]);
        let f = signed_dec_padded(v as int, 2);
        assert(f == Seq::new(1, |k: int| '0') + dec(v));
        assert(f[0] == '0');
        assert(f[1] == digit_char(v));
    } else {
        assert(dec(v) == dec(v / 10).push(digit_char(v % 10)));
        assert(v / 10 < 10);
        assert(dec(v / 10) == seq![digit_char(v / 10)]);
        let f = signed_dec_padded(v as int, 2);
        assert(f == dec(v));
        assert(f[0] == digit_char(v / 10));
        assert(f[1] == digit_char(v % 10));
    }
}

/// A duration reads back to the time it shows: from an hour up, `H`h`MM`m
/// with `H` whole hours and `MM` two digits for the whole minutes past them
/// (0 to 59); from a minute up, `M`m`SS`s likewise; below a minute, `S`s.
pub proof fn law_duration_reads_back(secs: nat)
    ensures
        secs >= 3600 ==> exists|h: nat, m: nat, f: Seq<char>|
            {
                &&& m < 60
                &&& h * 3600 + m * 60 <= secs < h * 3600 + m * 60 + 60
                &&& two_digit_field(f, m)
                &&& #[trigger] duration_text(secs) == dec(h) + seq!['h'] + f + seq!['m']
            },
        60 <= secs < 3600 ==> exists|m: nat, s: nat, f: Seq<char>|
            {
                &&& s < 60
                &&& m * 60 + s == secs
                &&& two_digit_field(f, s)
                &&& #[trigger] duration_text(secs) == dec(m) + seq!['m'] + f + seq!['s']
            },
        secs < 60 ==> duration_text(secs) == dec(secs) + seq!['s'],
{
    if secs >= 3600 {
        let h = secs / 3600;
        let m = (secs % 3600) / 60;
        let f = signed_dec_padded(m as int, 2);
        lemma_two_digits(m);
        assert(h * 3600 + m * 60 <= secs < h * 3600 + m * 60 + 60) by (nonlinear_arith)
            requires
                h == secs / 3600,
                m == (secs % 3600) / 60,
        ;
        assert(m < 60);
        assert(duration_text(secs) == dec(h) + seq!['h'] + f + seq!['m']);
    } else if secs >= 60 {
        let m = secs / 60;
        let s = secs % 60;
        let f = signed_dec_padded(s as int, 2);
        lemma_two_digits(s);
        assert(duration_text(secs) == dec(m) + seq!['m'] + f + seq!['s']);
    }
}

/// Renders a non-negative number of seconds as a duration.
pub fn format_duration(secs: u128) -> (r: String)
    ensures
        r@ == duration_text(secs as nat),
{
    let mut r = String::new();
    if secs >= 3600 {
        crate::text::push_u128(&mut r, secs / 3600);
        crate::text::push_char(&mut r, 'h');
        push_i64_zero_padded(&mut r, ((secs % 3600) / 60) as i64, 2);
        crate::text::push_char(&mut r, 'm');
    } else if secs >= 60 {
        crate::text::push_u128(&mut r, secs / 60);
        crate::text::push_char(&mut r, 'm');
        push_i64_zero_padded(&mut r, (secs % 60) as i64, 2);
        crate::text::push_char(&mut r, 's');
    } else {
        crate::text::push_u128(&mut r, secs);
        crate::text::push_char(&mut r, 's');
    }
    r
}

/// The whole seconds from `start` to `end` (nanoseconds), truncated toward
/// zero and never below zero.
pub open spec fn elapsed_secs(start: int, end: int) -> nat {
    if end - start <= 0 {
        0
    } else {
        ((end - start) / 1_000_000_000) as nat
    }
}

/// How long a session ran, shown as a duration: `-` while it runs or when
/// either timestamp does not parse.
pub open spec fn duration_spec(started_at: Seq<char>, ended_at: Option<Seq<char>>) -> Seq<char> {
    match ended_at {
        None => "-"@,
        Some(e) => match (rfc3339_nanos(started_at), rfc3339_nanos(e)) {
            (Some(a), Some(b)) => duration_text(elapsed_secs(a, b)),
            _ => "-"@,
        },
    }
}

/// How long a session ran.
pub fn duration_of(s: &Session) -> (r: String)
    ensures
        r@ == duration_spec(s.started_at@, match s.ended_at {
            Some(e) => Some(e@),
            None => None,
        }),
{
    let mut dash = String::new();
    push_str(&mut dash, "-");
    let end = match &s.ended_at {
        Some(e) => e,
        None => {
            return dash;
        },
    };
    let a = timestamp_nanos(s.started_at.as_str());
    let b = timestamp_nanos(end.as_str());
    match (a, b) {
        (Some(a), Some(b)) => {
            let d: u128 = if b <= a {
                0
            } else if a >= 0 || b < 0 {
                (b - a) as u128
            } else {
                (b as u128) + ((-(a + 1)) as u128) + 1
            };
            let secs = d / 1_000_000_000;
            assert(secs == elapsed_secs(a as int, b as int));
            format_duration(secs)
        },
        _ => dash,
    }
}

/// A row of the sessions tables.
#[derive(Clone, Debug)]
pub struct SessionRow {
    pub id: String,
    pub context: String,
    pub kind: String,
    pub status: String,
    pub started: String,
    pub ended: String,
    pub duration: String,
    pub exit: String,
    /// The command as it was run, newlines intact, for the detail page.
    pub command: String,
    /// The same collapsed onto one line, for a table cell.
    pub summary: String,
}

fn copy(s: &str) -> (r: String)
    ensures
        r@ == s@,
{
    let mut r = String::new();
    push_str(&mut r, s);
    r
}

/// The row of a session. A persistent shell has no single command, so it
/// shows how many it has run and the most recent one.
pub fn session_row(s: &Session, command_count: i64, last_command: Option<&str>) -> (r: SessionRow)
    ensures
        r.id@ == s.id@,
        r.context@ == s.context@,
        r.kind@ == s.kind@,
        r.status@ == s.status@,
        r.started@ == short_spec(s.started_at@),
        r.ended@ == match s.ended_at {
            Some(e) => short_spec(e@),
            None => Seq::empty(),
        },
        r.duration@ == duration_spec(s.started_at@, match s.ended_at {
            Some(e) => Some(e@),
            None => None,
        }),
        r.exit@ == match s.exit_code {
            Some(c) => signed_dec(c as int),
            None => Seq::empty(),
        },
        s.kind@ == "shell"@ ==> r.command@ == match last_command {
            Some(c) => c@,
            None => Seq::empty(),
        } && r.summary@ == match last_command {
            Some(c) => "["@ + signed_dec(command_count as int) + " cmds] "@ + one_line_spec(c@, 100),
            None => "[0 cmds]"@,
        },
        s.kind@ != "shell"@ ==> r.command@ == match s.command {
            Some(c) => c@,
            None => Seq::empty(),
        } && r.summary@ == one_line_spec(r.command@, 120),
{
    let mut command = String::new();
    let mut summary = String::new();
    if crate::session::is_shell(s) {
        match last_command {
            Some(c) => {
                push_str(&mut command, c);
                push_str(&mut summary, "[");
                push_i64(&mut summary, command_count);
                push_str(&mut summary, " cmds] ");
                let o = one_line(c, 100);
                push_str(&mut summary, o.as_str());
            },
            None => {
                push_str(&mut summary, "[0 cmds]");
            },
        }
    } else {
        if let Some(c) = &s.command {
            push_str(&mut command, c.as_str());
        }
        summary = one_line(command.as_str(), 120);
    }
    let ended = match &s.ended_at {
        Some(e) => short(e.as_str()),
        None => String::new(),
    };
    let mut exit = String::new();
    if let Some(c) = s.exit_code {
        push_i64(&mut exit, c);
    }
    SessionRow {
        id: copy(s.id.as_str()),
        context: copy(s.context.as_str()),
        kind: copy(s.kind.as_str()),
        status: copy(s.status.as_str()),
        started: short(s.started_at.as_str()),
        ended,
        duration: duration_of(s),
        exit,
        command,
        summary,
    }
}

/// A row of a shell session's command table.
#[derive(Clone, Debug)]
pub struct CommandRow {
    pub seq: i64,
    pub started: String,
    /// The exit code; `-` when it ended with none (interrupted), `running`
    /// while it runs.
    pub exit: String,
    /// Whether it exited non-zero.
    pub failed: bool,
    pub command: String,
}

/// The exit cell of a command row.
pub open spec fn command_exit_text(c: Command) -> Seq<char> {
    match c.exit_code {
        Some(e) => signed_dec(e as int),
        None => if c.ended_at is Some {
            "-"@
        } else {
            "running"@
        },
    }
}

/// The row of one command of a shell session.
pub fn command_row(c: &Command) -> (r: CommandRow)
    ensures
        r.seq == c.seq,
        r.started@ == short_spec(c.started_at@),
        r.exit@ == command_exit_text(*c),
        r.failed == (c.exit_code is Some && c.exit_code->0 != 0),
        r.command@ == c.command@,
{
    let mut exit = String::new();
    match c.exit_code {
        Some(e) => push_i64(&mut exit, e),
        None => {
            if c.ended_at.is_some() {
                push_str(&mut exit, "-");
            } else {
                push_str(&mut exit, "running");
            }
        },
    }
    let failed = match c.exit_code {
        Some(e) => e != 0,
        None => false,
    };
    CommandRow {
        seq: c.seq,
        started: short(c.started_at.as_str()),
        exit,
        failed,
        command: copy(c.command.as_str()),
    }
}

/// Whether the web UI may listen on an address: loopback always; anything
/// else only when explicitly allowed, since the UI has no authentication.
pub fn bind_allowed(is_loopback: bool, allow_remote: bool) -> (b: bool)
    ensures
        b == (is_loopback || allow_remote),
{
    is_loopback || allow_remote
}

} // verus!
