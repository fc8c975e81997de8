//! The decisions the session drivers make between remote calls: terminal
//! geometry, reconnect backoff, how a connected segment ended, whether a
//! shell is busy, and what the listings show.

use vstd::prelude::*;

use crate::remote::{lines, lines_spec};
use crate::store::{Command, Segment, Session};
use crate::text::{
    byte_prefix_or_all, byte_prefix_spec, byte_range, byte_range_spec, dec, one_line,
    one_line_spec, pad_left_spec, pad_right_spec, push_char, push_i64, push_padded,
    push_padded_left, push_str, push_u64, signed_dec,
};
use vstd::string::*;
use vstd::utf8::{decode_utf8, encode_utf8, is_char_boundary};

verus! {

/// The terminal size used when the local one is unknown or degenerate.
pub fn term_size_or_default(size: Option<(u16, u16)>) -> (r: (u16, u16))
    ensures
        r == match size {
            Some((c, rr)) => if c > 0 && rr > 0 {
                (c, rr)
            } else {
                (80u16, 24u16)
            },
            None => (80u16, 24u16),
        },
{
    match size {
        Some((c, r)) => {
            if c > 0 && r > 0 {
                (c, r)
            } else {
                (80, 24)
            }
        },
        None => (80, 24),
    }
}

/// Terminal geometry to stamp on a recording with no PTY behind it: the
/// local size, but at least 120 columns by 30 rows, so a replay does not
/// fold real command output into a zigzag.
pub fn record_size(term: (u16, u16)) -> (r: (u16, u16))
    ensures
        r.0 == if term.0 >= 120 { term.0 } else { 120 },
        r.1 == if term.1 >= 30 { term.1 } else { 30 },
{
    let c = if term.0 >= 120 { term.0 } else { 120 };
    let r = if term.1 >= 30 { term.1 } else { 30 };
    (c, r)
}

/// How many reconnects are tried before a session is left detached.
pub const MAX_ATTEMPTS: u32 = 10;

/// `2^k`.
pub open spec fn pow2(k: nat) -> nat
    decreases k,
{
    if k == 0 {
        1
    } else {
        2 * pow2((k - 1) as nat)
    }
}

/// The backoff before reconnect attempt `attempt`, in milliseconds, before
/// jitter: 500 ms doubling from the first attempt, capped at 15 s.
pub open spec fn backoff_ms_spec(attempt: nat) -> nat {
    let k = if attempt >= 1 { (attempt - 1) as nat } else { 0 };
    let base = 500 * pow2(k);
    if base <= 15000 { base } else { 15000 }
}

proof fn lemma_pow2_mono(a: nat, b: nat)
    requires
        a <= b,
    ensures
        pow2(a) <= pow2(b),
    decreases b,
{
    if a < b {
        lemma_pow2_mono(a, (b - 1) as nat);
    }
}

/// The backoff before reconnect attempt `attempt`, in milliseconds, before
/// jitter. Attempts are counted from 1.
pub fn backoff_base_ms(attempt: u32) -> (r: u64)
    ensures
        r == backoff_ms_spec(attempt as nat),
{
    let k: u32 = if attempt >= 1 { attempt - 1 } else { 0 };
    if k >= 5 {
        proof {
            lemma_pow2_mono(5, k as nat);
            reveal_with_fuel(pow2, 6);
            assert(pow2(5) == 32);
        }
        return 15000;
    }
    let mut base: u64 = 500;
    let mut i: u32 = 0;
    while i < k
        invariant
            i <= k,
            k < 5,
            base == 500 * pow2(i as nat),
        decreases k - i,
    {
        proof {
            lemma_pow2_mono(i as nat, 4);
            reveal_with_fuel(pow2, 5);
        }
        base = base * 2;
        i += 1;
    }
    proof {
        reveal_with_fuel(pow2, 5);
        assert(pow2(4) == 16);
        lemma_pow2_mono(k as nat, 4);
    }
    if base <= 15000 {
        base
    } else {
        15000
    }
}

/// The wait before reconnect attempt `attempt`, in milliseconds before
/// jitter; `None` once every attempt has been used (attempts are counted from
/// 1 to `MAX_ATTEMPTS`).
pub fn retry_delay_ms(attempt: u32) -> (r: Option<u64>)
    ensures
        r == if 1 <= attempt <= MAX_ATTEMPTS {
            Some(backoff_ms_spec(attempt as nat) as u64)
        } else {
            None::<u64>
        },
{
    if 1 <= attempt && attempt <= MAX_ATTEMPTS {
        Some(backoff_base_ms(attempt))
    } else {
        None
    }
}

/// The reconnect backoff starts at half a second, never shrinks from one
/// attempt to the next, and never exceeds fifteen seconds.
pub proof fn law_backoff_bounded_and_growing(a: nat, b: nat)
    requires
        1 <= a <= b,
    ensures
        backoff_ms_spec(1) == 500,
        500 <= backoff_ms_spec(a) <= backoff_ms_spec(b) <= 15000,
{
    lemma_pow2_mono((a - 1) as nat, (b - 1) as nat);
    lemma_pow2_mono(0, (a - 1) as nat);
}

/// Each reconnect waits twice as long as the one before, until the wait
/// reaches fifteen seconds, where it stays: the first waits half a second.
pub proof fn law_backoff_doubles(a: nat)
    requires
        a >= 1,
    ensures
        backoff_ms_spec(1) == 500,
        backoff_ms_spec(a + 1) == if 2 * backoff_ms_spec(a) <= 15000 {
            2 * backoff_ms_spec(a)
        } else {
            15000
        },
{
    lemma_pow2_mono(0, (a - 1) as nat);
    assert(pow2(a as nat) == 2 * pow2((a - 1) as nat));
}

/// How a connected segment of an interactive session ended.
#[derive(Copy, Clone, Debug, PartialEq, Eq, Structural)]
pub enum PumpEnd {
    /// The channel closed in order; carries the remote exit status.
    Clean(Option<u32>),
    /// The transport died underneath.
    Dropped,
}

/// A channel that closes after an exit status closed in order; one that
/// closes without one was dropped.
pub fn pump_end_on_close(exit_status: Option<u32>) -> (r: PumpEnd)
    ensures
        r == match exit_status {
            Some(s) => PumpEnd::Clean(Some(s)),
            None => PumpEnd::Dropped,
        },
{
    match exit_status {
        Some(s) => PumpEnd::Clean(Some(s)),
        None => PumpEnd::Dropped,
    }
}

/// What becomes of an interactive session after a segment ends.
#[derive(Copy, Clone, Debug, PartialEq, Eq, Structural)]
pub enum SegmentOutcome {
    /// The user detached; the remote tmux session lives on. The local exit
    /// code is carried.
    Detached(i32),
    /// The remote shell exited; the session is over, with this remote status.
    Closed(Option<u32>, i32),
    /// The connection dropped; reconnect.
    Reconnect,
}

/// The outcome of a segment, given how it ended and, for an orderly end,
/// whether the remote tmux session survived it.
pub fn segment_outcome(end: PumpEnd, tmux_survived: bool) -> (r: SegmentOutcome)
    ensures
        r == match end {
            PumpEnd::Clean(code) => {
                let local = match code {
                    Some(c) => crate::exec::as_i32(c),
                    None => 0,
                };
                if tmux_survived {
                    SegmentOutcome::Detached(local)
                } else {
                    SegmentOutcome::Closed(code, local)
                }
            },
            PumpEnd::Dropped => SegmentOutcome::Reconnect,
        },
{
    match end {
        PumpEnd::Clean(code) => {
            let local = match code {
                Some(c) => crate::exec::local_exit_code(Some(c)),
                None => 0,
            };
            if tmux_survived {
                SegmentOutcome::Detached(local)
            } else {
                SegmentOutcome::Closed(code, local)
            }
        },
        PumpEnd::Dropped => SegmentOutcome::Reconnect,
    }
}

/// The reason a segment's row records for an outcome.
pub fn segment_reason(outcome: SegmentOutcome) -> (r: &'static str)
    ensures
        r@ == match outcome {
            SegmentOutcome::Detached(_) => "detached"@,
            SegmentOutcome::Closed(_, _) => "closed"@,
            SegmentOutcome::Reconnect => "dropped"@,
        },
{
    match outcome {
        SegmentOutcome::Detached(_) => "detached",
        SegmentOutcome::Closed(_, _) => "closed",
        SegmentOutcome::Reconnect => "dropped",
    }
}

/// Where the supervisor of an interactive session stands: whether the next
/// connection is the first one (made at once; later ones back off), and how
/// many segments have been connected.
#[derive(Copy, Clone, Debug, PartialEq, Eq, Structural)]
pub struct DriveState {
    pub first_segment: bool,
    pub segments: u32,
}

/// What happened since the supervisor last decided.
#[derive(Copy, Clone, Debug, PartialEq, Eq, Structural)]
pub enum DriveEvent {
    /// Connecting failed: the first connection, or every reconnect attempt.
    ConnectFailed,
    /// Connected, but tmux is not on the host.
    TmuxMissing,
    /// Connected, with tmux on the host.
    Connected,
    /// A connected segment ended.
    SegmentEnded(SegmentOutcome),
}

/// What the supervisor does next.
#[derive(Copy, Clone, Debug, PartialEq, Eq, Structural)]
pub enum DriveAction {
    /// Close the session with no exit code and fail with the error at hand.
    CloseAndFail,
    /// Leave the session detached, to be attached later, and exit with this
    /// code.
    Detach(i32),
    /// Close the session with this remote status and exit with this code.
    Close(Option<u32>, i32),
    /// Start segment number `n`, marking it in the recording when it is a
    /// reconnect (`n > 1`).
    StartSegment(u32),
    /// Record the drop and connect again, with backoff.
    Reconnect,
}

/// The supervisor's step: a failed first connection closes the session, a
/// failed reconnect (every attempt used) leaves it detached with exit code
/// 255, a host without tmux closes it, a connection starts the next segment,
/// and a segment's end detaches, closes or reconnects as its outcome says.
pub open spec fn drive_step_spec(st: DriveState, ev: DriveEvent) -> (DriveState, DriveAction) {
    match ev {
        DriveEvent::ConnectFailed => (
            DriveState { first_segment: false, ..st },
            if st.first_segment {
                DriveAction::CloseAndFail
            } else {
                DriveAction::Detach(255)
            },
        ),
        DriveEvent::TmuxMissing => (DriveState { first_segment: false, ..st }, DriveAction::CloseAndFail),
        DriveEvent::Connected => (
            DriveState { first_segment: false, segments: (st.segments + 1) as u32 },
            DriveAction::StartSegment((st.segments + 1) as u32),
        ),
        DriveEvent::SegmentEnded(o) => (
            DriveState { first_segment: false, ..st },
            match o {
                SegmentOutcome::Detached(code) => DriveAction::Detach(code),
                SegmentOutcome::Closed(remote, code) => DriveAction::Close(remote, code),
                SegmentOutcome::Reconnect => DriveAction::Reconnect,
            },
        ),
    }
}

/// Decides what the supervisor of an interactive session does after an
/// event. The segment count must have room for one more.
pub fn drive_step(st: DriveState, ev: DriveEvent) -> (r: (DriveState, DriveAction))
    requires
        ev == DriveEvent::Connected ==> st.segments < u32::MAX,
    ensures
        r == drive_step_spec(st, ev),
{
    match ev {
        DriveEvent::ConnectFailed => {
            let action = if st.first_segment {
                DriveAction::CloseAndFail
            } else {
                DriveAction::Detach(255)
            };
            (DriveState { first_segment: false, segments: st.segments }, action)
        },
        DriveEvent::TmuxMissing => (
            DriveState { first_segment: false, segments: st.segments },
            DriveAction::CloseAndFail,
        ),
        DriveEvent::Connected => {
            let n = st.segments + 1;
            (DriveState { first_segment: false, segments: n }, DriveAction::StartSegment(n))
        },
        DriveEvent::SegmentEnded(o) => {
            let action = match o {
                SegmentOutcome::Detached(code) => DriveAction::Detach(code),
                SegmentOutcome::Closed(remote, code) => DriveAction::Close(remote, code),
                SegmentOutcome::Reconnect => DriveAction::Reconnect,
            };
            (DriveState { first_segment: false, segments: st.segments }, action)
        },
    }
}

/// Why a session cannot be attached.
#[derive(Copy, Clone, Debug, PartialEq, Eq, Structural)]
pub enum AttachRefusal {
    /// It was a one-shot `run`, with no tmux session behind it.
    NoTmux,
    /// Its remote tmux session has ended.
    Closed,
}

/// Whether a session can be attached: it must have a tmux session and not be
/// closed.
pub fn attach_refusal(s: &Session) -> (r: Option<AttachRefusal>)
    ensures
        r == if s.tmux_name is None {
            Some(AttachRefusal::NoTmux)
        } else if s.status@ == "closed"@ {
            Some(AttachRefusal::Closed)
        } else {
            None::<AttachRefusal>
        },
{
    if s.tmux_name.is_none() {
        return Some(AttachRefusal::NoTmux);
    }
    if crate::text::str_eq(s.status.as_str(), "closed") {
        Some(AttachRefusal::Closed)
    } else {
        None
    }
}

/// What to do about a shell's most recent command before running another.
#[derive(Copy, Clone, Debug, PartialEq, Eq, Structural)]
pub enum ReapAction {
    /// Nothing is pending.
    Nothing,
    /// It is still running: refuse to type over it.
    Busy,
    /// It was interrupted and the shell dropped the rest of its line: close
    /// its row with no exit code.
    CloseWithoutCode,
    /// It finished after we stopped waiting: record its late result.
    CollectLate(i32),
}

/// The action for a shell's most recent command, given whether it is open,
/// what its exit-code file holds, and whether the pane is idle. The file is
/// read only for an open command, and the pane is asked only when the file
/// holds no code.
pub fn reap_action(last_open: bool, rc: Option<i32>, pane_idle: bool) -> (r: ReapAction)
    ensures
        r == if !last_open {
            ReapAction::Nothing
        } else {
            match rc {
                Some(code) => ReapAction::CollectLate(code),
                None => if pane_idle {
                    ReapAction::CloseWithoutCode
                } else {
                    ReapAction::Busy
                },
            }
        },
{
    if !last_open {
        return ReapAction::Nothing;
    }
    match rc {
        Some(code) => ReapAction::CollectLate(code),
        None => {
            if pane_idle {
                ReapAction::CloseWithoutCode
            } else {
                ReapAction::Busy
            }
        },
    }
}

/// How a command run in a persistent shell ended.
#[derive(Copy, Clone, Debug, PartialEq, Eq, Structural)]
pub enum ShellOutcome {
    /// The shell itself ended while the command ran: the wait script's 254
    /// with no exit-code file behind it.
    ShellEnded,
    /// The command finished with this code.
    Finished(i32),
}

/// Tells a shell that died under a command apart from a command that exited
/// with 254 itself: only the missing exit-code file does.
pub fn shell_outcome(code: i32, rc_file_exists: bool) -> (r: ShellOutcome)
    ensures
        r == if code == 254 && !rc_file_exists {
            ShellOutcome::ShellEnded
        } else {
            ShellOutcome::Finished(code)
        },
{
    if code == 254 && !rc_file_exists {
        ShellOutcome::ShellEnded
    } else {
        ShellOutcome::Finished(code)
    }
}

/// Which shells `shell stop` ends.
#[derive(Clone, Debug)]
pub enum StopSelection {
    /// Every open shell.
    All,
    /// The one a context name or session id names.
    One(String),
    /// Neither was given.
    Missing,
}

/// The shells `shell stop` ends: `--all` wins over a target.
pub fn stop_selection(target: Option<String>, all: bool) -> (r: StopSelection)
    ensures
        all ==> r is All,
        !all && target is Some ==> (r matches StopSelection::One(t) && t == target->0),
        !all && target is None ==> r is Missing,
{
    if all {
        return StopSelection::All;
    }
    match target {
        Some(t) => StopSelection::One(t),
        None => StopSelection::Missing,
    }
}

/// Whether reusing a live shell must first mark it active again (`attach`
/// leaves it detached).
pub fn needs_reactivation(s: &Session) -> (b: bool)
    ensures
        b == (s.status@ != "active"@),
{
    !crate::text::str_eq(s.status.as_str(), "active")
}

/// Whether a session is a persistent shell.
pub fn is_shell(s: &Session) -> (b: bool)
    ensures
        b == (s.kind@ == "shell"@),
{
    crate::text::str_eq(s.kind.as_str(), "shell")
}

// ---------------------------------------------------------------------------
// listings
// ---------------------------------------------------------------------------

/// Columns left for the command in `sessions list` after the 79 fixed ones
/// (the columns before it and their separators), clamped to 24..=200; 80
/// when there is no terminal.
pub fn command_column_width(term_cols: Option<u16>) -> (w: usize)
    ensures
        w == match term_cols {
            Some(c) if c > 0 => {
                let rest: int = if c >= 79 { c - 79 } else { 0 };
                if rest < 24 { 24 } else if rest > 200 { 200 } else { rest }
            },
            _ => 80,
        },
{
    let cols: usize = match term_cols {
        Some(c) => c as usize,
        None => 0,
    };
    if cols == 0 {
        return 80;
    }
    let rest = if cols >= 79 { cols - 79 } else { 0 };
    if rest < 24 {
        24
    } else if rest > 200 {
        200
    } else {
        rest
    }
}

/// The COMMAND cell of `sessions list`.
pub open spec fn list_command_spec(
    is_shell: bool,
    command: Option<Seq<char>>,
    count: i64,
    last: Option<Seq<char>>,
    width: nat,
) -> Seq<char> {
    if !is_shell {
        match command {
            Some(c) => one_line_spec(c, width),
            None => "-"@,
        }
    } else {
        match last {
            Some(c) => "["@ + signed_dec(count as int) + " cmds] "@ + one_line_spec(
                c,
                if width >= 12 { (width - 12) as nat } else { 0 },
            ),
            None => "[0 cmds]"@,
        }
    }
}

/// What the COMMAND column shows: a `run` its one command line; a persistent
/// shell the number of commands it has run and the most recent one.
pub fn list_command(
    s: &Session,
    command_count: i64,
    last_command: Option<&str>,
    width: usize,
) -> (r: String)
    ensures
        r@ == list_command_spec(
            s.kind@ == "shell"@,
            match s.command {
                Some(c) => Some(c@),
                None => None,
            },
            command_count,
            match last_command {
                Some(c) => Some(c@),
                None => None,
            },
            width as nat,
        ),
{
    let mut r = String::new();
    if !is_shell(s) {
        match &s.command {
            Some(c) => {
                return one_line(c.as_str(), width);
            },
            None => {
                push_str(&mut r, "-");
                return r;
            },
        }
    }
    match last_command {
        Some(c) => {
            push_str(&mut r, "[");
            push_i64(&mut r, command_count);
            push_str(&mut r, " cmds] ");
            let w = if width >= 12 { width - 12 } else { 0 };
            let o = one_line(c, w);
            push_str(&mut r, o.as_str());
        },
        None => {
            push_str(&mut r, "[0 cmds]");
        },
    }
    r
}


/// `s.get(..19).unwrap_or(s)`: a timestamp to the second.
pub open spec fn to_seconds(ts: Seq<char>) -> Seq<char> {
    match byte_prefix_spec(ts, 19) {
        Some(p) => p,
        None => ts,
    }
}

/// The exit cell of a listing: the code, or nothing.
pub open spec fn exit_cell(code: Option<i64>) -> Seq<char> {
    match code {
        Some(c) => signed_dec(c as int),
        None => Seq::empty(),
    }
}

/// The header of `sessions list`.
pub open spec fn session_list_header_spec() -> Seq<char> {
    pad_right_spec("ID"@, 18) + " "@ + pad_right_spec("CONTEXT"@, 12) + " "@ + pad_right_spec(
        "KIND"@,
        8,
    ) + " "@ + pad_right_spec("STATUS"@, 9) + " "@ + pad_right_spec("STARTED"@, 21) + " "@
        + pad_right_spec("EXIT"@, 5) + " COMMAND"@
}

/// One row of `sessions list`.
pub open spec fn session_list_row_spec(s: Session, command_cell: Seq<char>) -> Seq<char> {
    pad_right_spec(s.id@, 18) + " "@ + pad_right_spec(s.context@, 12) + " "@ + pad_right_spec(
        s.kind@,
        8,
    ) + " "@ + pad_right_spec(s.status@, 9) + " "@ + pad_right_spec(to_seconds(s.started_at@), 21)
        + " "@ + pad_right_spec(exit_cell(s.exit_code), 5) + " "@ + command_cell
}

/// The header of `sessions list`.
pub fn session_list_header() -> (r: String)
    ensures
        r@ == session_list_header_spec(),
{
    let mut r = String::new();
    push_padded(&mut r, "ID", 18);
    push_str(&mut r, " ");
    push_padded(&mut r, "CONTEXT", 12);
    push_str(&mut r, " ");
    push_padded(&mut r, "KIND", 8);
    push_str(&mut r, " ");
    push_padded(&mut r, "STATUS", 9);
    push_str(&mut r, " ");
    push_padded(&mut r, "STARTED", 21);
    push_str(&mut r, " ");
    push_padded(&mut r, "EXIT", 5);
    push_str(&mut r, " COMMAND");
    r
}

fn exit_string(code: Option<i64>) -> (r: String)
    ensures
        r@ == exit_cell(code),
{
    let mut r = String::new();
    if let Some(c) = code {
        push_i64(&mut r, c);
    }
    r
}

/// One row of `sessions list`, with its COMMAND cell already made.
pub fn session_list_row(s: &Session, command_cell: &str) -> (r: String)
    ensures
        r@ == session_list_row_spec(*s, command_cell@),
{
    let mut r = String::new();
    push_padded(&mut r, s.id.as_str(), 18);
    push_str(&mut r, " ");
    push_padded(&mut r, s.context.as_str(), 12);
    push_str(&mut r, " ");
    push_padded(&mut r, s.kind.as_str(), 8);
    push_str(&mut r, " ");
    push_padded(&mut r, s.status.as_str(), 9);
    push_str(&mut r, " ");
    let started = byte_prefix_or_all(s.started_at.as_str(), 19);
    push_padded(&mut r, started.as_str(), 21);
    push_str(&mut r, " ");
    let e = exit_string(s.exit_code);
    push_padded(&mut r, e.as_str(), 5);
    push_str(&mut r, " ");
    push_str(&mut r, command_cell);
    r
}

/// The header of `shell list`.
pub open spec fn shell_list_header_spec() -> Seq<char> {
    pad_right_spec("ID"@, 18) + " "@ + pad_right_spec("CONTEXT"@, 12) + " "@ + pad_right_spec(
        "STATUS"@,
        9,
    ) + " "@ + pad_right_spec("STARTED"@, 21) + " "@ + pad_right_spec("CMDS"@, 5)
        + " LAST COMMAND"@
}

/// One row of `shell list`.
pub open spec fn shell_list_row_spec(s: Session, count: i64, last: Option<Seq<char>>) -> Seq<char> {
    pad_right_spec(s.id@, 18) + " "@ + pad_right_spec(s.context@, 12) + " "@ + pad_right_spec(
        s.status@,
        9,
    ) + " "@ + pad_right_spec(to_seconds(s.started_at@), 21) + " "@ + pad_right_spec(
        signed_dec(count as int),
        5,
    ) + " "@ + match last {
        Some(c) => one_line_spec(c, 46),
        None => "-"@,
    }
}

/// The header of `shell list`.
pub fn shell_list_header() -> (r: String)
    ensures
        r@ == shell_list_header_spec(),
{
    let mut r = String::new();
    push_padded(&mut r, "ID", 18);
    push_str(&mut r, " ");
    push_padded(&mut r, "CONTEXT", 12);
    push_str(&mut r, " ");
    push_padded(&mut r, "STATUS", 9);
    push_str(&mut r, " ");
    push_padded(&mut r, "STARTED", 21);
    push_str(&mut r, " ");
    push_padded(&mut r, "CMDS", 5);
    push_str(&mut r, " LAST COMMAND");
    r
}

/// One row of `shell list`: the shell, how many commands it has run and the
/// most recent one.
pub fn shell_list_row(s: &Session, command_count: i64, last_command: Option<&str>) -> (r: String)
    ensures
        r@ == shell_list_row_spec(*s, command_count, match last_command {
            Some(c) => Some(c@),
            None => None,
        }),
{
    let mut r = String::new();
    push_padded(&mut r, s.id.as_str(), 18);
    push_str(&mut r, " ");
    push_padded(&mut r, s.context.as_str(), 12);
    push_str(&mut r, " ");
    push_padded(&mut r, s.status.as_str(), 9);
    push_str(&mut r, " ");
    let started = byte_prefix_or_all(s.started_at.as_str(), 19);
    push_padded(&mut r, started.as_str(), 21);
    push_str(&mut r, " ");
    let mut n = String::new();
    push_i64(&mut n, command_count);
    push_padded(&mut r, n.as_str(), 5);
    push_str(&mut r, " ");
    match last_command {
        Some(c) => {
            let o = one_line(c, 46);
            push_str(&mut r, o.as_str());
        },
        None => push_str(&mut r, "-"),
    }
    r
}

/// One line of the segments of `sessions show`, numbered from 1.
pub open spec fn segment_line_spec(n: nat, seg: Segment) -> Seq<char> {
    "  "@ + dec(n) + " "@ + to_seconds(seg.connected_at@) + " -> "@ + match seg.disconnected_at {
        Some(d) => to_seconds(d@),
        None => "..."@,
    } + " ("@ + match seg.reason {
        Some(r) => r@,
        None => "active"@,
    } + ")"@
}

/// One line of the segments of `sessions show`.
pub fn segment_line(n: u64, seg: &Segment) -> (r: String)
    ensures
        r@ == segment_line_spec(n as nat, *seg),
{
    let mut r = String::new();
    push_str(&mut r, "  ");
    push_u64(&mut r, n);
    push_str(&mut r, " ");
    let c = byte_prefix_or_all(seg.connected_at.as_str(), 19);
    push_str(&mut r, c.as_str());
    push_str(&mut r, " -> ");
    match &seg.disconnected_at {
        Some(d) => {
            let d2 = byte_prefix_or_all(d.as_str(), 19);
            push_str(&mut r, d2.as_str());
        },
        None => push_str(&mut r, "..."),
    }
    push_str(&mut r, " (");
    match &seg.reason {
        Some(x) => push_str(&mut r, x.as_str()),
        None => push_str(&mut r, "active"),
    }
    push_str(&mut r, ")");
    r
}

/// A segment's line in `sessions show` names both of its ends: after its
/// number comes when it connected, then ` -> ` and when it disconnected (the
/// first 19 bytes of each timestamp, date and time to the second, or all of
/// it when 19 bytes do not end on a character), or `...` while it is still
/// connected, then the reason in brackets.
pub proof fn law_segment_line_shows_both_ends(n: nat, seg: Segment)
    ensures
        segment_line_spec(n, seg) == "  "@ + dec(n) + " "@ + match byte_prefix_spec(
            seg.connected_at@,
            19,
        ) {
            Some(p) => p,
            None => seg.connected_at@,
        } + " -> "@ + match seg.disconnected_at {
            Some(d) => match byte_prefix_spec(d@, 19) {
                Some(p) => p,
                None => d@,
            },
            None => "..."@,
        } + " ("@ + match seg.reason {
            Some(r) => r@,
            None => "active"@,
        } + ")"@,
{
}

/// The exit cell of a command in `sessions show`: its code; `-` when it ended
/// without one; `...` while it runs.
pub open spec fn show_exit_cell(c: Command) -> Seq<char> {
    match c.exit_code {
        Some(e) => signed_dec(e as int),
        None => if c.ended_at is Some {
            "-"@
        } else {
            "..."@
        },
    }
}

/// One line of the commands of `sessions show`: number, time of day the
/// command started (bytes 11..19 of its timestamp), exit cell and the command
/// collapsed onto one line.
pub open spec fn command_show_line_spec(c: Command) -> Seq<char> {
    "  "@ + pad_left_spec(signed_dec(c.seq as int), 3) + " "@ + match byte_range_spec(
        c.started_at@,
        11,
        19,
    ) {
        Some(t) => t,
        None => Seq::empty(),
    } + " "@ + pad_left_spec(show_exit_cell(c), 4) + "  "@ + one_line_spec(c.command@, 90)
}

/// One line of the commands of `sessions show`.
pub fn command_show_line(c: &Command) -> (r: String)
    ensures
        r@ == command_show_line_spec(*c),
{
    let mut r = String::new();
    push_str(&mut r, "  ");
    let mut n = String::new();
    push_i64(&mut n, c.seq);
    push_padded_left(&mut r, n.as_str(), 3);
    push_str(&mut r, " ");
    match byte_range(c.started_at.as_str(), 11, 19) {
        Some(t) => push_str(&mut r, t.as_str()),
        None => {},
    }
    push_str(&mut r, " ");
    let mut e = String::new();
    match c.exit_code {
        Some(x) => push_i64(&mut e, x),
        None => {
            if c.ended_at.is_some() {
                push_str(&mut e, "-");
            } else {
                push_str(&mut e, "...");
            }
        },
    }
    push_padded_left(&mut r, e.as_str(), 4);
    push_str(&mut r, "  ");
    let o = one_line(c.command.as_str(), 90);
    push_str(&mut r, o.as_str());
    r
}

/// The `command` field of `sessions show`: the first line of the command
/// after the label, each further line indented under it.
pub open spec fn command_field_spec(ls: Seq<Seq<char>>) -> Seq<Seq<char>> {
    if ls.len() == 0 {
        seq!["command   "@]
    } else {
        seq!["command   "@ + ls[0]] + ls.skip(1).map_values(|l: Seq<char>| "          "@ + l)
    }
}

/// The lines of the `command` field of `sessions show`.
pub fn command_field(command: &str) -> (r: Vec<String>)
    ensures
        r@.map_values(|l: String| l@) == command_field_spec(lines_spec(command@)),
{
    let ls = lines(command);
    let ghost spec_ls = lines_spec(command@);
    let mut r: Vec<String> = Vec::new();
    let mut first = String::new();
    push_str(&mut first, "command   ");
    if ls.len() == 0 {
        r.push(first);
        assert(r@.map_values(|l: String| l@) =~= command_field_spec(spec_ls));
        return r;
    }
    assert(ls@.map_values(|l: Vec<char>| l@)[0] == spec_ls[0]);
    push_chars(&mut first, &ls[0]);
    r.push(first);
    let mut i: usize = 1;
    while i < ls.len()
        invariant
            1 <= i <= ls.len(),
            ls@.map_values(|l: Vec<char>| l@) == spec_ls,
            r@.len() == i,
            r@.map_values(|l: String| l@) =~= command_field_spec(spec_ls).take(i as int),
        decreases ls.len() - i,
    {
        let mut line = String::new();
        push_str(&mut line, "          ");
        assert(ls@.map_values(|l: Vec<char>| l@)[i as int] == spec_ls[i as int]);
        push_chars(&mut line, &ls[i]);
        r.push(line);
        assert(command_field_spec(spec_ls)[i as int] == "          "@ + spec_ls[i as int]);
        assert(r@.map_values(|l: String| l@) =~= command_field_spec(spec_ls).take(i + 1));
        i += 1;
    }
    assert(command_field_spec(spec_ls).len() == ls.len());
    assert(command_field_spec(spec_ls).take(i as int) =~= command_field_spec(spec_ls));
    r
}

/// Appends the characters of `v`.
fn push_chars(s: &mut String, v: &Vec<char>)
    ensures
        final(s)@ == old(s)@ + v@,
{
    let mut i: usize = 0;
    while i < v.len()
        invariant
            i <= v.len(),
            s@ == old(s)@ + v@.take(i as int),
        decreases v.len() - i,
    {
        push_char(s, v[i]);
        assert(v@.take(i + 1) == v@.take(i as int).push(v@[i as int]));
        i += 1;
    }
    assert(v@.take(v.len() as int) == v@);
}

/// The first character boundary of the UTF-8 bytes `b` at or after `i`.
pub open spec fn boundary_at_or_after(b: Seq<u8>, i: int) -> int
    decreases b.len() - i,
{
    if i >= b.len() || is_char_boundary(b, i) {
        i
    } else {
        boundary_at_or_after(b, i + 1)
    }
}

/// The tail of a transcript for `sessions show`: when it is longer than `n`
/// bytes, `...` and its last `n` bytes, less the bytes of a character cut in
/// two at the start of the tail; otherwise the whole transcript.
pub open spec fn output_tail_spec(text: Seq<char>, n: nat) -> Seq<char> {
    let b = encode_utf8(text);
    if b.len() > n {
        "..."@ + decode_utf8(
            b.subrange(boundary_at_or_after(b, b.len() - n), b.len() as int),
        )
    } else {
        text
    }
}

/// The tail of a transcript, cut at the first character boundary within its
/// last `n` bytes.
pub fn output_tail(text: &str, n: usize) -> (r: String)
    ensures
        r@ == output_tail_spec(text@, n as nat),
{
    let len = text.as_bytes().len();
    let ghost b = encode_utf8(text@);
    let mut r = String::new();
    if len > n {
        proof {
            vstd::utf8::encode_utf8_valid_utf8(text@);
            vstd::utf8::is_char_boundary_start_end_of_seq(b);
        }
        let mut k = len - n;
        while k < len && !text.is_char_boundary(k)
            invariant
                len - n <= k <= len,
                len == b.len(),
                b == encode_utf8(text@),
                boundary_at_or_after(b, len - n) == boundary_at_or_after(b, k as int),
            decreases len - k,
        {
            k += 1;
        }
        assert(boundary_at_or_after(b, k as int) == k);
        let (_a, t) = text.split_at(k);
        proof {
            vstd::utf8::encode_utf8_decode_utf8(t@);
        }
        push_str(&mut r, "...");
        push_str(&mut r, t);
    } else {
        push_str(&mut r, text);
    }
    r
}

} // verus!
