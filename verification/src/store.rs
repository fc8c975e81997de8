//! The audit records: sessions, their connection segments and the commands
//! run in a persistent shell, with the decisions the database layer makes
//! around them (ids, file names, resolving an id prefix, numbering commands).

use vstd::prelude::*;

use rand::RngExt;

use crate::text::{chars_of, push_char, push_str};

verus! {

/// One recorded session.
#[derive(Clone, Debug)]
pub struct Session {
    pub id: String,
    pub context: String,
    /// `run`, `shell` (a persistent shell) or `connect`.
    pub kind: String,
    pub command: Option<String>,
    pub tmux_name: Option<String>,
    pub cols: Option<u32>,
    pub rows: Option<u32>,
    pub started_at: String,
    pub ended_at: Option<String>,
    pub exit_code: Option<i64>,
    /// `active`, `detached` or `closed`.
    pub status: String,
    pub recording: String,
}

/// One connection of a session.
#[derive(Clone, Debug)]
pub struct Segment {
    pub connected_at: String,
    pub disconnected_at: Option<String>,
    pub reason: Option<String>,
}

/// One command run inside a persistent shell session.
#[derive(Clone, Debug)]
pub struct Command {
    pub seq: i64,
    pub command: String,
    pub started_at: String,
    pub ended_at: Option<String>,
    pub exit_code: Option<i64>,
}

// ---------------------------------------------------------------------------
// session ids
// ---------------------------------------------------------------------------

/// The lower-case hex digit for `d < 16`.
pub open spec fn hex_digit(d: nat) -> char {
    if d < 10 {
        (48 + d) as char
    } else {
        (87 + d) as char
    }
}

/// Bytes as lower-case hex, two digits each.
pub open spec fn hex_lower(bytes: Seq<u8>) -> Seq<char>
    decreases bytes.len(),
{
    if bytes.len() == 0 {
        Seq::empty()
    } else {
        hex_lower(bytes.drop_last()) + seq![
            hex_digit((bytes.last() / 16) as nat),
            hex_digit((bytes.last() % 16) as nat),
        ]
    }
}

/// A lower-case hex digit.
pub open spec fn is_hex_char(c: char) -> bool {
    (48 <= (c as u32) <= 57) || (97 <= (c as u32) <= 102)
}

fn hex_char(d: u8) -> (c: char)
    requires
        d < 16,
    ensures
        c == hex_digit(d as nat),
{
    if d == 0 { '0' }
    else if d == 1 { '1' }
    else if d == 2 { '2' }
    else if d == 3 { '3' }
    else if d == 4 { '4' }
    else if d == 5 { '5' }
    else if d == 6 { '6' }
    else if d == 7 { '7' }
    else if d == 8 { '8' }
    else if d == 9 { '9' }
    else if d == 10 { 'a' }
    else if d == 11 { 'b' }
    else if d == 12 { 'c' }
    else if d == 13 { 'd' }
    else if d == 14 { 'e' }
    else { 'f' }
}

/// The id of a session made from its random bytes: 16 lower-case hex digits.
pub fn session_id_from_bytes(bytes: [u8; 8]) -> (r: String)
    ensures
        r@ == hex_lower(bytes@),
{
    let mut r = String::new();
    let mut i: usize = 0;
    while i < 8
        invariant
            i <= 8,
            bytes@.len() == 8,
            r@ == hex_lower(bytes@.take(i as int)),
        decreases 8 - i,
    {
        let b = bytes[i];
        assert(bytes@.take(i + 1).drop_last() == bytes@.take(i as int));
        assert(bytes@.take(i + 1).last() == b);
        push_char(&mut r, hex_char(b / 16));
        push_char(&mut r, hex_char(b % 16));
        i += 1;
    }
    assert(bytes@.take(8) == bytes@);
    r
}

/// Eight random bytes for a session id.
///
/// Trusted: calls `rand::rng().random::<[u8; 8]>()`, the thread-local
/// generator; nothing is stated of the bytes, which are random.
#[verifier::external_body]
fn random_id_bytes() -> [u8; 8] {
    rand::rng().random()
}

/// A fresh random session id.
pub fn new_session_id() -> (r: String)
    ensures
        exists|b: Seq<u8>| b.len() == 8 && r@ == hex_lower(b),
{
    let bytes = random_id_bytes();
    let r = session_id_from_bytes(bytes);
    assert(bytes@.len() == 8 && r@ == hex_lower(bytes@));
    r
}

proof fn lemma_hex_lower_shape(bytes: Seq<u8>)
    ensures
        hex_lower(bytes).len() == 2 * bytes.len(),
        forall|k: int| 0 <= k < hex_lower(bytes).len() ==> is_hex_char(#[trigger] hex_lower(bytes)[k]),
    decreases bytes.len(),
{
    if bytes.len() > 0 {
        lemma_hex_lower_shape(bytes.drop_last());
        let p = hex_lower(bytes.drop_last());
        let h = hex_lower(bytes);
        assert forall|k: int| 0 <= k < h.len() implies is_hex_char(#[trigger] h[k]) by {
            if k < p.len() {
                assert(h[k] == p[k]);
            }
        }
    }
}

/// A session id is 16 lower-case hex digits, so paths and tmux names built
/// from it never need quoting.
pub proof fn law_session_id_is_hex(bytes: Seq<u8>)
    requires
        bytes.len() == 8,
    ensures
        hex_lower(bytes).len() == 16,
        forall|k: int| 0 <= k < 16 ==> is_hex_char(#[trigger] hex_lower(bytes)[k]),
{
    lemma_hex_lower_shape(bytes);
}

/// The value of a lower-case hex digit.
pub open spec fn hex_value(c: char) -> int {
    if '0' <= c <= '9' {
        c as int - '0' as int
    } else {
        c as int - 'a' as int + 10
    }
}

proof fn lemma_hex_round_trip(bytes: Seq<u8>)
    ensures
        hex_lower(bytes).len() == 2 * bytes.len(),
        forall|i: int|
            0 <= i < bytes.len() ==> hex_value(#[trigger] hex_lower(bytes)[2 * i]) * 16
                + hex_value(hex_lower(bytes)[2 * i + 1]) == bytes[i],
        forall|k: int|
            0 <= k < hex_lower(bytes).len() ==> {
                let c = #[trigger] hex_lower(bytes)[k];
                ('0' <= c <= '9') || ('a' <= c <= 'f')
            },
    decreases bytes.len(),
{
    if bytes.len() > 0 {
        let front = bytes.drop_last();
        lemma_hex_round_trip(front);
        let p = hex_lower(front);
        let b = bytes.last();
        let h = hex_lower(bytes);
        assert(h == p + seq![hex_digit((b / 16) as nat), hex_digit((b % 16) as nat)]);
        assert(hex_value(hex_digit((b / 16) as nat)) == b / 16);
        assert(hex_value(hex_digit((b % 16) as nat)) == b % 16);
        assert forall|i: int| 0 <= i < bytes.len() implies hex_value(#[trigger] h[2 * i]) * 16
            + hex_value(h[2 * i + 1]) == bytes[i] by {
            if i < front.len() {
                assert(h[2 * i] == p[2 * i]);
                assert(h[2 * i + 1] == p[2 * i + 1]);
                assert(bytes[i] == front[i]);
            } else {
                assert(i == front.len());
                assert(h[2 * i] == hex_digit((b / 16) as nat));
                assert(h[2 * i + 1] == hex_digit((b % 16) as nat));
            }
        }
        assert forall|k: int| 0 <= k < h.len() implies {
            let c = #[trigger] h[k];
            ('0' <= c <= '9') || ('a' <= c <= 'f')
        } by {
            if k < p.len() {
                assert(h[k] == p[k]);
            }
        }
    }
}

/// A session id spells out its random bytes: two lower-case hex digits
/// (`0-9`, `a-f`) per byte, high half first, so the id reads back to exactly
/// those bytes.
pub proof fn law_session_id_reads_back(bytes: Seq<u8>)
    ensures
        hex_lower(bytes).len() == 2 * bytes.len(),
        forall|i: int|
            0 <= i < bytes.len() ==> hex_value(#[trigger] hex_lower(bytes)[2 * i]) * 16
                + hex_value(hex_lower(bytes)[2 * i + 1]) == bytes[i],
        forall|k: int|
            0 <= k < hex_lower(bytes).len() ==> {
                let c = #[trigger] hex_lower(bytes)[k];
                ('0' <= c <= '9') || ('a' <= c <= 'f')
            },
{
    lemma_hex_round_trip(bytes);
}

/// The path of a session's recording in the recordings directory.
pub fn recording_path(recordings_dir: &str, id: &str) -> (r: String)
    ensures
        r@ == crate::config::path_join_spec(recordings_dir@, id@ + ".cast"@),
{
    let mut name = String::new();
    push_str(&mut name, id);
    push_str(&mut name, ".cast");
    crate::config::path_join(recordings_dir, name.as_str())
}

// ---------------------------------------------------------------------------
// queries
// ---------------------------------------------------------------------------

/// The number the next command of a shell gets, given the highest one so far.
pub fn next_command_seq(max_seq: Option<i64>) -> (r: i64)
    requires
        max_seq != Some(i64::MAX),
    ensures
        r == match max_seq {
            Some(m) => m + 1,
            None => 1,
        },
{
    match max_seq {
        Some(m) => m + 1,
        None => 1,
    }
}

/// The query that lists sessions, newest first, optionally for one context
/// and optionally only those still active or resumable; its parameters are
/// the context (when filtered) and the row limit.
pub fn list_sessions_sql(by_context: bool, active_only: bool) -> (r: String)
    ensures
        r@ == "SELECT * FROM sessions WHERE 1=1"@ + (if by_context {
            " AND context = ?"@
        } else {
            Seq::empty()
        }) + (if active_only {
            " AND status IN ('active','detached')"@
        } else {
            Seq::empty()
        }) + " ORDER BY started_at DESC LIMIT ?"@,
{
    let mut r = String::new();
    push_str(&mut r, "SELECT * FROM sessions WHERE 1=1");
    if by_context {
        push_str(&mut r, " AND context = ?");
    }
    if active_only {
        push_str(&mut r, " AND status IN ('active','detached')");
    }
    push_str(&mut r, " ORDER BY started_at DESC LIMIT ?");
    r
}

/// Whether `t` occurs in `s`.
pub open spec fn contains_seq(s: Seq<char>, t: Seq<char>) -> bool {
    exists|i: int| 0 <= i <= s.len() - t.len() && #[trigger] s.subrange(i, i + t.len()) == t
}

fn contains_str(s: &str, t: &str) -> (b: bool)
    ensures
        b == contains_seq(s@, t@),
{
    let v = chars_of(s);
    let w = chars_of(t);
    let n = v.len();
    let m = w.len();
    if m == 0 {
        assert(s@.subrange(0, 0 + t@.len() as int) =~= t@);
        return true;
    }
    if m > n {
        return false;
    }
    let count = n - m + 1;
    let mut i: usize = 0;
    while i < count
        invariant
            count == n - m + 1,
            n == v@.len(),
            m == w@.len(),
            m >= 1,
            v@ == s@,
            w@ == t@,
            i <= count,
            forall|j: int| 0 <= j < i ==> #[trigger] v@.subrange(j, j + m) != w@,
        decreases count - i,
    {
        let mut k: usize = 0;
        let mut same = true;
        while k < m
            invariant
                k <= m,
                m == w@.len(),
                n == v@.len(),
                i + m <= n,
                same == forall|x: int| 0 <= x < k ==> v@[i + x] == w@[x],
            decreases m - k,
        {
            if v[i + k] != w[k] {
                same = false;
            }
            k += 1;
        }
        if same {
            assert(v@.subrange(i as int, i + m) =~= w@);
            return true;
        }
        proof {
            let x = choose|x: int| 0 <= x < m && v@[i + x] != w@[x];
            assert(v@.subrange(i as int, i + m)[x] != w@[x]);
        }
        i += 1;
    }
    false
}

/// Whether a database's `sessions` table predates persistent shells (its
/// kind check does not admit `'shell'`) and has to be rebuilt. `None` is a
/// database with no sessions table yet.
pub fn needs_migration(table_sql: Option<&str>) -> (b: bool)
    ensures
        b == match table_sql {
            Some(sql) => !contains_seq(sql@, "'shell'"@),
            None => false,
        },
{
    match table_sql {
        Some(sql) => !contains_str(sql, "'shell'"),
        None => false,
    }
}

/// Why an id prefix named no single session.
#[derive(Clone, Debug)]
pub enum FindError {
    /// No session id starts with the prefix.
    NoMatch(String),
    /// More than one does; it carries how many.
    Ambiguous(String, usize),
}

/// Picks the session an id or id prefix names, git-style: an exact match
/// wins; otherwise the prefix must match exactly one session.
pub fn pick_session(prefix: &str, exact: Option<Session>, matches: Vec<Session>) -> (r: Result<
    Session,
    FindError,
>)
    ensures
        exact is Some ==> r == Ok::<Session, FindError>(exact->0),
        exact is None && matches@.len() == 1 ==> r == Ok::<Session, FindError>(matches@[0]),
        exact is None && matches@.len() == 0 ==> (r matches Err(FindError::NoMatch(p)) && p@
            == prefix@),
        exact is None && matches@.len() > 1 ==> (r matches Err(FindError::Ambiguous(p, n)) && p@
            == prefix@ && n == matches@.len()),
{
    if let Some(s) = exact {
        return Ok(s);
    }
    let n = matches.len();
    if n == 1 {
        let mut m = matches;
        let s = m.remove(0);
        return Ok(s);
    }
    let mut p = String::new();
    push_str(&mut p, prefix);
    if n == 0 {
        Err(FindError::NoMatch(p))
    } else {
        Err(FindError::Ambiguous(p, n))
    }
}

impl FindError {
    /// The message shown for the error.
    pub fn message(&self) -> (r: String)
        ensures
            r@ == match self {
                FindError::NoMatch(p) => "no session matching '"@ + p@
                    + "' (see: agentssh sessions list)"@,
                FindError::Ambiguous(p, n) => "'"@ + p@ + "' is ambiguous ("@ + crate::text::dec(
                    *n as nat,
                ) + " sessions match); use a longer prefix"@,
            },
    {
        let mut r = String::new();
        match self {
            FindError::NoMatch(p) => {
                push_str(&mut r, "no session matching '");
                push_str(&mut r, p.as_str());
                push_str(&mut r, "' (see: agentssh sessions list)");
            },
            FindError::Ambiguous(p, n) => {
                push_str(&mut r, "'");
                push_str(&mut r, p.as_str());
                push_str(&mut r, "' is ambiguous (");
                crate::text::push_u64(&mut r, *n as u64);
                push_str(&mut r, " sessions match); use a longer prefix");
            },
        }
        r
    }
}

} // verus!
