//! What goes into an asciicast v2 recording, apart from the file and the
//! clock: event codes, the newline handling that keeps exec output from
//! staircasing on replay, and turning recorded events back into a readable
//! transcript.

use vstd::prelude::*;
use vstd::string::*;
use vstd::utf8::{encode_scalar, encode_utf8, has_width_1_encoding, has_width_2_encoding, has_width_3_encoding};

use crate::text::{chars_of, dec, is_control, is_ctrl, push_char, push_str, push_u64};

verus! {

/// Event types in asciicast v2: output, input, marker, resize.
#[derive(Copy, Clone, Debug, PartialEq, Eq, Structural)]
pub enum EventKind {
    Output,
    Input,
    Marker,
    Resize,
}

/// The one-letter code asciicast v2 uses for an event kind.
pub open spec fn kind_code(kind: EventKind) -> Seq<char> {
    match kind {
        EventKind::Output => seq!['o'],
        EventKind::Input => seq!['i'],
        EventKind::Marker => seq!['m'],
        EventKind::Resize => seq!['r'],
    }
}

impl EventKind {
    /// The event code written into the recording.
    pub fn code(self) -> (r: &'static str)
        ensures
            r@ == kind_code(self),
    {
        match self {
            EventKind::Output => {
                proof {
                    reveal_strlit("o");
                }
                "o"
            },
            EventKind::Input => {
                proof {
                    reveal_strlit("i");
                }
                "i"
            },
            EventKind::Marker => {
                proof {
                    reveal_strlit("m");
                }
                "m"
            },
            EventKind::Resize => {
                proof {
                    reveal_strlit("r");
                }
                "r"
            },
        }
    }
}

// ---------------------------------------------------------------------------
// line endings of recorded output
// ---------------------------------------------------------------------------

pub open spec fn LF() -> u8 {
    10
}

pub open spec fn CR() -> u8 {
    13
}

/// Output bytes with every LF that does not follow a CR turned into CR LF.
/// `pending` says whether the byte just before `data` (in an earlier chunk)
/// was a CR.
pub open spec fn crlf_spec(data: Seq<u8>, pending: bool) -> Seq<u8>
    decreases data.len(),
{
    if data.len() == 0 {
        Seq::empty()
    } else {
        let b = data[0];
        let head = if b == LF() && !pending {
            seq![CR(), b]
        } else {
            seq![b]
        };
        head + crlf_spec(data.drop_first(), b == CR())
    }
}

/// Whether a CR is pending after `data` has gone by.
pub open spec fn pending_after(data: Seq<u8>, pending: bool) -> bool {
    if data.len() == 0 {
        pending
    } else {
        data.last() == CR()
    }
}

/// The line-ending state of a recording's output stream.
///
/// `crlf` turns LF into CR LF for streams with no PTY behind them;
/// `pending_cr` remembers a CR that ended the previous chunk, so a CR LF split
/// across two writes is not doubled; `at_line_start` says whether the output
/// so far ends at column 0.
#[derive(Copy, Clone, Debug)]
pub struct OutputState {
    pub crlf: bool,
    pub pending_cr: bool,
    pub at_line_start: bool,
}

/// A state that is at a line start, with no newline conversion and no CR pending.
pub open spec fn initial_state() -> OutputState {
    OutputState { crlf: false, pending_cr: false, at_line_start: true }
}

/// The bytes recorded for `data` written as `kind` from state `st`.
pub open spec fn recorded_bytes(st: OutputState, kind: EventKind, data: Seq<u8>) -> Seq<u8> {
    if kind == EventKind::Output && st.crlf {
        crlf_spec(data, st.pending_cr)
    } else {
        data
    }
}

/// The state after `data` has been written as `kind` from state `st`.
pub open spec fn state_after_bytes(st: OutputState, kind: EventKind, data: Seq<u8>) -> OutputState {
    if kind != EventKind::Output {
        st
    } else {
        OutputState {
            crlf: st.crlf,
            pending_cr: if st.crlf { pending_after(data, st.pending_cr) } else { st.pending_cr },
            at_line_start: if data.len() > 0 { data.last() == LF() } else { st.at_line_start },
        }
    }
}

/// `s` with each CR LF pair turned into LF, scanning left to right, as
/// `str::replace("\r\n", "\n")` does.
pub open spec fn collapse_crlf(s: Seq<char>) -> Seq<char>
    decreases s.len(),
{
    if s.len() == 0 {
        s
    } else if s.len() >= 2 && s[0] == '\r' && s[1] == '\n' {
        seq!['\n'] + collapse_crlf(s.skip(2))
    } else {
        seq![s[0]] + collapse_crlf(s.drop_first())
    }
}

/// `s` with each LF turned into CR LF, as `str::replace('\n', "\r\n")` does.
pub open spec fn expand_lf(s: Seq<char>) -> Seq<char>
    decreases s.len(),
{
    if s.len() == 0 {
        s
    } else if s[0] == '\n' {
        seq!['\r', '\n'] + expand_lf(s.drop_first())
    } else {
        seq![s[0]] + expand_lf(s.drop_first())
    }
}

/// The text recorded for text the library writes itself: every newline as
/// CR LF, whatever it was written as.
pub open spec fn fixed_text(s: Seq<char>) -> Seq<char> {
    expand_lf(collapse_crlf(s))
}

/// The state after the library has written the non-empty text `s`.
pub open spec fn state_after_text(st: OutputState, s: Seq<char>) -> OutputState {
    let f = fixed_text(s);
    OutputState {
        crlf: st.crlf,
        pending_cr: f.len() > 0 && f.last() == '\r',
        at_line_start: f.len() > 0 && f.last() == '\n',
    }
}

proof fn lemma_crlf_append(a: Seq<u8>, b: Seq<u8>, p: bool)
    ensures
        crlf_spec(a + b, p) == crlf_spec(a, p) + crlf_spec(b, pending_after(a, p)),
    decreases a.len(),
{
    if a.len() == 0 {
        assert(a + b == b);
    } else {
        let x = a[0];
        assert((a + b).drop_first() == a.drop_first() + b);
        lemma_crlf_append(a.drop_first(), b, x == CR());
        if a.len() == 1 {
            assert(pending_after(a.drop_first(), x == CR()) == (x == CR()));
        } else {
            assert(a.drop_first().last() == a.last());
        }
        let h = if x == LF() && !p {
            seq![CR(), x]
        } else {
            seq![x]
        };
        assert(crlf_spec(a + b, p) == h + crlf_spec(a.drop_first() + b, x == CR()));
        assert(h + (crlf_spec(a.drop_first(), x == CR()) + crlf_spec(
            b,
            pending_after(a, p),
        )) == (h + crlf_spec(a.drop_first(), x == CR())) + crlf_spec(b, pending_after(a, p)));
    }
}

/// Splitting output into chunks does not change what is recorded: encoding
/// `a` and then `b` from the state `a` leaves gives the encoding of `a + b`.
/// In particular a CR at the end of one chunk and an LF at the start of the
/// next are recorded as CR LF, not CR CR LF.
pub proof fn law_crlf_chunking(st: OutputState, a: Seq<u8>, b: Seq<u8>)
    ensures
        recorded_bytes(st, EventKind::Output, a + b) == recorded_bytes(st, EventKind::Output, a)
            + recorded_bytes(state_after_bytes(st, EventKind::Output, a), EventKind::Output, b),
        state_after_bytes(st, EventKind::Output, a + b) == state_after_bytes(
            state_after_bytes(st, EventKind::Output, a),
            EventKind::Output,
            b,
        ),
{
    lemma_crlf_append(a, b, st.pending_cr);
    if b.len() > 0 {
        assert((a + b).last() == b.last());
    } else {
        assert(a + b == a);
    }
}

/// Every LF in `crlf_spec(data, p)` follows a CR (the first one may follow the
/// CR of an earlier chunk, when `p` says there was one).
pub open spec fn no_bare_lf(o: Seq<u8>, p: bool) -> bool {
    forall|k: int|
        0 <= k < o.len() && #[trigger] o[k] == LF() ==> (k == 0 && p) || (k > 0 && o[k - 1]
            == CR())
}

proof fn lemma_crlf_no_bare_lf(data: Seq<u8>, p: bool)
    ensures
        no_bare_lf(crlf_spec(data, p), p),
        crlf_spec(data, p).len() > 0 ==> (crlf_spec(data, p).last() == CR()) == (data.last()
            == CR()),
    decreases data.len(),
{
    if data.len() > 0 {
        let x = data[0];
        let rest = data.drop_first();
        lemma_crlf_no_bare_lf(rest, x == CR());
        let h = if x == LF() && !p {
            seq![CR(), x]
        } else {
            seq![x]
        };
        let t = crlf_spec(rest, x == CR());
        let o = h + t;
        assert(o == crlf_spec(data, p));
        assert forall|k: int| 0 <= k < o.len() && #[trigger] o[k] == LF() implies (k == 0 && p)
            || (k > 0 && o[k - 1] == CR()) by {
            if k >= h.len() {
                let j = k - h.len();
                assert(o[k] == t[j]);
                if j == 0 {
                    assert(o[k - 1] == h.last());
                } else {
                    assert(o[k - 1] == t[j - 1]);
                }
            }
        }
        if t.len() == 0 {
            assert(rest.len() == 0);
            assert(data.last() == x);
        } else {
            assert(o.last() == t.last());
            assert(rest.last() == data.last());
        }
    }
}

/// Which bytes of `crlf_spec(data, pending)` the conversion inserted: `true`
/// for each inserted CR, `false` for each byte of `data`.
pub open spec fn inserted_marks(data: Seq<u8>, pending: bool) -> Seq<bool>
    decreases data.len(),
{
    if data.len() == 0 {
        Seq::empty()
    } else {
        let b = data[0];
        let head = if b == LF() && !pending {
            seq![true, false]
        } else {
            seq![false]
        };
        head + inserted_marks(data.drop_first(), b == CR())
    }
}

/// The bytes of `o` whose mark is `false`.
pub open spec fn unmarked(o: Seq<u8>, marks: Seq<bool>) -> Seq<u8>
    decreases o.len(),
{
    if o.len() == 0 || marks.len() == 0 {
        Seq::empty()
    } else {
        (if marks[0] {
            Seq::empty()
        } else {
            seq![o[0]]
        }) + unmarked(o.drop_first(), marks.drop_first())
    }
}

proof fn lemma_unmarked_append(o1: Seq<u8>, m1: Seq<bool>, o2: Seq<u8>, m2: Seq<bool>)
    requires
        o1.len() == m1.len(),
    ensures
        unmarked(o1 + o2, m1 + m2) == unmarked(o1, m1) + unmarked(o2, m2),
    decreases o1.len(),
{
    if o1.len() > 0 {
        assert((o1 + o2).drop_first() == o1.drop_first() + o2);
        assert((m1 + m2).drop_first() == m1.drop_first() + m2);
        lemma_unmarked_append(o1.drop_first(), m1.drop_first(), o2, m2);
    } else {
        assert(o1 + o2 == o2);
        assert(m1 + m2 == m2);
    }
}

/// The conversion only inserts CRs, each right before an LF, and only before
/// an LF that does not already follow a CR: taking the inserted CRs out of
/// what is recorded gives back exactly the output that was written.
pub proof fn law_crlf_inserts_only_cr(data: Seq<u8>, pending: bool)
    ensures
        inserted_marks(data, pending).len() == crlf_spec(data, pending).len(),
        forall|k: int|
            0 <= k < crlf_spec(data, pending).len() && #[trigger] inserted_marks(data, pending)[k]
                ==> crlf_spec(data, pending)[k] == CR() && k + 1 < crlf_spec(data, pending).len()
                && crlf_spec(data, pending)[k + 1] == LF(),
        unmarked(crlf_spec(data, pending), inserted_marks(data, pending)) == data,
    decreases data.len(),
{
    if data.len() > 0 {
        let b = data[0];
        let rest = data.drop_first();
        law_crlf_inserts_only_cr(rest, b == CR());
        let h = if b == LF() && !pending {
            seq![CR(), b]
        } else {
            seq![b]
        };
        let hm = if b == LF() && !pending {
            seq![true, false]
        } else {
            seq![false]
        };
        let t = crlf_spec(rest, b == CR());
        let tm = inserted_marks(rest, b == CR());
        let o = h + t;
        let m = hm + tm;
        assert(o == crlf_spec(data, pending));
        assert(m == inserted_marks(data, pending));
        assert forall|k: int| 0 <= k < o.len() && #[trigger] m[k] implies o[k] == CR() && k + 1
            < o.len() && o[k + 1] == LF() by {
            if k >= hm.len() {
                assert(m[k] == tm[k - hm.len()]);
                assert(o[k] == t[k - h.len()]);
                assert(o[k + 1] == t[k + 1 - h.len()]);
            }
        }
        lemma_unmarked_append(h, hm, t, tm);
        if b == LF() && !pending {
            assert(unmarked(h, hm) == seq![b]) by {
                assert(h.drop_first() == seq![b]);
                assert(hm.drop_first() == seq![false]);
                assert(unmarked(seq![b], seq![false]) == seq![b] + unmarked(
                    Seq::<u8>::empty(),
                    Seq::<bool>::empty(),
                )) by {
                    assert(seq![b].drop_first() == Seq::<u8>::empty());
                    assert(seq![false].drop_first() == Seq::<bool>::empty());
                }
            }
        } else {
            assert(unmarked(h, hm) == seq![b]) by {
                assert(h.drop_first() == Seq::<u8>::empty());
                assert(hm.drop_first() == Seq::<bool>::empty());
                assert(unmarked(h.drop_first(), hm.drop_first()) == Seq::<u8>::empty());
                assert(!hm[0] && h[0] == b);
                assert(seq![b] + Seq::<u8>::empty() == seq![b]);
            }
        }
        assert(seq![b] + rest == data);
    }
}

/// Output recorded with newline conversion on replays without a staircase:
/// every LF in it comes right after a CR, or right after the CR that ended
/// the previous chunk.
pub proof fn law_crlf_no_bare_lf(st: OutputState, data: Seq<u8>)
    requires
        st.crlf,
    ensures
        no_bare_lf(recorded_bytes(st, EventKind::Output, data), st.pending_cr),
{
    lemma_crlf_no_bare_lf(data, st.pending_cr);
}

proof fn lemma_expand_no_bare_lf(s: Seq<char>)
    ensures
        forall|k: int|
            0 <= k < expand_lf(s).len() && #[trigger] expand_lf(s)[k] == '\n' ==> k > 0
                && expand_lf(s)[k - 1] == '\r',
    decreases s.len(),
{
    if s.len() > 0 {
        lemma_expand_no_bare_lf(s.drop_first());
        let h = if s[0] == '\n' {
            seq!['\r', '\n']
        } else {
            seq![s[0]]
        };
        let t = expand_lf(s.drop_first());
        let o = h + t;
        assert(o == expand_lf(s));
        assert forall|k: int| 0 <= k < o.len() && #[trigger] o[k] == '\n' implies k > 0 && o[k
            - 1] == '\r' by {
            if k >= h.len() {
                assert(o[k] == t[k - h.len()]);
                assert(o[k - 1] == t[k - h.len() - 1]);
            }
        }
    }
}

proof fn lemma_collapse_expand(t: Seq<char>)
    ensures
        collapse_crlf(expand_lf(t)) == t,
        expand_lf(t).len() > 0 ==> expand_lf(t)[0] != '\n',
    decreases t.len(),
{
    if t.len() > 0 {
        let rest = t.drop_first();
        lemma_collapse_expand(rest);
        let e = expand_lf(rest);
        if t[0] == '\n' {
            let w = seq!['\r', '\n'] + e;
            assert(expand_lf(t) == w);
            assert(w.skip(2) == e);
            assert(collapse_crlf(w) == seq!['\n'] + collapse_crlf(e));
        } else {
            let w = seq![t[0]] + e;
            assert(expand_lf(t) == w);
            assert(w.drop_first() == e);
            assert(!(w.len() >= 2 && w[0] == '\r' && w[1] == '\n')) by {
                if w.len() >= 2 {
                    assert(w[1] == e[0]);
                }
            }
            assert(collapse_crlf(w) == seq![t[0]] + collapse_crlf(e));
        }
        assert(seq![t[0]] + rest == t);
    }
}

/// The library's own text is recorded with every line break as CR LF and
/// nothing else changed: read back with CR LF taken as a line break, the
/// recorded text is the text that was written.
pub proof fn law_text_keeps_its_content(s: Seq<char>)
    ensures
        collapse_crlf(fixed_text(s)) == collapse_crlf(s),
{
    lemma_collapse_expand(collapse_crlf(s));
}

/// Text the library writes into a recording never holds a bare LF.
pub proof fn law_text_no_bare_lf(s: Seq<char>)
    ensures
        forall|k: int|
            0 <= k < fixed_text(s).len() && #[trigger] fixed_text(s)[k] == '\n' ==> k > 0
                && fixed_text(s)[k - 1] == '\r',
{
    lemma_expand_no_bare_lf(collapse_crlf(s));
}

// ---------------------------------------------------------------------------
// the recorded output stream over a run of writes
// ---------------------------------------------------------------------------

proof fn lemma_high_byte(x: u8)
    ensures
        (0x80u8 | x) != 10u8 && (0x80u8 | x) != 13u8,
        (0xC0u8 | x) != 10u8 && (0xC0u8 | x) != 13u8,
        (0xE0u8 | x) != 10u8 && (0xE0u8 | x) != 13u8,
        (0xF0u8 | x) != 10u8 && (0xF0u8 | x) != 13u8,
{
    assert((0x80u8 | x) != 10u8 && (0x80u8 | x) != 13u8) by (bit_vector);
    assert((0xC0u8 | x) != 10u8 && (0xC0u8 | x) != 13u8) by (bit_vector);
    assert((0xE0u8 | x) != 10u8 && (0xE0u8 | x) != 13u8) by (bit_vector);
    assert((0xF0u8 | x) != 10u8 && (0xF0u8 | x) != 13u8) by (bit_vector);
}

/// The UTF-8 encoding of a character holds the byte LF only when the
/// character is LF, and then is that one byte; likewise for CR.
proof fn lemma_scalar_lf_cr(c: char)
    ensures
        encode_scalar(c as u32).len() > 0,
        c == '\n' ==> encode_scalar(c as u32) == seq![LF()],
        c == '\r' ==> encode_scalar(c as u32) == seq![CR()],
        forall|k: int|
            0 <= k < encode_scalar(c as u32).len() && #[trigger] encode_scalar(c as u32)[k]
                == LF() ==> c == '\n',
{
    let v = c as u32;
    if has_width_1_encoding(v) {
        assert(v <= 0x7F ==> ((v & 0x7F) as u8) as u32 == v) by (bit_vector);
        assert(c == '\n' <==> v == 10);
        assert(c == '\r' <==> v == 13);
    } else if has_width_2_encoding(v) {
        lemma_high_byte(((v >> 6) & 0x1F) as u8);
        lemma_high_byte((v & 0x3F) as u8);
    } else if has_width_3_encoding(v) {
        lemma_high_byte(((v >> 12) & 0x0F) as u8);
        lemma_high_byte(((v >> 6) & 0x3F) as u8);
        lemma_high_byte((v & 0x3F) as u8);
    } else {
        lemma_high_byte(((v >> 18) & 0x7) as u8);
        lemma_high_byte(((v >> 12) & 0x3F) as u8);
        lemma_high_byte(((v >> 6) & 0x3F) as u8);
        lemma_high_byte((v & 0x3F) as u8);
    }
}

/// Every LF of the text `s` follows a CR (the first one may follow an
/// earlier CR, when `p` says there was one).
pub open spec fn no_bare_lf_text(s: Seq<char>, p: bool) -> bool {
    forall|k: int|
        0 <= k < s.len() && #[trigger] s[k] == '\n' ==> (k == 0 && p) || (k > 0 && s[k - 1]
            == '\r')
}

/// Two pieces of output joined: the second may lean on a CR that ends the
/// first (or, when the first is empty, on the CR before both).
proof fn lemma_no_bare_lf_join(o1: Seq<u8>, o2: Seq<u8>, p: bool, q: bool)
    requires
        no_bare_lf(o1, p),
        no_bare_lf(o2, q),
        q ==> (o1.len() > 0 && o1.last() == CR()) || (o1.len() == 0 && p),
    ensures
        no_bare_lf(o1 + o2, p),
{
    let o = o1 + o2;
    assert forall|k: int| 0 <= k < o.len() && #[trigger] o[k] == LF() implies (k == 0 && p) || (k
        > 0 && o[k - 1] == CR()) by {
        if k < o1.len() {
            assert(o[k] == o1[k]);
            if k > 0 {
                assert(o[k - 1] == o1[k - 1]);
            }
        } else {
            let j = k - o1.len();
            assert(o[k] == o2[j]);
            if j > 0 {
                assert(o[k - 1] == o2[j - 1]);
            } else if o1.len() > 0 {
                assert(o[k - 1] == o1.last());
            }
        }
    }
}

proof fn lemma_encode_no_bare_lf(s: Seq<char>, p: bool)
    requires
        no_bare_lf_text(s, p),
    ensures
        no_bare_lf(encode_utf8(s), p),
        s.len() > 0 && s.last() == '\r' ==> encode_utf8(s).len() > 0 && encode_utf8(s).last()
            == CR(),
    decreases s.len(),
{
    if s.len() > 0 {
        let c = s[0];
        let rest = s.drop_first();
        assert(no_bare_lf_text(rest, c == '\r')) by {
            assert forall|k: int| 0 <= k < rest.len() && #[trigger] rest[k] == '\n' implies (k
                == 0 && c == '\r') || (k > 0 && rest[k - 1] == '\r') by {
                assert(s[k + 1] == '\n');
            }
        }
        lemma_encode_no_bare_lf(rest, c == '\r');
        lemma_scalar_lf_cr(c);
        let e = encode_scalar(c as u32);
        let t = encode_utf8(rest);
        assert(encode_utf8(s) == e + t);
        assert(no_bare_lf(e, p)) by {
            assert forall|k: int| 0 <= k < e.len() && #[trigger] e[k] == LF() implies (k == 0 && p)
                || (k > 0 && e[k - 1] == CR()) by {
                assert(c == '\n');
                assert(s[0] == '\n');
            }
        }
        lemma_no_bare_lf_join(e, t, p, c == '\r');
        if rest.len() == 0 {
            assert(t.len() == 0);
            assert(e + t == e);
            assert(s.last() == c);
        } else {
            assert(rest.last() == s.last());
            if s.last() == '\r' {
                assert((e + t).last() == t.last());
            }
        }
    }
}

/// A write into a recording's output stream: bytes from the remote, or text
/// of the library's own.
pub enum OutputWrite {
    Bytes(Seq<u8>),
    Text(Seq<char>),
}

/// The bytes one write adds to the recorded output, from state `st`, and the
/// state after it. Text is recorded as its UTF-8 bytes; empty text is not
/// recorded.
pub open spec fn write_step(st: OutputState, w: OutputWrite) -> (Seq<u8>, OutputState) {
    match w {
        OutputWrite::Bytes(d) => (
            recorded_bytes(st, EventKind::Output, d),
            state_after_bytes(st, EventKind::Output, d),
        ),
        OutputWrite::Text(t) => if t.len() == 0 {
            (Seq::empty(), st)
        } else {
            (encode_utf8(fixed_text(t)), state_after_text(st, t))
        },
    }
}

/// The output recorded for a run of writes from state `st`, all of it
/// joined, and the state after them.
pub open spec fn run_writes(st: OutputState, ws: Seq<OutputWrite>) -> (Seq<u8>, OutputState)
    decreases ws.len(),
{
    if ws.len() == 0 {
        (Seq::empty(), st)
    } else {
        let (o, s1) = write_step(st, ws[0]);
        let (rest, s2) = run_writes(s1, ws.drop_first());
        (o + rest, s2)
    }
}

proof fn lemma_fixed_text_nonempty(t: Seq<char>)
    requires
        t.len() > 0,
    ensures
        fixed_text(t).len() > 0,
{
    assert(collapse_crlf(t).len() > 0);
}

proof fn lemma_run_writes(st: OutputState, ws: Seq<OutputWrite>)
    requires
        st.crlf,
    ensures
        no_bare_lf(run_writes(st, ws).0, st.pending_cr),
        run_writes(st, ws).1.crlf,
        run_writes(st, ws).1.pending_cr ==> (run_writes(st, ws).0.len() > 0 && run_writes(
            st,
            ws,
        ).0.last() == CR()) || (run_writes(st, ws).0.len() == 0 && st.pending_cr),
    decreases ws.len(),
{
    if ws.len() > 0 {
        let (o, s1) = write_step(st, ws[0]);
        match ws[0] {
            OutputWrite::Bytes(d) => {
                lemma_crlf_no_bare_lf(d, st.pending_cr);
                if d.len() == 0 {
                    assert(crlf_spec(d, st.pending_cr).len() == 0);
                } else {
                    assert(crlf_spec(d, st.pending_cr).len() > 0);
                }
            },
            OutputWrite::Text(t) => {
                if t.len() > 0 {
                    let f = fixed_text(t);
                    law_text_no_bare_lf(t);
                    assert(no_bare_lf_text(f, st.pending_cr));
                    lemma_encode_no_bare_lf(f, st.pending_cr);
                    lemma_fixed_text_nonempty(t);
                } else {
                    assert(no_bare_lf(o, st.pending_cr));
                }
            },
        }
        lemma_run_writes(s1, ws.drop_first());
        let (r, s2) = run_writes(s1, ws.drop_first());
        lemma_no_bare_lf_join(o, r, st.pending_cr, s1.pending_cr);
        if r.len() > 0 {
            assert((o + r).last() == r.last());
        } else {
            assert(o + r == o);
        }
    }
}

/// Across any run of writes into a recording with newline conversion on
/// (output bytes and the library's own text, in any order and any chunking),
/// every LF of the recorded output comes right after a CR; from a fresh
/// recording there is no exception at all.
pub proof fn law_recording_no_bare_lf(st: OutputState, ws: Seq<OutputWrite>)
    requires
        st.crlf,
    ensures
        no_bare_lf(run_writes(st, ws).0, st.pending_cr),
        !st.pending_cr ==> forall|k: int|
            0 <= k < run_writes(st, ws).0.len() && #[trigger] run_writes(st, ws).0[k] == LF()
                ==> k > 0 && run_writes(st, ws).0[k - 1] == CR(),
{
    lemma_run_writes(st, ws);
}

/// All the chunks of a run of output writes, joined.
pub open spec fn joined(ds: Seq<Seq<u8>>) -> Seq<u8>
    decreases ds.len(),
{
    if ds.len() == 0 {
        Seq::empty()
    } else {
        ds[0] + joined(ds.drop_first())
    }
}

/// The same chunks as output writes.
pub open spec fn byte_writes(ds: Seq<Seq<u8>>) -> Seq<OutputWrite> {
    ds.map_values(|d: Seq<u8>| OutputWrite::Bytes(d))
}

/// However output is split into chunks, what is recorded is the conversion
/// of all of it at once: with the CRs it inserted taken out, it is exactly
/// the output, all chunks joined; a CR ending one chunk and an LF starting the next are
/// recorded as CR LF. With newline conversion off it is the output itself.
pub proof fn law_recording_chunks(st: OutputState, ds: Seq<Seq<u8>>)
    ensures
        run_writes(st, byte_writes(ds)).0 == recorded_bytes(st, EventKind::Output, joined(ds)),
        run_writes(st, byte_writes(ds)).1 == state_after_bytes(st, EventKind::Output, joined(ds)),
        !st.crlf ==> run_writes(st, byte_writes(ds)).0 == joined(ds),
        st.crlf ==> unmarked(
            run_writes(st, byte_writes(ds)).0,
            inserted_marks(joined(ds), st.pending_cr),
        ) == joined(ds),
    decreases ds.len(),
{
    law_crlf_inserts_only_cr(joined(ds), st.pending_cr);
    if ds.len() > 0 {
        let d = ds[0];
        let rest = ds.drop_first();
        assert(byte_writes(ds)[0] == OutputWrite::Bytes(d));
        assert(byte_writes(ds).drop_first() =~= byte_writes(rest));
        let s1 = state_after_bytes(st, EventKind::Output, d);
        law_recording_chunks(s1, rest);
        law_crlf_chunking(st, d, joined(rest));
    } else {
        assert(joined(ds) == Seq::<u8>::empty());
        assert(crlf_spec(Seq::<u8>::empty(), st.pending_cr) == Seq::<u8>::empty());
    }
}

impl OutputState {
    /// A fresh recording: at a line start, no newline conversion.
    pub fn new() -> (r: Self)
        ensures
            r == initial_state(),
    {
        OutputState { crlf: false, pending_cr: false, at_line_start: true }
    }

    /// Turns LF to CR LF conversion of recorded output on or off. Streams
    /// with no PTY behind them need it; a PTY already sends CR LF.
    pub fn newline_fixup(self, on: bool) -> (r: Self)
        ensures
            r == (OutputState { crlf: on, ..self }),
    {
        OutputState { crlf: on, ..self }
    }

    /// The bytes to record for `data` written as `kind`, updating the state.
    /// Only output is converted, and only output moves the line position.
    pub fn record_bytes(&mut self, kind: EventKind, data: &[u8]) -> (r: Vec<u8>)
        ensures
            r@ == recorded_bytes(*old(self), kind, data@),
            *final(self) == state_after_bytes(*old(self), kind, data@),
    {
        let n = data.len();
        if kind != EventKind::Output {
            return vstd::slice::slice_to_vec(data);
        }
        if n > 0 {
            self.at_line_start = data[n - 1] == 10u8;
        }
        if !self.crlf {
            return vstd::slice::slice_to_vec(data);
        }
        let ghost p0 = old(self).pending_cr;
        let mut out: Vec<u8> = Vec::new();
        let mut i: usize = 0;
        assert(data@.skip(0) == data@);
        while i < n
            invariant
                i <= n,
                n == data@.len(),
                crlf_spec(data@, p0) == out@ + crlf_spec(data@.skip(i as int), self.pending_cr),
                i == 0 ==> self.pending_cr == p0,
                self.crlf == old(self).crlf,
                self.at_line_start == state_after_bytes(*old(self), kind, data@).at_line_start,
                i > 0 ==> self.pending_cr == (data@[i - 1] == CR()),
            decreases n - i,
        {
            let b = data[i];
            assert(data@.skip(i as int).drop_first() == data@.skip(i + 1));
            let ghost before = out@;
            let p = self.pending_cr;
            if b == 10u8 && !p {
                out.push(13u8);
            }
            out.push(b);
            self.pending_cr = b == 13u8;
            assert(out@ == before + (if b == LF() && !p {
                seq![CR(), b]
            } else {
                seq![b]
            }));
            i += 1;
        }
        assert(data@.skip(n as int).len() == 0);
        out
    }

    /// The text to record for text the library writes itself (an echoed
    /// command, a footer), with every newline as CR LF; `None` for empty text,
    /// which is not recorded and leaves the state alone.
    pub fn record_text(&mut self, data: &str) -> (r: Option<String>)
        ensures
            data@.len() == 0 ==> r is None && *final(self) == *old(self),
            data@.len() > 0 ==> r is Some && r->0@ == fixed_text(data@) && *final(self)
                == state_after_text(*old(self), data@),
    {
        let v = chars_of(data);
        if v.len() == 0 {
            return None;
        }
        // collapse CR LF to LF
        let mut c: Vec<char> = Vec::new();
        let mut i: usize = 0;
        assert(v@.skip(0) == v@);
        while i < v.len()
            invariant
                i <= v.len(),
                collapse_crlf(v@) == c@ + collapse_crlf(v@.skip(i as int)),
            decreases v.len() - i,
        {
            let ghost t = v@.skip(i as int);
            if i + 1 < v.len() && v[i] == '\r' && v[i + 1] == '\n' {
                assert(t.skip(2) == v@.skip(i + 2));
                c.push('\n');
                i += 2;
            } else {
                assert(t.drop_first() == v@.skip(i + 1));
                c.push(v[i]);
                i += 1;
            }
        }
        assert(v@.skip(i as int).len() == 0);
        // expand LF to CR LF
        let mut out = String::new();
        let mut j: usize = 0;
        assert(c@.skip(0) == c@);
        while j < c.len()
            invariant
                j <= c.len(),
                expand_lf(c@) == out@ + expand_lf(c@.skip(j as int)),
                j > 0 ==> out@.len() > 0 && out@.last() == (if c@[j - 1] == '\n' {
                    '\n'
                } else {
                    c@[j - 1]
                }),
            decreases c.len() - j,
        {
            assert(c@.skip(j as int).drop_first() == c@.skip(j + 1));
            if c[j] == '\n' {
                push_char(&mut out, '\r');
                push_char(&mut out, '\n');
            } else {
                push_char(&mut out, c[j]);
            }
            j += 1;
        }
        assert(c@.skip(j as int).len() == 0);
        assert(c.len() > 0) by {
            assert(collapse_crlf(v@).len() > 0);
        }
        let last = c[c.len() - 1];
        self.pending_cr = last == '\r';
        self.at_line_start = last == '\n';
        Some(out)
    }

    /// Whether the output so far stops mid-line, so that text of the
    /// library's own must first start a new line.
    pub fn needs_line_break(&self) -> (b: bool)
        ensures
            b == !self.at_line_start,
    {
        !self.at_line_start
    }
}

/// The data of a resize event: `{cols}x{rows}`.
pub fn resize_data(cols: u16, rows: u16) -> (r: String)
    ensures
        r@ == dec(cols as nat) + seq!['x'] + dec(rows as nat),
{
    let mut r = String::new();
    push_u64(&mut r, cols as u64);
    push_char(&mut r, 'x');
    push_u64(&mut r, rows as u64);
    r
}


// ---------------------------------------------------------------------------
// transcripts
// ---------------------------------------------------------------------------

/// Where the escape-sequence stripper stands in its input.
#[derive(Copy, Clone, Debug, PartialEq, Eq, Structural)]
pub enum AnsiMode {
    /// Ordinary text.
    Text,
    /// Just after an ESC.
    Escape,
    /// Inside a CSI sequence (`ESC [`), until a final byte in `@`..`~`.
    Csi,
    /// Inside an OSC sequence (`ESC ]`), until BEL or `ESC \`.
    Osc,
    /// Just after an ESC inside an OSC sequence; the next character ends it.
    OscEscape,
}

pub open spec fn ESC() -> char {
    '\u{1b}'
}

pub open spec fn BEL() -> char {
    '\u{07}'
}

/// One step of the stripper: the next mode, and the character kept, if any.
pub open spec fn ansi_step(mode: AnsiMode, c: char) -> (AnsiMode, Option<char>) {
    match mode {
        AnsiMode::Text => {
            if c == ESC() {
                (AnsiMode::Escape, None)
            } else if c == '\r' {
                (AnsiMode::Text, None)
            } else if c == '\n' || c == '\t' {
                (AnsiMode::Text, Some(c))
            } else if is_ctrl(c) {
                (AnsiMode::Text, None)
            } else {
                (AnsiMode::Text, Some(c))
            }
        },
        AnsiMode::Escape => {
            if c == '[' {
                (AnsiMode::Csi, None)
            } else if c == ']' {
                (AnsiMode::Osc, None)
            } else {
                (AnsiMode::Text, None)
            }
        },
        AnsiMode::Csi => {
            if 0x40 <= (c as u32) <= 0x7e {
                (AnsiMode::Text, None)
            } else {
                (AnsiMode::Csi, None)
            }
        },
        AnsiMode::Osc => {
            if c == BEL() {
                (AnsiMode::Text, None)
            } else if c == ESC() {
                (AnsiMode::OscEscape, None)
            } else {
                (AnsiMode::Osc, None)
            }
        },
        AnsiMode::OscEscape => (AnsiMode::Text, None),
    }
}

/// What the stripper keeps of `s`, starting in `mode`.
pub open spec fn strip_from(s: Seq<char>, mode: AnsiMode) -> Seq<char>
    decreases s.len(),
{
    if s.len() == 0 {
        Seq::empty()
    } else {
        let (next, kept) = ansi_step(mode, s[0]);
        let head = match kept {
            Some(c) => seq![c],
            None => Seq::empty(),
        };
        head + strip_from(s.drop_first(), next)
    }
}

/// `s` without ANSI escape sequences (CSI, OSC and two-character ESC
/// sequences), carriage returns and control characters other than LF and
/// tab.
pub open spec fn strip_ansi_spec(s: Seq<char>) -> Seq<char> {
    strip_from(s, AnsiMode::Text)
}

/// Text that the stripper leaves alone: no control characters but LF and tab.
pub open spec fn is_plain(s: Seq<char>) -> bool {
    forall|k: int| 0 <= k < s.len() ==> (#[trigger] is_ctrl(s[k]) ==> s[k] == '\n' || s[k] == '\t')
}

proof fn lemma_strip_from_plain(s: Seq<char>, mode: AnsiMode)
    ensures
        is_plain(strip_from(s, mode)),
    decreases s.len(),
{
    if s.len() > 0 {
        let (next, kept) = ansi_step(mode, s[0]);
        lemma_strip_from_plain(s.drop_first(), next);
        let head = match kept {
            Some(c) => seq![c],
            None => Seq::<char>::empty(),
        };
        let t = strip_from(s.drop_first(), next);
        let o = head + t;
        assert forall|k: int| 0 <= k < o.len() && #[trigger] is_ctrl(o[k]) implies o[k] == '\n'
            || o[k] == '\t' by {
            if k >= head.len() {
                assert(o[k] == t[k - head.len()]);
            }
        }
    }
}

/// A transcript holds no escape sequence and no control character but LF and
/// tab, so it reads the same in any viewer.
pub proof fn law_strip_ansi_output_is_plain(s: Seq<char>)
    ensures
        is_plain(strip_ansi_spec(s)),
{
    lemma_strip_from_plain(s, AnsiMode::Text);
}

/// Text with no control characters but LF and tab passes through untouched.
pub proof fn law_strip_ansi_keeps_plain_text(s: Seq<char>)
    requires
        is_plain(s),
    ensures
        strip_ansi_spec(s) == s,
    decreases s.len(),
{
    if s.len() > 0 {
        assert(is_ctrl(s[0]) ==> s[0] == '\n' || s[0] == '\t');
        assert(is_plain(s.drop_first())) by {
            assert forall|k: int| 0 <= k < s.drop_first().len() && #[trigger] is_ctrl(
                s.drop_first()[k],
            ) implies s.drop_first()[k] == '\n' || s.drop_first()[k] == '\t' by {
                assert(s.drop_first()[k] == s[k + 1]);
            }
        }
        law_strip_ansi_keeps_plain_text(s.drop_first());
        assert(s[0] != ESC() && s[0] != '\r');
        assert(seq![s[0]] + s.drop_first() == s);
    }
}

/// `ix` picks out `a` from `b`: one index into `b` for each character of
/// `a`, in increasing order, at which `b` holds that character.
pub open spec fn embeds(ix: Seq<int>, a: Seq<char>, b: Seq<char>) -> bool {
    &&& ix.len() == a.len()
    &&& forall|i: int| 0 <= i < ix.len() ==> 0 <= #[trigger] ix[i] < b.len() && b[ix[i]] == a[i]
    &&& forall|i: int, j: int| 0 <= i < j < ix.len() ==> #[trigger] ix[i] < #[trigger] ix[j]
}

/// `a` is `b` with some characters left out, the rest in their order.
pub open spec fn is_subsequence(a: Seq<char>, b: Seq<char>) -> bool {
    exists|ix: Seq<int>| #[trigger] embeds(ix, a, b)
}

proof fn lemma_strip_from_embeds(s: Seq<char>, mode: AnsiMode) -> (ix: Seq<int>)
    ensures
        embeds(ix, strip_from(s, mode), s),
    decreases s.len(),
{
    if s.len() == 0 {
        Seq::empty()
    } else {
        let (next, kept) = ansi_step(mode, s[0]);
        let rest = s.drop_first();
        let t = lemma_strip_from_embeds(rest, next);
        let tail = strip_from(rest, next);
        let shifted = t.map_values(|x: int| x + 1);
        assert forall|i: int| 0 <= i < shifted.len() implies 0 <= #[trigger] shifted[i] < s.len()
            && s[shifted[i]] == tail[i] by {
            assert(rest[t[i]] == s[t[i] + 1]);
        }
        match kept {
            Some(c) => {
                let ix = seq![0int] + shifted;
                let o = seq![c] + tail;
                assert(strip_from(s, mode) == o);
                assert forall|i: int| 0 <= i < ix.len() implies 0 <= #[trigger] ix[i] < s.len()
                    && s[ix[i]] == o[i] by {
                    if i > 0 {
                        assert(ix[i] == shifted[i - 1]);
                        assert(o[i] == tail[i - 1]);
                    }
                }
                assert forall|i: int, j: int| 0 <= i < j < ix.len() implies #[trigger] ix[i]
                    < #[trigger] ix[j] by {
                    assert(ix[j] == shifted[j - 1]);
                    if i > 0 {
                        assert(ix[i] == shifted[i - 1]);
                    }
                }
                ix
            },
            None => {
                assert(strip_from(s, mode) == Seq::<char>::empty() + tail);
                assert(Seq::<char>::empty() + tail == tail);
                shifted
            },
        }
    }
}

/// Stripping only leaves characters out: what remains is in the input, in
/// the input's order.
pub proof fn law_strip_ansi_is_subsequence(s: Seq<char>)
    ensures
        is_subsequence(strip_ansi_spec(s), s),
{
    let ix = lemma_strip_from_embeds(s, AnsiMode::Text);
    assert(embeds(ix, strip_ansi_spec(s), s));
}

/// The stripper's mode after reading `s` from `mode`.
pub open spec fn mode_after(s: Seq<char>, mode: AnsiMode) -> AnsiMode
    decreases s.len(),
{
    if s.len() == 0 {
        mode
    } else {
        mode_after(s.drop_first(), ansi_step(mode, s[0]).0)
    }
}

proof fn lemma_strip_append(a: Seq<char>, b: Seq<char>, mode: AnsiMode)
    ensures
        strip_from(a + b, mode) == strip_from(a, mode) + strip_from(b, mode_after(a, mode)),
    decreases a.len(),
{
    if a.len() == 0 {
        assert(a + b == b);
        assert(Seq::<char>::empty() + strip_from(b, mode) == strip_from(b, mode));
    } else {
        let (next, kept) = ansi_step(mode, a[0]);
        assert((a + b)[0] == a[0]);
        assert((a + b).drop_first() == a.drop_first() + b);
        lemma_strip_append(a.drop_first(), b, next);
        let head = match kept {
            Some(c) => seq![c],
            None => Seq::<char>::empty(),
        };
        assert(head + (strip_from(a.drop_first(), next) + strip_from(
            b,
            mode_after(a.drop_first(), next),
        )) == (head + strip_from(a.drop_first(), next)) + strip_from(
            b,
            mode_after(a.drop_first(), next),
        ));
    }
}

proof fn lemma_csi_params(p: Seq<char>, rest: Seq<char>)
    requires
        forall|k: int| 0 <= k < p.len() ==> 0x20 <= #[trigger] (p[k] as u32) <= 0x3f,
    ensures
        strip_from(p + rest, AnsiMode::Csi) == strip_from(rest, AnsiMode::Csi),
    decreases p.len(),
{
    if p.len() == 0 {
        assert(p + rest == rest);
    } else {
        assert((p + rest)[0] == p[0]);
        assert(0x20 <= (p[0] as u32) <= 0x3f);
        assert((p + rest).drop_first() == p.drop_first() + rest);
        assert forall|k: int| 0 <= k < p.drop_first().len() implies 0x20 <= #[trigger] (
        p.drop_first()[k] as u32) <= 0x3f by {
            assert(p.drop_first()[k] == p[k + 1]);
        }
        lemma_csi_params(p.drop_first(), rest);
    }
}

/// A complete CSI sequence is removed whole: ESC, `[`, any parameter and
/// intermediate characters (`0x20..=0x3F`: digits, `;`, `?`, `>`, `=`, `<`,
/// space, ...) and a final character (`0x40..=0x7E`) leave nothing in the
/// transcript; text before and after is stripped as if the sequence were
/// not there. So `ESC[?2004h`, `ESC[?25l`, `ESC[1;31m` and the like vanish.
pub proof fn law_strip_ansi_drops_csi(t: Seq<char>, p: Seq<char>, f: char, u: Seq<char>)
    requires
        mode_after(t, AnsiMode::Text) == AnsiMode::Text,
        forall|k: int| 0 <= k < p.len() ==> 0x20 <= #[trigger] (p[k] as u32) <= 0x3f,
        0x40 <= (f as u32) <= 0x7e,
    ensures
        strip_ansi_spec(t + seq!['\u{1b}', '['] + p + seq![f] + u) == strip_ansi_spec(t)
            + strip_ansi_spec(u),
{
    let x = seq!['\u{1b}', '['] + p + seq![f] + u;
    assert(t + seq!['\u{1b}', '['] + p + seq![f] + u == t + x);
    lemma_strip_append(t, x, AnsiMode::Text);
    assert(x[0] == '\u{1b}');
    let x1 = x.drop_first();
    assert(x1 == seq!['['] + p + seq![f] + u);
    assert(x1[0] == '[');
    let x2 = x1.drop_first();
    assert(x2 == p + (seq![f] + u));
    lemma_csi_params(p, seq![f] + u);
    assert((seq![f] + u)[0] == f);
    assert((seq![f] + u).drop_first() == u);
    assert(strip_from(seq![f] + u, AnsiMode::Csi) == strip_from(u, AnsiMode::Text));
    assert(strip_from(x1, AnsiMode::Escape) == strip_from(x2, AnsiMode::Csi));
    assert(strip_from(x, AnsiMode::Text) == strip_from(x1, AnsiMode::Escape));
}

proof fn lemma_osc_body(b: Seq<char>, rest: Seq<char>)
    requires
        forall|k: int| 0 <= k < b.len() ==> #[trigger] b[k] != '\u{07}' && b[k] != '\u{1b}',
    ensures
        strip_from(b + rest, AnsiMode::Osc) == strip_from(rest, AnsiMode::Osc),
    decreases b.len(),
{
    if b.len() == 0 {
        assert(b + rest == rest);
    } else {
        assert((b + rest)[0] == b[0]);
        assert(b[0] != '\u{07}' && b[0] != '\u{1b}');
        assert((b + rest).drop_first() == b.drop_first() + rest);
        assert forall|k: int| 0 <= k < b.drop_first().len() implies #[trigger] b.drop_first()[k]
            != '\u{07}' && b.drop_first()[k] != '\u{1b}' by {
            assert(b.drop_first()[k] == b[k + 1]);
        }
        lemma_osc_body(b.drop_first(), rest);
    }
}

/// The other escape sequences go whole too, and nothing around them is
/// disturbed: an OSC sequence (ESC `]`, a body, then BEL or ESC and one more
/// character), a two-character escape (ESC and any character but `[` and
/// `]`), and a lone CR.
pub proof fn law_strip_ansi_drops_other_sequences(
    t: Seq<char>,
    b: Seq<char>,
    x: char,
    c: char,
    u: Seq<char>,
)
    requires
        mode_after(t, AnsiMode::Text) == AnsiMode::Text,
        forall|k: int| 0 <= k < b.len() ==> #[trigger] b[k] != '\u{07}' && b[k] != '\u{1b}',
        c != '[' && c != ']',
    ensures
        strip_ansi_spec(t + seq!['\u{1b}', ']'] + b + seq!['\u{07}'] + u) == strip_ansi_spec(t)
            + strip_ansi_spec(u),
        strip_ansi_spec(t + seq!['\u{1b}', ']'] + b + seq!['\u{1b}', x] + u) == strip_ansi_spec(
            t,
        ) + strip_ansi_spec(u),
        strip_ansi_spec(t + seq!['\u{1b}', c] + u) == strip_ansi_spec(t) + strip_ansi_spec(u),
        strip_ansi_spec(t + seq!['\r'] + u) == strip_ansi_spec(t) + strip_ansi_spec(u),
{
    let y1 = seq!['\u{1b}', ']'] + b + seq!['\u{07}'] + u;
    assert(t + seq!['\u{1b}', ']'] + b + seq!['\u{07}'] + u == t + y1);
    lemma_strip_append(t, y1, AnsiMode::Text);
    assert(y1.drop_first() == seq![']'] + b + seq!['\u{07}'] + u);
    assert(y1.drop_first().drop_first() == b + (seq!['\u{07}'] + u));
    lemma_osc_body(b, seq!['\u{07}'] + u);
    assert((seq!['\u{07}'] + u).drop_first() == u);
    assert((seq!['\u{07}'] + u)[0] == '\u{07}');
    assert(strip_from(seq!['\u{07}'] + u, AnsiMode::Osc) == strip_from(u, AnsiMode::Text));
    assert(y1[0] == '\u{1b}' && y1.drop_first()[0] == ']');
    assert(strip_from(y1.drop_first(), AnsiMode::Escape) == strip_from(
        y1.drop_first().drop_first(),
        AnsiMode::Osc,
    ));
    assert(strip_from(y1, AnsiMode::Text) == strip_from(y1.drop_first(), AnsiMode::Escape));
    assert(strip_from(y1, AnsiMode::Text) == strip_from(u, AnsiMode::Text));

    let y2 = seq!['\u{1b}', ']'] + b + seq!['\u{1b}', x] + u;
    assert(t + seq!['\u{1b}', ']'] + b + seq!['\u{1b}', x] + u == t + y2);
    lemma_strip_append(t, y2, AnsiMode::Text);
    assert(y2.drop_first() == seq![']'] + b + seq!['\u{1b}', x] + u);
    assert(y2.drop_first().drop_first() == b + (seq!['\u{1b}', x] + u));
    lemma_osc_body(b, seq!['\u{1b}', x] + u);
    assert((seq!['\u{1b}', x] + u).drop_first() == seq![x] + u);
    assert((seq![x] + u).drop_first() == u);
    assert(strip_from(seq![x] + u, AnsiMode::OscEscape) == strip_from(u, AnsiMode::Text));
    assert((seq!['\u{1b}', x] + u)[0] == '\u{1b}');
    assert(strip_from(seq!['\u{1b}', x] + u, AnsiMode::Osc) == strip_from(
        seq![x] + u,
        AnsiMode::OscEscape,
    ));
    assert(y2[0] == '\u{1b}' && y2.drop_first()[0] == ']');
    assert(strip_from(y2.drop_first(), AnsiMode::Escape) == strip_from(
        y2.drop_first().drop_first(),
        AnsiMode::Osc,
    ));
    assert(strip_from(y2, AnsiMode::Text) == strip_from(y2.drop_first(), AnsiMode::Escape));
    assert(strip_from(y2, AnsiMode::Text) == strip_from(u, AnsiMode::Text));

    let y3 = seq!['\u{1b}', c] + u;
    assert(t + seq!['\u{1b}', c] + u == t + y3);
    lemma_strip_append(t, y3, AnsiMode::Text);
    assert(y3.drop_first() == seq![c] + u);
    assert((seq![c] + u).drop_first() == u);
    assert((seq![c] + u)[0] == c);
    assert(strip_from(seq![c] + u, AnsiMode::Escape) == strip_from(u, AnsiMode::Text));
    assert(y3[0] == '\u{1b}');
    assert(strip_from(y3, AnsiMode::Text) == strip_from(y3.drop_first(), AnsiMode::Escape));
    assert(strip_from(y3, AnsiMode::Text) == strip_from(u, AnsiMode::Text));

    let y4 = seq!['\r'] + u;
    assert(t + seq!['\r'] + u == t + y4);
    lemma_strip_append(t, y4, AnsiMode::Text);
    assert(y4.drop_first() == u);
    assert(strip_from(y4, AnsiMode::Text) == Seq::<char>::empty() + strip_from(u, AnsiMode::Text));
    assert(Seq::<char>::empty() + strip_from(u, AnsiMode::Text) == strip_from(u, AnsiMode::Text));
}

/// Text with no ESC leaves the stripper outside any escape sequence.
pub proof fn lemma_mode_after_no_esc(t: Seq<char>)
    requires
        forall|k: int| 0 <= k < t.len() ==> #[trigger] t[k] != '\u{1b}',
    ensures
        mode_after(t, AnsiMode::Text) == AnsiMode::Text,
    decreases t.len(),
{
    if t.len() > 0 {
        assert(t[0] != '\u{1b}');
        assert forall|k: int| 0 <= k < t.drop_first().len() implies #[trigger] t.drop_first()[k]
            != '\u{1b}' by {
            assert(t.drop_first()[k] == t[k + 1]);
        }
        lemma_mode_after_no_esc(t.drop_first());
    }
}

/// One step of the stripper.
fn step_ansi(mode: AnsiMode, c: char) -> (r: (AnsiMode, Option<char>))
    ensures
        r == ansi_step(mode, c),
{
    let u = c as u32;
    match mode {
        AnsiMode::Text => {
            if u == 0x1b {
                (AnsiMode::Escape, None)
            } else if u == 0x0d {
                (AnsiMode::Text, None)
            } else if u == 0x0a || u == 0x09 {
                (AnsiMode::Text, Some(c))
            } else if is_control(c) {
                (AnsiMode::Text, None)
            } else {
                (AnsiMode::Text, Some(c))
            }
        },
        AnsiMode::Escape => {
            if u == 0x5b {
                (AnsiMode::Csi, None)
            } else if u == 0x5d {
                (AnsiMode::Osc, None)
            } else {
                (AnsiMode::Text, None)
            }
        },
        AnsiMode::Csi => {
            if 0x40 <= u && u <= 0x7e {
                (AnsiMode::Text, None)
            } else {
                (AnsiMode::Csi, None)
            }
        },
        AnsiMode::Osc => {
            if u == 0x07 {
                (AnsiMode::Text, None)
            } else if u == 0x1b {
                (AnsiMode::OscEscape, None)
            } else {
                (AnsiMode::Osc, None)
            }
        },
        AnsiMode::OscEscape => (AnsiMode::Text, None),
    }
}

/// Removes ANSI escape sequences and stray control characters, for a
/// readable transcript: CSI and OSC sequences and other two-character ESC
/// sequences go, CR goes, LF and tab stay, other control characters go.
pub fn strip_ansi(s: &str) -> (r: String)
    ensures
        r@ == strip_ansi_spec(s@),
{
    let v = chars_of(s);
    let mut out = String::new();
    let mut mode = AnsiMode::Text;
    let mut i: usize = 0;
    assert(v@.skip(0) == v@);
    while i < v.len()
        invariant
            i <= v.len(),
            v@ == s@,
            strip_ansi_spec(s@) == out@ + strip_from(v@.skip(i as int), mode),
        decreases v.len() - i,
    {
        let c = v[i];
        assert(v@.skip(i as int).drop_first() == v@.skip(i + 1));
        assert(v@.skip(i as int)[0] == c);
        let ghost before = out@;
        let (next, kept) = step_ansi(mode, c);
        if let Some(k) = kept {
            push_char(&mut out, k);
        }
        mode = next;
        i += 1;
    }
    assert(v@.skip(i as int).len() == 0);
    out
}

/// One recorded event, as the transcript needs it: the elapsed time already
/// rendered in seconds with one decimal, the event code and its data.
#[derive(Clone, Debug)]
pub struct Event {
    pub time: String,
    pub kind: String,
    pub data: String,
}

/// What one event contributes to the raw transcript: output as it is, a
/// marker as a `--- [time s] text ---` line of its own, anything else
/// nothing.
pub open spec fn transcript_piece(e: Event) -> Seq<char> {
    if e.kind@ == seq!['o'] {
        e.data@
    } else if e.kind@ == seq!['m'] {
        seq!['\n', '-', '-', '-', ' ', '['] + e.time@ + seq!['s', ']', ' '] + e.data@ + seq![
            ' ',
            '-',
            '-',
            '-',
            '\n',
        ]
    } else {
        Seq::empty()
    }
}

/// The raw transcript of a run of events, before stripping.
pub open spec fn raw_transcript(events: Seq<Event>) -> Seq<char>
    decreases events.len(),
{
    if events.len() == 0 {
        Seq::empty()
    } else {
        raw_transcript(events.drop_last()) + transcript_piece(events.last())
    }
}

/// Whether `s` is exactly the one character `c`.
fn is_single(s: &String, c: char) -> (b: bool)
    ensures
        b == (s@ == seq![c]),
{
    let t = s.as_str();
    let b = t.unicode_len() == 1 && t.get_char(0) == c;
    assert(b ==> s@ =~= seq![c]);
    b
}

/// Renders a recording's output stream as plain text: output events as they
/// are, markers on lines of their own, everything else left out; then ANSI
/// sequences and stray control characters stripped.
pub fn render_plain_text(events: &Vec<Event>) -> (r: String)
    ensures
        r@ == strip_ansi_spec(raw_transcript(events@)),
{
    let mut raw = String::new();
    let mut i: usize = 0;
    while i < events.len()
        invariant
            i <= events.len(),
            raw@ == raw_transcript(events@.take(i as int)),
        decreases events.len() - i,
    {
        let e = &events[i];
        assert(events@.take(i + 1).drop_last() == events@.take(i as int));
        assert(events@.take(i + 1).last() == *e);
        if is_single(&e.kind, 'o') {
            push_str(&mut raw, e.data.as_str());
        } else if is_single(&e.kind, 'm') {
            let ghost before = raw@;
            push_str(&mut raw, "\n--- [");
            push_str(&mut raw, e.time.as_str());
            push_str(&mut raw, "s] ");
            push_str(&mut raw, e.data.as_str());
            push_str(&mut raw, " ---\n");
            proof {
                reveal_strlit("\n--- [");
                reveal_strlit("s] ");
                reveal_strlit(" ---\n");
                assert(raw@ == before + transcript_piece(*e));
            }
        }
        i += 1;
    }
    assert(events@.take(events.len() as int) == events@);
    strip_ansi(raw.as_str())
}

} // verus!
