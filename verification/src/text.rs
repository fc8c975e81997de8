//! Character classes and small string builders shared by the rest of the
//! library: Unicode whitespace and control classes as `char` defines them,
//! trimming, collapsing a command onto one line, decimal rendering and
//! parsing, and column padding.

use vstd::prelude::*;
use vstd::string::*;
use vstd::utf8::{decode_utf8, encode_utf8, encode_utf8_decode_utf8, is_char_boundary};

verus! {

/// Appends one character to a string.
///
/// Trusted: `String::push` appends the character to the end of the string.
#[verifier::external_body]
pub(crate) fn push_char(s: &mut String, c: char)
    ensures
        final(s)@ == old(s)@.push(c),
{
    s.push(c);
}

/// Appends a string slice to a string.
pub(crate) fn push_str(s: &mut String, t: &str)
    ensures
        final(s)@ == old(s)@ + t@,
{
    s.append(t);
}

/// The characters of a string, in order.
pub fn chars_of(s: &str) -> (v: Vec<char>)
    ensures
        v@ == s@,
{
    let mut v: Vec<char> = Vec::new();
    for c in it: s.chars()
        invariant
            v@ == it.seq().take(it.index() as int),
    {
        v.push(c);
    }
    v
}

/// `char::is_whitespace`: the Unicode `White_Space` property.
pub open spec fn is_ws(c: char) -> bool {
    let u = c as u32;
    ||| 0x09 <= u <= 0x0d
    ||| u == 0x20
    ||| u == 0x85
    ||| u == 0xa0
    ||| u == 0x1680
    ||| 0x2000 <= u <= 0x200a
    ||| u == 0x2028
    ||| u == 0x2029
    ||| u == 0x202f
    ||| u == 0x205f
    ||| u == 0x3000
}

/// `char::is_control`: the general category `Cc`.
pub open spec fn is_ctrl(c: char) -> bool {
    let u = c as u32;
    u <= 0x1f || (0x7f <= u <= 0x9f)
}

/// `char::is_ascii_alphanumeric`.
pub open spec fn is_ascii_alnum(c: char) -> bool {
    let u = c as u32;
    (0x30 <= u <= 0x39) || (0x41 <= u <= 0x5a) || (0x61 <= u <= 0x7a)
}

/// Whether `c` is whitespace, as `char::is_whitespace` decides.
pub fn is_whitespace(c: char) -> (b: bool)
    ensures
        b == is_ws(c),
{
    let u = c as u32;
    (0x09 <= u && u <= 0x0d) || u == 0x20 || u == 0x85 || u == 0xa0 || u == 0x1680 || (0x2000
        <= u && u <= 0x200a) || u == 0x2028 || u == 0x2029 || u == 0x202f || u == 0x205f || u
        == 0x3000
}

/// Whether `c` is a control character, as `char::is_control` decides.
pub fn is_control(c: char) -> (b: bool)
    ensures
        b == is_ctrl(c),
{
    let u = c as u32;
    u <= 0x1f || (0x7f <= u && u <= 0x9f)
}

/// Whether `c` is an ASCII letter or digit.
pub fn is_ascii_alphanumeric(c: char) -> (b: bool)
    ensures
        b == is_ascii_alnum(c),
{
    let u = c as u32;
    (0x30 <= u && u <= 0x39) || (0x41 <= u && u <= 0x5a) || (0x61 <= u && u <= 0x7a)
}

/// Whether two strings hold the same text.
pub fn str_eq(a: &str, b: &str) -> (r: bool)
    ensures
        r == (a@ == b@),
{
    let v = chars_of(a);
    let w = chars_of(b);
    if v.len() != w.len() {
        return false;
    }
    let mut i: usize = 0;
    while i < v.len()
        invariant
            i <= v@.len(),
            v@.len() == w@.len(),
            v@ == a@,
            w@ == b@,
            forall|k: int| 0 <= k < i ==> v@[k] == w@[k],
        decreases v.len() - i,
    {
        if v[i] != w[i] {
            assert(v@[i as int] != w@[i as int]);
            return false;
        }
        i += 1;
    }
    assert(v@ =~= w@);
    true
}

// ---------------------------------------------------------------------------
// trimming
// ---------------------------------------------------------------------------

/// `s` without its leading whitespace.
pub open spec fn trim_start_spec(s: Seq<char>) -> Seq<char>
    decreases s.len(),
{
    if s.len() > 0 && is_ws(s[0]) {
        trim_start_spec(s.drop_first())
    } else {
        s
    }
}

/// `s` without its trailing whitespace.
pub open spec fn trim_end_spec(s: Seq<char>) -> Seq<char>
    decreases s.len(),
{
    if s.len() > 0 && is_ws(s.last()) {
        trim_end_spec(s.drop_last())
    } else {
        s
    }
}

/// `str::trim`: `s` without leading and trailing whitespace.
pub open spec fn trim_spec(s: Seq<char>) -> Seq<char> {
    trim_end_spec(trim_start_spec(s))
}

proof fn lemma_trim_start_skip(s: Seq<char>, i: int)
    requires
        0 <= i <= s.len(),
        forall|k: int| 0 <= k < i ==> is_ws(#[trigger] s[k]),
    ensures
        trim_start_spec(s) == trim_start_spec(s.skip(i)),
    decreases i,
{
    if i > 0 {
        assert(s.skip(1) == s.drop_first());
        lemma_trim_start_skip(s.drop_first(), i - 1);
        assert(s.drop_first().skip(i - 1) == s.skip(i));
    } else {
        assert(s.skip(0) == s);
    }
}

proof fn lemma_trim_end_take(s: Seq<char>, j: int)
    requires
        0 <= j <= s.len(),
        forall|k: int| j <= k < s.len() ==> is_ws(#[trigger] s[k]),
    ensures
        trim_end_spec(s) == trim_end_spec(s.take(j)),
    decreases s.len() - j,
{
    if j < s.len() {
        lemma_trim_end_take(s.drop_last(), j);
        assert(s.drop_last().take(j) == s.take(j));
    } else {
        assert(s.take(j) == s);
    }
}

/// A copy of `s` without leading and trailing whitespace.
pub fn trim(s: &str) -> (r: String)
    ensures
        r@ == trim_spec(s@),
{
    let v = chars_of(s);
    let n = v.len();
    let mut i: usize = 0;
    while i < n && is_whitespace(v[i])
        invariant
            i <= n,
            n == v@.len(),
            forall|k: int| 0 <= k < i ==> is_ws(#[trigger] v@[k]),
        decreases n - i,
    {
        i += 1;
    }
    proof {
        lemma_trim_start_skip(v@, i as int);
    }
    let ghost t = v@.skip(i as int);
    assert(i == n || !is_ws(t[0]));
    let mut j: usize = n;
    while j > i && is_whitespace(v[j - 1])
        invariant
            i <= j <= n,
            n == v@.len(),
            forall|k: int| j <= k < n ==> is_ws(#[trigger] v@[k]),
        decreases j,
    {
        j -= 1;
    }
    proof {
        lemma_trim_end_take(t, j - i);
        assert(t.take(j - i) == v@.subrange(i as int, j as int));
        assert(trim_start_spec(t) == t);
        let u = v@.subrange(i as int, j as int);
        assert(u.len() == 0 || !is_ws(u.last()));
    }
    let mut r = String::new();
    let mut k: usize = i;
    while k < j
        invariant
            i <= k <= j <= n,
            n == v@.len(),
            r@ == v@.subrange(i as int, k as int),
        decreases j - k,
    {
        push_char(&mut r, v[k]);
        assert(v@.subrange(i as int, k + 1) == v@.subrange(i as int, k as int).push(v@[k as int]));
        k += 1;
    }
    r
}


// ---------------------------------------------------------------------------
// one-line summaries
// ---------------------------------------------------------------------------

/// Whether `c` separates words in a one-line summary.
pub open spec fn is_gap_char(c: char) -> bool {
    is_ws(c) || is_ctrl(c)
}

/// The collapsing scan of `one_line`: `flat` is the text so far, `gap` says a
/// separator has been seen since the last word character of a non-empty
/// `flat`.
pub open spec fn flatten_from(s: Seq<char>, flat: Seq<char>, gap: bool) -> Seq<char>
    decreases s.len(),
{
    if s.len() == 0 {
        flat
    } else if is_gap_char(s[0]) {
        flatten_from(s.drop_first(), flat, flat.len() > 0)
    } else if gap {
        flatten_from(s.drop_first(), flat.push(' ').push(s[0]), false)
    } else {
        flatten_from(s.drop_first(), flat.push(s[0]), false)
    }
}

/// `s` with every run of whitespace and control characters turned into one
/// space, and none at either end.
pub open spec fn flatten(s: Seq<char>) -> Seq<char> {
    flatten_from(s, Seq::empty(), false)
}

/// The cell text `one_line` produces for `command` within `max` characters.
pub open spec fn one_line_spec(command: Seq<char>, max: nat) -> Seq<char> {
    let flat = flatten(command);
    if flat.len() <= max {
        flat
    } else {
        flat.take(if max >= 1 { max - 1 } else { 0 }).push('\u{2026}')
    }
}

/// Text free of separators other than single spaces.
pub open spec fn is_flat(s: Seq<char>) -> bool {
    forall|k: int| 0 <= k < s.len() ==> (#[trigger] is_gap_char(s[k]) ==> s[k] == ' ')
}

proof fn lemma_flatten_from_flat(s: Seq<char>, flat: Seq<char>, gap: bool)
    requires
        is_flat(flat),
    ensures
        is_flat(flatten_from(s, flat, gap)),
    decreases s.len(),
{
    if s.len() > 0 {
        let c = s[0];
        if is_gap_char(c) {
            lemma_flatten_from_flat(s.drop_first(), flat, flat.len() > 0);
        } else if gap {
            let f2 = flat.push(' ').push(c);
            assert(is_flat(f2)) by {
                assert forall|k: int| 0 <= k < f2.len() && #[trigger] is_gap_char(f2[k]) implies f2[k]
                    == ' ' by {
                    if k < flat.len() {
                        assert(f2[k] == flat[k]);
                    }
                }
            }
            lemma_flatten_from_flat(s.drop_first(), f2, false);
        } else {
            let f2 = flat.push(c);
            assert(is_flat(f2)) by {
                assert forall|k: int| 0 <= k < f2.len() && #[trigger] is_gap_char(f2[k]) implies f2[k]
                    == ' ' by {
                    if k < flat.len() {
                        assert(f2[k] == flat[k]);
                    }
                }
            }
            lemma_flatten_from_flat(s.drop_first(), f2, false);
        }
    }
}

/// A one-line summary never breaks a line: every whitespace or control
/// character in it is a plain space, and it is at most `max` characters long
/// (one, an ellipsis, when `max` is zero and the command is not blank).
pub proof fn law_one_line_is_one_line(command: Seq<char>, max: nat)
    ensures
        is_flat(one_line_spec(command, max)),
        one_line_spec(command, max).len() <= if max >= 1 { max } else { 1 },
{
    lemma_flatten_from_flat(command, Seq::empty(), false);
    let flat = flatten(command);
    if flat.len() > max {
        let r = one_line_spec(command, max);
        let h = flat.take(if max >= 1 { max - 1 } else { 0 });
        assert forall|k: int| 0 <= k < r.len() && #[trigger] is_gap_char(r[k]) implies r[k]
            == ' ' by {
            if k < h.len() {
                assert(r[k] == flat[k]);
            }
        }
    }
}

/// `s` without its whitespace and control characters.
pub open spec fn drop_gaps(s: Seq<char>) -> Seq<char>
    decreases s.len(),
{
    if s.len() == 0 {
        s
    } else if is_ws(s[0]) || is_ctrl(s[0]) {
        drop_gaps(s.drop_first())
    } else {
        seq![s[0]] + drop_gaps(s.drop_first())
    }
}

/// `s` without its spaces.
pub open spec fn drop_spaces(s: Seq<char>) -> Seq<char>
    decreases s.len(),
{
    if s.len() == 0 {
        s
    } else if s[0] == ' ' {
        drop_spaces(s.drop_first())
    } else {
        seq![s[0]] + drop_spaces(s.drop_first())
    }
}

proof fn lemma_drop_spaces_append(a: Seq<char>, b: Seq<char>)
    ensures
        drop_spaces(a + b) == drop_spaces(a) + drop_spaces(b),
    decreases a.len(),
{
    if a.len() == 0 {
        assert(a + b == b);
    } else {
        assert((a + b)[0] == a[0]);
        assert((a + b).drop_first() == a.drop_first() + b);
        lemma_drop_spaces_append(a.drop_first(), b);
    }
}

proof fn lemma_flatten_keeps_words(s: Seq<char>, flat: Seq<char>, gap: bool)
    ensures
        drop_spaces(flatten_from(s, flat, gap)) == drop_spaces(flat) + drop_gaps(s),
    decreases s.len(),
{
    if s.len() == 0 {
        assert(drop_spaces(flat) + Seq::<char>::empty() == drop_spaces(flat));
    } else {
        let c = s[0];
        let rest = s.drop_first();
        if is_gap_char(c) {
            lemma_flatten_keeps_words(rest, flat, flat.len() > 0);
        } else {
            assert(c != ' ');
            let f2 = if gap {
                flat.push(' ').push(c)
            } else {
                flat.push(c)
            };
            lemma_flatten_keeps_words(rest, f2, false);
            if gap {
                assert(f2 == flat + seq![' ', c]);
                lemma_drop_spaces_append(flat, seq![' ', c]);
                assert(seq![' ', c].drop_first() == seq![c]);
                assert(seq![c].drop_first() == Seq::<char>::empty());
                assert(seq![' ', c][0] == ' ' && seq![c][0] == c);
                assert(drop_spaces(Seq::<char>::empty()) == Seq::<char>::empty());
                assert(seq![c] + Seq::<char>::empty() == seq![c]);
                assert(drop_spaces(seq![c]) == seq![c]);
                assert(drop_spaces(seq![' ', c]) == seq![c]);
            } else {
                assert(f2 == flat + seq![c]);
                lemma_drop_spaces_append(flat, seq![c]);
                assert(seq![c].drop_first() == Seq::<char>::empty());
                assert(seq![c][0] == c);
                assert(drop_spaces(Seq::<char>::empty()) == Seq::<char>::empty());
                assert(seq![c] + Seq::<char>::empty() == seq![c]);
                assert(drop_spaces(seq![c]) == seq![c]);
            }
            assert(drop_spaces(flat) + seq![c] + drop_gaps(rest) == drop_spaces(flat) + (seq![c]
                + drop_gaps(rest)));
        }
    }
}

/// A one-line summary keeps every word of the command, in order: with its
/// spaces taken out it is the command with its whitespace and control
/// characters taken out. When the summary fits in `max` characters it is
/// the whole of that; otherwise it is exactly `max` characters, the first
/// `max - 1` of the flattened text and an ellipsis.
pub proof fn law_one_line_keeps_the_words(command: Seq<char>, max: nat)
    ensures
        drop_spaces(flatten(command)) == drop_gaps(command),
        flatten(command).len() <= max ==> one_line_spec(command, max) == flatten(command),
        flatten(command).len() > max && max >= 1 ==> {
            let r = one_line_spec(command, max);
            &&& r.len() == max
            &&& r.last() == '\u{2026}'
            &&& r.take(max - 1) == flatten(command).take(max - 1)
        },
{
    lemma_flatten_keeps_words(command, Seq::empty(), false);
    assert(drop_spaces(Seq::<char>::empty()) + drop_gaps(command) == drop_gaps(command));
    if flatten(command).len() > max && max >= 1 {
        let r = one_line_spec(command, max);
        assert(r.take(max - 1) =~= flatten(command).take(max - 1));
    }
}

/// Squash a command onto one line for a table cell: runs of whitespace and
/// control characters become one space, the ends are trimmed, and text longer
/// than `max` characters is cut to `max - 1` characters and an ellipsis.
pub fn one_line(command: &str, max: usize) -> (r: String)
    ensures
        r@ == one_line_spec(command@, max as nat),
{
    let v = chars_of(command);
    let mut flat: Vec<char> = Vec::new();
    let mut gap = false;
    assert(v@.skip(0) == v@);
    let mut i: usize = 0;
    while i < v.len()
        invariant
            i <= v.len(),
            flatten(v@) == flatten_from(v@.skip(i as int), flat@, gap),
        decreases v.len() - i,
    {
        let c = v[i];
        assert(v@.skip(i as int).drop_first() == v@.skip(i + 1));
        if is_whitespace(c) || is_control(c) {
            gap = flat.len() > 0;
        } else {
            if gap {
                flat.push(' ');
                gap = false;
            }
            flat.push(c);
        }
        i += 1;
    }
    assert(v@.skip(i as int).len() == 0);
    let keep: usize = if flat.len() <= max {
        flat.len()
    } else if max >= 1 {
        max - 1
    } else {
        0
    };
    let mut r = String::new();
    let mut k: usize = 0;
    while k < keep
        invariant
            k <= keep <= flat.len(),
            r@ == flat@.take(k as int),
        decreases keep - k,
    {
        push_char(&mut r, flat[k]);
        assert(flat@.take(k + 1) == flat@.take(k as int).push(flat@[k as int]));
        k += 1;
    }
    if flat.len() > max {
        push_char(&mut r, '\u{2026}');
    } else {
        assert(flat@.take(keep as int) == flat@);
    }
    r
}

// ---------------------------------------------------------------------------
// decimal numbers
// ---------------------------------------------------------------------------

/// The ASCII digit for `d < 10`.
pub open spec fn digit_char(d: nat) -> char {
    (48 + d) as char
}

/// The decimal rendering of `n`, without leading zeros.
pub open spec fn dec(n: nat) -> Seq<char>
    decreases n,
{
    if n < 10 {
        seq![digit_char(n)]
    } else {
        dec(n / 10).push(digit_char(n % 10))
    }
}

/// The decimal rendering of a signed number, as `Display` writes it.
pub open spec fn signed_dec(n: int) -> Seq<char> {
    if n < 0 {
        seq!['-'] + dec((-n) as nat)
    } else {
        dec(n as nat)
    }
}

/// `d` padded on the left with zeros to `width` characters.
pub open spec fn zero_pad(d: Seq<char>, width: nat) -> Seq<char> {
    if d.len() >= width {
        d
    } else {
        Seq::new((width - d.len()) as nat, |k: int| '0') + d
    }
}

/// `n` rendered as `format!("{n:0w$}")` does: the sign first, then zeros up
/// to `width` characters in all.
pub open spec fn signed_dec_padded(n: int, width: nat) -> Seq<char> {
    if n < 0 {
        seq!['-'] + zero_pad(dec((-n) as nat), if width >= 1 { (width - 1) as nat } else { 0 })
    } else {
        zero_pad(dec(n as nat), width)
    }
}

fn digit_of(d: u128) -> (c: char)
    requires
        d < 10,
    ensures
        c == digit_char(d as nat),
{
    if d == 0 { '0' }
    else if d == 1 { '1' }
    else if d == 2 { '2' }
    else if d == 3 { '3' }
    else if d == 4 { '4' }
    else if d == 5 { '5' }
    else if d == 6 { '6' }
    else if d == 7 { '7' }
    else if d == 8 { '8' }
    else { '9' }
}

fn dec_chars(n: u128) -> (v: Vec<char>)
    ensures
        v@ == dec(n as nat),
    decreases n,
{
    if n < 10 {
        let mut v = Vec::new();
        v.push(digit_of(n));
        v
    } else {
        let mut v = dec_chars(n / 10);
        v.push(digit_of(n % 10));
        v
    }
}

/// Appends the decimal rendering of `n`.
pub fn push_u64(s: &mut String, n: u64)
    ensures
        final(s)@ == old(s)@ + dec(n as nat),
{
    push_u128(s, n as u128);
}

/// Appends the decimal rendering of `n`.
pub fn push_u128(s: &mut String, n: u128)
    ensures
        final(s)@ == old(s)@ + dec(n as nat),
{
    let v = dec_chars(n);
    let mut i: usize = 0;
    while i < v.len()
        invariant
            i <= v.len(),
            s@ == old(s)@ + v@.take(i as int),
        decreases v.len() - i,
    {
        push_char(s, v[i]);
        assert(v@.take(i + 1) == v@.take(i as int).push(v@[i as int]));
        i += 1;
    }
    assert(v@.take(v.len() as int) == v@);
}

/// The octal rendering of `n`, without leading zeros.
pub open spec fn oct(n: nat) -> Seq<char>
    decreases n,
{
    if n < 8 {
        seq![digit_char(n)]
    } else {
        oct(n / 8).push(digit_char(n % 8))
    }
}

fn oct_chars(n: u128) -> (v: Vec<char>)
    ensures
        v@ == oct(n as nat),
    decreases n,
{
    if n < 8 {
        let mut v = Vec::new();
        v.push(digit_of(n));
        v
    } else {
        let mut v = oct_chars(n / 8);
        v.push(digit_of(n % 8));
        v
    }
}

/// Appends the octal rendering of `n`, as `{:o}` writes it.
pub fn push_octal(s: &mut String, n: u64)
    ensures
        final(s)@ == old(s)@ + oct(n as nat),
{
    let v = oct_chars(n as u128);
    let mut i: usize = 0;
    while i < v.len()
        invariant
            i <= v.len(),
            s@ == old(s)@ + v@.take(i as int),
        decreases v.len() - i,
    {
        push_char(s, v[i]);
        assert(v@.take(i + 1) == v@.take(i as int).push(v@[i as int]));
        i += 1;
    }
    assert(v@.take(v.len() as int) == v@);
}

/// The magnitude of a signed number.
fn magnitude(n: i64) -> (m: u64)
    ensures
        m as int == if n < 0 { -n } else { n as int },
{
    if n >= 0 {
        n as u64
    } else {
        ((-(n + 1)) as u64) + 1
    }
}

/// Appends `n` as `Display` renders it.
pub fn push_i64(s: &mut String, n: i64)
    ensures
        final(s)@ == old(s)@ + signed_dec(n as int),
{
    let m = magnitude(n);
    if n < 0 {
        push_char(s, '-');
    }
    push_u64(s, m);
}

/// Appends `c` `count` times.
pub fn push_repeat(s: &mut String, c: char, count: usize)
    ensures
        final(s)@ == old(s)@ + Seq::new(count as nat, |k: int| c),
{
    let mut i: usize = 0;
    while i < count
        invariant
            i <= count,
            s@ == old(s)@ + Seq::new(i as nat, |k: int| c),
        decreases count - i,
    {
        push_char(s, c);
        assert(Seq::new((i + 1) as nat, |k: int| c) == Seq::new(i as nat, |k: int| c).push(c));
        i += 1;
    }
}

/// Appends `n` as `format!("{n:0w$}")` renders it.
pub fn push_i64_zero_padded(s: &mut String, n: i64, width: usize)
    ensures
        final(s)@ == old(s)@ + signed_dec_padded(n as int, width as nat),
{
    let m = magnitude(n);
    let digits = dec_chars(m as u128);
    let w: usize = if n < 0 {
        if width >= 1 { width - 1 } else { 0 }
    } else {
        width
    };
    let ghost before = s@;
    if n < 0 {
        push_char(s, '-');
    }
    if digits.len() < w {
        push_repeat(s, '0', w - digits.len());
    }
    let ghost mid = s@;
    let mut i: usize = 0;
    while i < digits.len()
        invariant
            i <= digits.len(),
            s@ == mid + digits@.take(i as int),
        decreases digits.len() - i,
    {
        push_char(s, digits[i]);
        assert(digits@.take(i + 1) == digits@.take(i as int).push(digits@[i as int]));
        i += 1;
    }
    assert(digits@.take(digits.len() as int) == digits@);
    proof {
        let z = zero_pad(dec(m as nat), w as nat);
        if n < 0 {
            assert(s@ == before + (seq!['-'] + z));
        } else {
            assert(s@ == before + z);
        }
    }
}

/// The decimal rendering of `n`.
pub fn u64_to_string(n: u64) -> (r: String)
    ensures
        r@ == dec(n as nat),
{
    let mut r = String::new();
    push_u64(&mut r, n);
    r
}

/// The decimal rendering of a signed `n`.
pub fn i64_to_string(n: i64) -> (r: String)
    ensures
        r@ == signed_dec(n as int),
{
    let mut r = String::new();
    push_i64(&mut r, n);
    r
}

// ---------------------------------------------------------------------------
// parsing
// ---------------------------------------------------------------------------

/// Whether every character of `s` is an ASCII digit.
pub open spec fn all_digits(s: Seq<char>) -> bool {
    forall|k: int| 0 <= k < s.len() ==> 48 <= (#[trigger] s[k] as u32) <= 57
}

/// The value of a string of ASCII digits.
pub open spec fn digits_value(s: Seq<char>) -> nat
    decreases s.len(),
{
    if s.len() == 0 {
        0
    } else {
        digits_value(s.drop_last()) * 10 + ((s.last() as u32) - 48) as nat
    }
}

proof fn lemma_dec_digits(n: nat)
    ensures
        dec(n).len() >= 1,
        all_digits(dec(n)),
        digits_value(dec(n)) == n,
        '0' <= dec(n)[0] <= '9',
    decreases n,
{
    assert((digit_char(n % 10) as u32) == 48 + n % 10);
    if n < 10 {
        assert((digit_char(n) as u32) == 48 + n);
        assert(dec(n).drop_last() == Seq::<char>::empty());
        assert(digits_value(Seq::<char>::empty()) == 0);
        assert(dec(n).last() == digit_char(n));
        assert(digits_value(dec(n)) == digits_value(dec(n).drop_last()) * 10 + ((dec(n).last()
            as u32) - 48) as nat);
    } else {
        lemma_dec_digits(n / 10);
        let d = dec(n / 10);
        let e = d.push(digit_char(n % 10));
        assert(e.drop_last() == d);
        assert(e.last() == digit_char(n % 10));
        assert(digits_value(e) == digits_value(d) * 10 + n % 10);
        assert((n / 10) * 10 + n % 10 == n);
        assert(e[0] == d[0]);
        assert(all_digits(e)) by {
            assert forall|k: int| 0 <= k < e.len() implies 48 <= (#[trigger] e[k] as u32) <= 57 by {
                if k < d.len() {
                    assert(e[k] == d[k]);
                }
            }
        }
    }
}

proof fn lemma_zeros_value(z: Seq<char>, d: Seq<char>)
    requires
        forall|k: int| 0 <= k < z.len() ==> #[trigger] z[k] == '0',
        all_digits(d),
    ensures
        all_digits(z + d),
        digits_value(z + d) == digits_value(d),
    decreases z.len() + d.len(),
{
    let w = z + d;
    assert(all_digits(w)) by {
        assert forall|k: int| 0 <= k < w.len() implies 48 <= (#[trigger] w[k] as u32) <= 57 by {
            if k < z.len() {
                assert(w[k] == z[k]);
            } else {
                assert(w[k] == d[k - z.len()]);
            }
        }
    }
    if d.len() > 0 {
        assert(w.drop_last() == z + d.drop_last());
        assert(w.last() == d.last());
        lemma_zeros_value(z, d.drop_last());
    } else if z.len() > 0 {
        assert(w == z);
        assert(z.drop_last() + d == z.drop_last());
        lemma_zeros_value(z.drop_last(), d);
        assert(z.last() == '0');
    } else {
        assert(w.len() == 0);
    }
}

/// A number written with `{:0w$}` reads back to itself: ASCII digits only,
/// at least `width` of them, with the number's value.
pub proof fn law_zero_padded_reads_back(n: nat, width: nat)
    ensures
        all_digits(signed_dec_padded(n as int, width)),
        digits_value(signed_dec_padded(n as int, width)) == n,
        signed_dec_padded(n as int, width).len() == if dec(n).len() >= width {
            dec(n).len()
        } else {
            width
        },
{
    lemma_dec_digits(n);
    if dec(n).len() < width {
        let z = Seq::new((width - dec(n).len()) as nat, |k: int| '0');
        lemma_zeros_value(z, dec(n));
    }
}

/// An exit code written as `Display` writes it is parsed back by
/// `parse_i32` to the same code.
pub proof fn law_exit_code_reads_back(v: i32)
    ensures
        parse_i32_spec(signed_dec(v as int)) == Some(v),
{
    if v < 0 {
        let m = (-(v as int)) as nat;
        lemma_dec_digits(m);
        let s = signed_dec(v as int);
        assert(s == seq!['-'] + dec(m));
        assert(s.drop_first() == dec(m));
    } else {
        lemma_dec_digits(v as nat);
    }
}

/// What `str::parse::<i32>` returns: an optional `+` or `-`, then at least
/// one ASCII digit and nothing else, with the value in range.
pub open spec fn parse_i32_spec(s: Seq<char>) -> Option<i32> {
    let neg = s.len() > 0 && s[0] == '-';
    let body = if s.len() > 0 && (s[0] == '-' || s[0] == '+') {
        s.drop_first()
    } else {
        s
    };
    if body.len() == 0 || !all_digits(body) {
        None
    } else {
        let v = if neg {
            -(digits_value(body) as int)
        } else {
            digits_value(body) as int
        };
        if i32::MIN <= v <= i32::MAX {
            Some(v as i32)
        } else {
            None
        }
    }
}

proof fn lemma_digits_value_mono(s: Seq<char>, i: int)
    requires
        0 <= i <= s.len(),
        all_digits(s),
    ensures
        digits_value(s.take(i)) <= digits_value(s),
    decreases s.len() - i,
{
    if i < s.len() {
        lemma_digits_value_mono(s, i + 1);
        assert(s.take(i + 1).drop_last() == s.take(i));
    } else {
        assert(s.take(i) == s);
    }
}

/// Parses a decimal `i32` exactly as `str::parse::<i32>` does.
pub fn parse_i32(s: &str) -> (r: Option<i32>)
    ensures
        r == parse_i32_spec(s@),
{
    let v = chars_of(s);
    let n = v.len();
    let neg = n > 0 && v[0] == '-';
    let start: usize = if n > 0 && (v[0] == '-' || v[0] == '+') {
        1
    } else {
        0
    };
    let ghost body = if start == 1 { v@.drop_first() } else { v@ };
    assert(start == 1 <==> (v@.len() > 0 && (v@[0] == '-' || v@[0] == '+')));
    assert(neg <==> (v@.len() > 0 && v@[0] == '-'));
    assert(body == v@.skip(start as int));
    if start >= n {
        return None;
    }
    let mut acc: u64 = 0;
    let mut i: usize = start;
    while i < n
        invariant
            start <= i <= n,
            n == v@.len(),
            v@ == s@,
            body == v@.skip(start as int),
            body == (if v@.len() > 0 && (v@[0] == '-' || v@[0] == '+') {
                v@.drop_first()
            } else {
                v@
            }),
            all_digits(body.take(i - start)),
            acc as nat == digits_value(body.take(i - start)),
            acc <= 0x8000_0000,
        decreases n - i,
    {
        let c = v[i];
        let u = c as u32;
        if u < 0x30 || u > 0x39 {
            proof {
                assert(body[i - start] == c);
                assert(!(48 <= (c as u32) <= 57));
                assert(!all_digits(body));
            }
            return None;
        }
        let next = acc * 10 + ((u - 0x30) as u64);
        proof {
            let t = body.take(i - start + 1);
            assert(t.drop_last() == body.take(i - start));
            assert(t.last() == c);
            assert(all_digits(t)) by {
                assert forall|k: int| 0 <= k < t.len() implies 48 <= (#[trigger] t[k] as u32)
                    <= 57 by {
                    if k < i - start {
                        assert(t[k] == body.take(i - start)[k]);
                    }
                }
            }
        }
        if next > 0x8000_0000 {
            proof {
                // the rest of the digits can only make the value larger
                let t = body.take(i - start + 1);
                if all_digits(body) {
                    lemma_digits_value_mono(body, i - start + 1);
                }
            }
            return None;
        }
        acc = next;
        i += 1;
    }
    assert(body.take(n - start) == body);
    if neg {
        if acc <= 0x8000_0000 {
            Some((-(acc as i64)) as i32)
        } else {
            None
        }
    } else {
        if acc <= 0x7fff_ffff {
            Some(acc as i32)
        } else {
            None
        }
    }
}

// ---------------------------------------------------------------------------
// byte prefixes
// ---------------------------------------------------------------------------

/// What `s.get(..n)` gives: the text of the first `n` bytes of `s`, when `n`
/// falls on a character boundary within `s`.
pub open spec fn byte_prefix_spec(s: Seq<char>, n: nat) -> Option<Seq<char>> {
    if is_char_boundary(encode_utf8(s), n as int) {
        Some(decode_utf8(encode_utf8(s).subrange(0, n as int)))
    } else {
        None
    }
}

/// The first `n` bytes of `s` as a string, as `s.get(..n)` gives them.
pub fn byte_prefix(s: &str, n: usize) -> (r: Option<String>)
    ensures
        r is Some <==> byte_prefix_spec(s@, n as nat) is Some,
        r matches Some(t) ==> t@ == byte_prefix_spec(s@, n as nat)->0,
{
    if s.is_char_boundary(n) {
        let (a, _b) = s.split_at(n);
        proof {
            encode_utf8_decode_utf8(a@);
        }
        Some(a.to_owned())
    } else {
        None
    }
}

/// `s.get(..n).unwrap_or(s)`: the first `n` bytes of `s`, or all of `s` when
/// `n` is not a character boundary within it.
pub fn byte_prefix_or_all(s: &str, n: usize) -> (r: String)
    ensures
        r@ == match byte_prefix_spec(s@, n as nat) {
            Some(p) => p,
            None => s@,
        },
{
    match byte_prefix(s, n) {
        Some(p) => p,
        None => {
            let mut r = String::new();
            push_str(&mut r, s);
            r
        },
    }
}

/// What `s.get(a..b)` gives: the text of bytes `a..b` of `s`, when `b` falls
/// on a character boundary within `s` and `a` on one within its first `b`
/// bytes.
pub open spec fn byte_range_spec(s: Seq<char>, a: nat, b: nat) -> Option<Seq<char>> {
    match byte_prefix_spec(s, b) {
        Some(p) => if is_char_boundary(encode_utf8(p), a as int) {
            Some(decode_utf8(encode_utf8(p).subrange(a as int, encode_utf8(p).len() as int)))
        } else {
            None
        },
        None => None,
    }
}

/// Bytes `a..b` of `s` as a string, as `s.get(a..b)` gives them.
pub fn byte_range(s: &str, a: usize, b: usize) -> (r: Option<String>)
    ensures
        r is Some <==> byte_range_spec(s@, a as nat, b as nat) is Some,
        r matches Some(t) ==> t@ == byte_range_spec(s@, a as nat, b as nat)->0,
{
    match byte_prefix(s, b) {
        Some(p) => {
            let ps = p.as_str();
            if ps.is_char_boundary(a) {
                let (_x, q) = ps.split_at(a);
                proof {
                    encode_utf8_decode_utf8(q@);
                }
                Some(q.to_owned())
            } else {
                None
            }
        },
        None => None,
    }
}

/// `s` with each `T` replaced by a space.
pub open spec fn t_to_space(s: Seq<char>) -> Seq<char> {
    s.map_values(|c: char| if c == 'T' { ' ' } else { c })
}

/// A copy of `s` with each `T` replaced by a space.
pub fn replace_t_with_space(s: &str) -> (r: String)
    ensures
        r@ == t_to_space(s@),
{
    let v = chars_of(s);
    let mut r = String::new();
    let mut i: usize = 0;
    while i < v.len()
        invariant
            i <= v.len(),
            r@ == t_to_space(v@.take(i as int)),
        decreases v.len() - i,
    {
        let c = if v[i] == 'T' { ' ' } else { v[i] };
        push_char(&mut r, c);
        assert(t_to_space(v@.take(i + 1)) =~= t_to_space(v@.take(i as int)).push(c));
        i += 1;
    }
    assert(v@.take(v.len() as int) == v@);
    r
}

// ---------------------------------------------------------------------------
// columns
// ---------------------------------------------------------------------------

/// `s` padded with spaces on the right to `width` characters, as
/// `format!("{s:<width$}")` does; longer text is left whole.
pub open spec fn pad_right_spec(s: Seq<char>, width: nat) -> Seq<char> {
    if s.len() >= width {
        s
    } else {
        s + Seq::new((width - s.len()) as nat, |k: int| ' ')
    }
}

/// `s` padded with spaces on the left to `width` characters, as
/// `format!("{s:>width$}")` does.
pub open spec fn pad_left_spec(s: Seq<char>, width: nat) -> Seq<char> {
    if s.len() >= width {
        s
    } else {
        Seq::new((width - s.len()) as nat, |k: int| ' ') + s
    }
}

/// A padded column cell holds the text unchanged and fills the rest of the
/// column with spaces: on the right for `{:<w}`, on the left for `{:>w}`;
/// text longer than the column is left whole.
pub proof fn law_padding_keeps_text(s: Seq<char>, width: nat)
    ensures
        pad_right_spec(s, width).len() == if s.len() >= width { s.len() } else { width },
        pad_right_spec(s, width).take(s.len() as int) == s,
        forall|k: int|
            s.len() <= k < pad_right_spec(s, width).len() ==> #[trigger] pad_right_spec(s, width)[k]
                == ' ',
        pad_left_spec(s, width).len() == if s.len() >= width { s.len() } else { width },
        pad_left_spec(s, width).skip(pad_left_spec(s, width).len() - s.len()) == s,
        forall|k: int|
            0 <= k < pad_left_spec(s, width).len() - s.len() ==> #[trigger] pad_left_spec(s, width)[k]
                == ' ',
{
    let r = pad_right_spec(s, width);
    assert(r.take(s.len() as int) =~= s);
    let l = pad_left_spec(s, width);
    assert(l.skip(l.len() - s.len()) =~= s);
}

/// Appends `t` padded on the right to `width` characters.
pub fn push_padded(s: &mut String, t: &str, width: usize)
    ensures
        final(s)@ == old(s)@ + pad_right_spec(t@, width as nat),
{
    let len = t.unicode_len();
    push_str(s, t);
    if len < width {
        push_repeat(s, ' ', width - len);
    }
}

/// Appends `t` padded on the left to `width` characters.
pub fn push_padded_left(s: &mut String, t: &str, width: usize)
    ensures
        final(s)@ == old(s)@ + pad_left_spec(t@, width as nat),
{
    let len = t.unicode_len();
    if len < width {
        push_repeat(s, ' ', width - len);
    }
    push_str(s, t);
}

} // verus!
