//! What comes back from a remote command: its exit status and, for the
//! library's own bookkeeping commands, its captured output.

use vstd::prelude::*;
use vstd::utf8::{decode_utf8, valid_utf8};

use crate::text::{chars_of, parse_i32, parse_i32_spec, trim, trim_spec};

verus! {

/// What `String::from_utf8_lossy` makes of `bytes`.
pub uninterp spec fn utf8_lossy(bytes: Seq<u8>) -> Seq<char>;

/// Decodes bytes as UTF-8, replacing invalid sequences.
///
/// Trusted: `String::from_utf8_lossy` returns the text the bytes encode when
/// they are valid UTF-8; for invalid input the result is named, not stated
/// (each invalid sequence becomes U+FFFD).
#[verifier::external_body]
pub fn lossy_string(bytes: &[u8]) -> (r: String)
    ensures
        r@ == utf8_lossy(bytes@),
        valid_utf8(bytes@) ==> r@ == decode_utf8(bytes@),
{
    String::from_utf8_lossy(bytes).into_owned()
}

/// The result of a command run over an exec channel whose output was
/// streamed.
#[derive(Copy, Clone, Debug)]
pub struct ExecOutcome {
    /// Remote exit code, or `None` if the connection dropped before one
    /// arrived.
    pub exit_code: Option<u32>,
}

/// The result of a command whose output was collected.
#[derive(Clone, Debug)]
pub struct Captured {
    pub stdout: Vec<u8>,
    pub stderr: Vec<u8>,
    pub exit_code: Option<u32>,
}

impl Captured {
    /// Whether the command exited with status 0.
    pub fn ok(&self) -> (b: bool)
        ensures
            b == (self.exit_code == Some(0u32)),
    {
        match self.exit_code {
            Some(c) => c == 0,
            None => false,
        }
    }

    /// Trimmed stdout, for the small bookkeeping commands this is used for.
    pub fn out(&self) -> (r: String)
        ensures
            r@ == trim_spec(utf8_lossy(self.stdout@)),
    {
        let s = lossy_string(self.stdout.as_slice());
        trim(s.as_str())
    }

    /// Trimmed stderr: what to put in an error message when a remote
    /// bookkeeping command fails.
    pub fn err(&self) -> (r: String)
        ensures
            r@ == trim_spec(utf8_lossy(self.stderr@)),
    {
        let s = lossy_string(self.stderr.as_slice());
        trim(s.as_str())
    }

    /// The exit code a command wrote into its `.rc` file, read back with
    /// `cat`: the trimmed output parsed as an `i32`.
    pub fn exit_code_file(&self) -> (r: Option<i32>)
        ensures
            r == parse_i32_spec(trim_spec(utf8_lossy(self.stdout@))),
    {
        let o = self.out();
        parse_i32(o.as_str())
    }
}

/// Whether a probe command (one run only for its status) succeeded.
pub fn probe_ok(exit_code: Option<u32>) -> (b: bool)
    ensures
        b == (exit_code == Some(0u32)),
{
    match exit_code {
        Some(c) => c == 0,
        None => false,
    }
}

/// A remote status as an `i32`, as an `as` cast gives it.
pub open spec fn as_i32(c: u32) -> i32 {
    if c <= 0x7fff_ffff {
        c as i32
    } else {
        (c - 0x1_0000_0000) as i32
    }
}

/// The local exit code for a remote one: the remote status as an `i32`, or
/// 255 when none arrived, as ssh does.
pub fn local_exit_code(exit_code: Option<u32>) -> (r: i32)
    ensures
        r == match exit_code {
            Some(c) => as_i32(c),
            None => 255,
        },
{
    match exit_code {
        Some(c) => {
            if c <= 0x7fff_ffff {
                c as i32
            } else {
                (c as i64 - 0x1_0000_0000i64) as i32
            }
        },
        None => 255,
    }
}

/// Names of the shells a persistent shell's pane runs when it is idle.
pub open spec fn is_shell_name(s: Seq<char>) -> bool {
    s == "bash"@ || s == "sh"@ || s == "zsh"@ || s == "dash"@ || s == "ksh"@ || s == "ash"@
}

/// `s` without its leading `-`s (a login shell shows as `-bash`).
pub open spec fn trim_dashes(s: Seq<char>) -> Seq<char>
    decreases s.len(),
{
    if s.len() > 0 && s[0] == '-' {
        trim_dashes(s.drop_first())
    } else {
        s
    }
}

fn eq_str(v: &Vec<char>, start: usize, lit: &str) -> (b: bool)
    requires
        start <= v@.len(),
    ensures
        b == (v@.skip(start as int) == lit@),
{
    let w = chars_of(lit);
    let n = v.len();
    if n - start != w.len() {
        return false;
    }
    let mut i: usize = 0;
    while i < w.len()
        invariant
            i <= w.len(),
            start <= v@.len(),
            v@.len() - start == w@.len(),
            n == v@.len(),
            w@ == lit@,
            forall|k: int| 0 <= k < i ==> v@[start + k] == w@[k],
        decreases w.len() - i,
    {
        if v[start + i] != w[i] {
            assert(v@.skip(start as int)[i as int] != w@[i as int]);
            return false;
        }
        i += 1;
    }
    assert(v@.skip(start as int) =~= w@);
    true
}

/// Whether the pane's foreground command (as tmux names it) is a shell, that
/// is, whether the shell sits at a prompt with nothing running.
pub fn is_idle_shell(pane_command: &str) -> (b: bool)
    ensures
        b == is_shell_name(trim_dashes(pane_command@)),
{
    let v = chars_of(pane_command);
    let mut i: usize = 0;
    assert(v@.skip(0) == v@);
    while i < v.len() && v[i] == '-'
        invariant
            i <= v.len(),
            v@ == pane_command@,
            trim_dashes(v@) == trim_dashes(v@.skip(i as int)),
        decreases v.len() - i,
    {
        assert(v@.skip(i as int).drop_first() == v@.skip(i + 1));
        i += 1;
    }
    assert(trim_dashes(v@.skip(i as int)) == v@.skip(i as int));
    eq_str(&v, i, "bash") || eq_str(&v, i, "sh") || eq_str(&v, i, "zsh") || eq_str(&v, i, "dash")
        || eq_str(&v, i, "ksh") || eq_str(&v, i, "ash")
}

} // verus!
