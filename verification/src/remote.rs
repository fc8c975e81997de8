//! The command lines agentssh sends to the remote host: tmux session names,
//! the persistent shell's scratch directory and the scripts that stage a
//! command, type it into the shell, wait for it and clean up, plus the text
//! echoed into a shell session's recording.

use vstd::prelude::*;

use crate::quoting::{shell_escape, shell_escape_spec};
use crate::text::{
    chars_of, push_char, push_i64, push_i64_zero_padded, push_str, push_u64, dec, signed_dec,
    signed_dec_padded,
};

verus! {

/// The remote tmux session name of an agentssh session.
pub fn session_name(id: &str) -> (r: String)
    ensures
        r@ == "agentssh-"@ + id@,
{
    let mut r = String::new();
    push_str(&mut r, "agentssh-");
    push_str(&mut r, id);
    r
}

/// The command exec'd on the PTY channel: `-A` attaches if the session exists
/// and creates it otherwise, so a first connect and every reattach are the
/// same command.
pub fn attach_command(name: &str) -> (r: String)
    ensures
        r@ == "tmux new-session -A -s "@ + name@,
{
    let mut r = String::new();
    push_str(&mut r, "tmux new-session -A -s ");
    push_str(&mut r, name);
    r
}

/// Per-session scratch space on the remote.
pub fn workdir(session_id: &str) -> (r: String)
    ensures
        r@ == "/tmp/agentssh."@ + session_id@,
{
    let mut r = String::new();
    push_str(&mut r, "/tmp/agentssh.");
    push_str(&mut r, session_id);
    r
}

/// The file-name stem of the `seq`-th command of a shell: its number padded
/// with zeros to four digits.
pub fn command_token(seq: i64) -> (r: String)
    ensures
        r@ == signed_dec_padded(seq as int, 4),
{
    let mut r = String::new();
    push_i64_zero_padded(&mut r, seq, 4);
    r
}

/// The token of the most recent command of a shell, `0000` when it has run
/// none.
pub fn last_token(last_seq: Option<i64>) -> (r: String)
    ensures
        r@ == match last_seq {
            Some(s) => signed_dec_padded(s as int, 4),
            None => "0000"@,
        },
{
    match last_seq {
        Some(s) => command_token(s),
        None => {
            let mut r = String::new();
            push_str(&mut r, "0000");
            r
        },
    }
}

/// The remote command that stages a command's text from stdin into
/// `<dir>/<token>.cmd`, so no quoting layer ever touches it.
pub fn stage_command(dir: &str, token: &str) -> (r: String)
    ensures
        r@ == "mkdir -p "@ + dir@ + " && chmod 700 "@ + dir@ + " && cat > "@ + dir@ + "/"@
            + token@ + ".cmd"@,
{
    let mut r = String::new();
    push_str(&mut r, "mkdir -p ");
    push_str(&mut r, dir);
    push_str(&mut r, " && chmod 700 ");
    push_str(&mut r, dir);
    push_str(&mut r, " && cat > ");
    push_str(&mut r, dir);
    push_str(&mut r, "/");
    push_str(&mut r, token);
    push_str(&mut r, ".cmd");
    r
}

/// The fixed line typed into the shell: source the staged command with its
/// output redirected to `<token>.out`, then write its status to `<token>.rc`.
pub fn wrapper_line(dir: &str, token: &str) -> (r: String)
    ensures
        r@ == "{ . "@ + dir@ + "/"@ + token@ + ".cmd ; } > "@ + dir@ + "/"@ + token@
            + ".out 2>&1 ; echo $? > "@ + dir@ + "/"@ + token@ + ".rc"@,
{
    let mut r = String::new();
    push_str(&mut r, "{ . ");
    push_str(&mut r, dir);
    push_str(&mut r, "/");
    push_str(&mut r, token);
    push_str(&mut r, ".cmd ; } > ");
    push_str(&mut r, dir);
    push_str(&mut r, "/");
    push_str(&mut r, token);
    push_str(&mut r, ".out 2>&1 ; echo $? > ");
    push_str(&mut r, dir);
    push_str(&mut r, "/");
    push_str(&mut r, token);
    push_str(&mut r, ".rc");
    r
}

/// The remote command that types `line` literally into the tmux pane `name`
/// and presses Enter.
pub fn send_line_command(name: &str, line: &str) -> (r: String)
    ensures
        r@ == "tmux send-keys -t "@ + name@ + " -l "@ + shell_escape_spec(line@)
            + " && tmux send-keys -t "@ + name@ + " Enter"@,
{
    let mut r = String::new();
    push_str(&mut r, "tmux send-keys -t ");
    push_str(&mut r, name);
    push_str(&mut r, " -l ");
    let q = shell_escape(line);
    push_str(&mut r, q.as_str());
    push_str(&mut r, " && tmux send-keys -t ");
    push_str(&mut r, name);
    push_str(&mut r, " Enter");
    r
}

/// The remote script that blocks until the command's exit-code file appears,
/// prints everything the command wrote, and exits with the command's status;
/// it gives up with status 254 if the tmux session disappears meanwhile.
pub fn wait_script(dir: &str, token: &str, name: &str) -> (r: String)
    ensures
        r@ == "if sleep 0.1 2>/dev/null; then s=0.1; else s=1; fi; i=0; while [ ! -f "@ + dir@
            + "/"@ + token@
            + ".rc ]; do i=$((i+1)); if [ $((i % 100)) -eq 0 ] && ! tmux has-session -t "@ + name@
            + " 2>/dev/null; then echo 'agentssh: the remote shell ended while this command was running' >&2; exit 254; fi; sleep $s; done; cat "@
            + dir@ + "/"@ + token@ + ".out 2>/dev/null; exit $(cat "@ + dir@ + "/"@ + token@
            + ".rc)"@,
{
    let mut r = String::new();
    push_str(&mut r, "if sleep 0.1 2>/dev/null; then s=0.1; else s=1; fi; i=0; while [ ! -f ");
    push_str(&mut r, dir);
    push_str(&mut r, "/");
    push_str(&mut r, token);
    push_str(&mut r, ".rc ]; do i=$((i+1)); if [ $((i % 100)) -eq 0 ] && ! tmux has-session -t ");
    push_str(&mut r, name);
    push_str(
        &mut r,
        " 2>/dev/null; then echo 'agentssh: the remote shell ended while this command was running' >&2; exit 254; fi; sleep $s; done; cat ",
    );
    push_str(&mut r, dir);
    push_str(&mut r, "/");
    push_str(&mut r, token);
    push_str(&mut r, ".out 2>/dev/null; exit $(cat ");
    push_str(&mut r, dir);
    push_str(&mut r, "/");
    push_str(&mut r, token);
    push_str(&mut r, ".rc)");
    r
}

/// The remote command that starts a persistent shell: the scratch directory,
/// then a detached tmux session of `cols` x `rows` running a POSIX login
/// shell.
pub fn boot_command(dir: &str, name: &str, cols: u32, rows: u32) -> (r: String)
    ensures
        r@ == "mkdir -p "@ + dir@ + " && chmod 700 "@ + dir@ + " && tmux new-session -d -s "@
            + name@ + " -x "@ + dec(cols as nat) + " -y "@ + dec(rows as nat)
            + " 'if command -v bash >/dev/null 2>&1; then exec bash -l; else exec sh; fi'"@,
{
    let mut r = String::new();
    push_str(&mut r, "mkdir -p ");
    push_str(&mut r, dir);
    push_str(&mut r, " && chmod 700 ");
    push_str(&mut r, dir);
    push_str(&mut r, " && tmux new-session -d -s ");
    push_str(&mut r, name);
    push_str(&mut r, " -x ");
    push_u64(&mut r, cols as u64);
    push_str(&mut r, " -y ");
    push_u64(&mut r, rows as u64);
    push_str(&mut r, " 'if command -v bash >/dev/null 2>&1; then exec bash -l; else exec sh; fi'");
    r
}

/// The remote command that kills a shell's tmux session and removes its
/// scratch directory.
pub fn teardown_command(name: &str, dir: &str) -> (r: String)
    ensures
        r@ == "tmux kill-session -t "@ + name@ + " 2>/dev/null; rm -rf "@ + dir@,
{
    let mut r = String::new();
    push_str(&mut r, "tmux kill-session -t ");
    push_str(&mut r, name);
    push_str(&mut r, " 2>/dev/null; rm -rf ");
    push_str(&mut r, dir);
    r
}

/// The remote command that asks whether a tmux session still exists.
pub fn has_session_command(name: &str) -> (r: String)
    ensures
        r@ == "tmux has-session -t "@ + name@ + " 2>/dev/null"@,
{
    let mut r = String::new();
    push_str(&mut r, "tmux has-session -t ");
    push_str(&mut r, name);
    push_str(&mut r, " 2>/dev/null");
    r
}

/// The remote command that sends Ctrl-C to a tmux pane.
pub fn interrupt_command(name: &str) -> (r: String)
    ensures
        r@ == "tmux send-keys -t "@ + name@ + " C-c"@,
{
    let mut r = String::new();
    push_str(&mut r, "tmux send-keys -t ");
    push_str(&mut r, name);
    push_str(&mut r, " C-c");
    r
}

/// The remote command that names the pane's foreground command.
pub fn pane_command_query(name: &str) -> (r: String)
    ensures
        r@ == "tmux display-message -p -t "@ + name@ + " '#{pane_current_command}'"@,
{
    let mut r = String::new();
    push_str(&mut r, "tmux display-message -p -t ");
    push_str(&mut r, name);
    push_str(&mut r, " '#{pane_current_command}'");
    r
}

/// The remote command that prints one of a command's files (`out` or `rc`),
/// or nothing if it is missing.
pub fn cat_command(dir: &str, token: &str, ext: &str) -> (r: String)
    ensures
        r@ == "cat "@ + dir@ + "/"@ + token@ + "."@ + ext@ + " 2>/dev/null"@,
{
    let mut r = String::new();
    push_str(&mut r, "cat ");
    push_str(&mut r, dir);
    push_str(&mut r, "/");
    push_str(&mut r, token);
    push_str(&mut r, ".");
    push_str(&mut r, ext);
    push_str(&mut r, " 2>/dev/null");
    r
}

/// The remote command that tests whether a command's exit-code file exists.
pub fn rc_test_command(dir: &str, token: &str) -> (r: String)
    ensures
        r@ == "test -f "@ + dir@ + "/"@ + token@ + ".rc"@,
{
    let mut r = String::new();
    push_str(&mut r, "test -f ");
    push_str(&mut r, dir);
    push_str(&mut r, "/");
    push_str(&mut r, token);
    push_str(&mut r, ".rc");
    r
}

// ---------------------------------------------------------------------------
// lines of a command, as `str::lines` splits them
// ---------------------------------------------------------------------------

/// A line without the CR of a CR LF ending.
pub open spec fn strip_cr(l: Seq<char>) -> Seq<char> {
    if l.len() > 0 && l.last() == '\r' {
        l.drop_last()
    } else {
        l
    }
}

/// The lines of `s` after the partial line `cur`, as `str::lines` yields
/// them: split at LF, a CR before the LF dropped, no empty line after a
/// final LF.
pub open spec fn lines_from(s: Seq<char>, cur: Seq<char>) -> Seq<Seq<char>>
    decreases s.len(),
{
    if s.len() == 0 {
        if cur.len() == 0 {
            Seq::empty()
        } else {
            seq![cur]
        }
    } else if s[0] == '\n' {
        seq![strip_cr(cur)] + lines_from(s.drop_first(), Seq::empty())
    } else {
        lines_from(s.drop_first(), cur.push(s[0]))
    }
}

/// The lines of `s`, as `str::lines` yields them.
pub open spec fn lines_spec(s: Seq<char>) -> Seq<Seq<char>> {
    lines_from(s, Seq::empty())
}

/// The lines of `s`.
pub fn lines(s: &str) -> (r: Vec<Vec<char>>)
    ensures
        r@.map_values(|l: Vec<char>| l@) == lines_spec(s@),
{
    let v = chars_of(s);
    let mut r: Vec<Vec<char>> = Vec::new();
    let mut cur: Vec<char> = Vec::new();
    let mut i: usize = 0;
    assert(v@.skip(0) == v@);
    while i < v.len()
        invariant
            i <= v.len(),
            v@ == s@,
            lines_spec(s@) == r@.map_values(|l: Vec<char>| l@) + lines_from(
                v@.skip(i as int),
                cur@,
            ),
        decreases v.len() - i,
    {
        assert(v@.skip(i as int).drop_first() == v@.skip(i + 1));
        let c = v[i];
        if c == '\n' {
            let ghost before = r@.map_values(|l: Vec<char>| l@);
            let n = cur.len();
            if n > 0 && cur[n - 1] == '\r' {
                cur.pop();
            }
            r.push(cur);
            cur = Vec::new();
            assert(r@.map_values(|l: Vec<char>| l@) == before.push(r@.last()@));
        } else {
            cur.push(c);
        }
        i += 1;
    }
    assert(v@.skip(i as int).len() == 0);
    if cur.len() > 0 {
        let ghost before = r@.map_values(|l: Vec<char>| l@);
        r.push(cur);
        assert(r@.map_values(|l: Vec<char>| l@) == before.push(r@.last()@));
    }
    r
}

/// The echo of a command in a shell session's recording: a `$` prompt before
/// the first line, a `>` before each continuation line.
pub open spec fn prompt_block_spec(command: Seq<char>) -> Seq<char> {
    let ls = lines_spec(command);
    if ls.len() == 0 {
        "\x1b[1;36m$\x1b[0m\n"@
    } else {
        prompt_lines(ls)
    }
}

/// The prompt lines for `ls`, the first with `$`, the rest with `>`.
pub open spec fn prompt_lines(ls: Seq<Seq<char>>) -> Seq<char>
    decreases ls.len(),
{
    if ls.len() == 0 {
        Seq::empty()
    } else if ls.len() == 1 {
        "\x1b[1;36m$\x1b[0m "@ + ls[0] + seq!['\n']
    } else {
        prompt_lines(ls.drop_last()) + "\x1b[1;36m>\x1b[0m "@ + ls.last() + seq!['\n']
    }
}

fn push_chars(s: &mut String, v: &Vec<char>)
    ensures
        final(s)@ == old(s)@ + v@,
{
    let mut i: usize = 0;
    while i < v.len()
        invariant
            i <= v.len(),
            s@ == old(s)@ + v@.take(i as int),
        decreases v.len() - i,
    {
        push_char(s, v[i]);
        assert(v@.take(i + 1) == v@.take(i as int).push(v@[i as int]));
        i += 1;
    }
    assert(v@.take(v.len() as int) == v@);
}

/// Echo the command into the recording the way a shell would, so the replay
/// reads as a session rather than as disembodied output.
pub fn prompt_block(command: &str) -> (r: String)
    ensures
        r@ == prompt_block_spec(command@),
{
    let ls = lines(command);
    let ghost sl = ls@.map_values(|l: Vec<char>| l@);
    let mut r = String::new();
    if ls.len() == 0 {
        push_str(&mut r, "\x1b[1;36m$\x1b[0m\n");
        return r;
    }
    let mut i: usize = 0;
    while i < ls.len()
        invariant
            i <= ls.len(),
            sl == ls@.map_values(|l: Vec<char>| l@),
            r@ == prompt_lines(sl.take(i as int)),
        decreases ls.len() - i,
    {
        assert(sl.take(i + 1).drop_last() == sl.take(i as int));
        assert(sl.take(i + 1).last() == ls@[i as int]@);
        if i == 0 {
            push_str(&mut r, "\x1b[1;36m$\x1b[0m ");
        } else {
            push_str(&mut r, "\x1b[1;36m>\x1b[0m ");
        }
        push_chars(&mut r, &ls[i]);
        push_char(&mut r, '\n');
        i += 1;
    }
    assert(sl.take(ls.len() as int) == sl);
    r
}

/// The marker recorded when a command finishes.
pub fn exit_marker(code: i32) -> (r: String)
    ensures
        r@ == "exit "@ + signed_dec(code as int),
{
    let mut r = String::new();
    push_str(&mut r, "exit ");
    push_i64(&mut r, code as i64);
    r
}

/// The footer written into the recording after a command: only failures get
/// one, so a clean command replays as clean as it looked.
pub fn exit_footer(code: i32) -> (r: Option<String>)
    ensures
        code == 0 ==> r is None,
        code != 0 ==> r == Some(r->0) && r->0@ == "\x1b[1;31m[exit "@ + signed_dec(code as int)
            + "]\x1b[0m\n"@,
{
    if code == 0 {
        return None;
    }
    let mut r = String::new();
    push_str(&mut r, "\x1b[1;31m[exit ");
    push_i64(&mut r, code as i64);
    push_str(&mut r, "]\x1b[0m\n");
    Some(r)
}

/// The banner written into the recording when a command times out.
pub fn timeout_banner(secs: u64) -> (r: String)
    ensures
        r@ == "\x1b[1;33m[timed out after "@ + dec(secs as nat) + "s; sent SIGINT]\x1b[0m\n"@,
{
    let mut r = String::new();
    push_str(&mut r, "\x1b[1;33m[timed out after ");
    push_u64(&mut r, secs);
    push_str(&mut r, "s; sent SIGINT]\x1b[0m\n");
    r
}

} // verus!
