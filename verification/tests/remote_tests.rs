use agentssh::remote::{
    attach_command, boot_command, cat_command, command_token, exit_footer, exit_marker,
    has_session_command, interrupt_command, last_token, lines, pane_command_query, prompt_block,
    rc_test_command, send_line_command, session_name, stage_command, teardown_command,
    timeout_banner, wait_script, workdir, wrapper_line,
};

#[test]
fn names_and_dirs() {
    assert_eq!(session_name("0123456789abcdef"), "agentssh-0123456789abcdef");
    assert_eq!(attach_command("agentssh-x"), "tmux new-session -A -s agentssh-x");
    assert_eq!(workdir("0123456789abcdef"), "/tmp/agentssh.0123456789abcdef");
}

#[test]
fn tokens_are_zero_padded() {
    assert_eq!(command_token(1), "0001");
    assert_eq!(command_token(42), "0042");
    assert_eq!(command_token(12345), "12345");
    assert_eq!(command_token(-1), format!("{:04}", -1i64));
    assert_eq!(last_token(Some(7)), "0007");
    assert_eq!(last_token(None), "0000");
}

#[test]
fn staging_and_wrapper() {
    assert_eq!(stage_command("/tmp/d", "0001"), "mkdir -p /tmp/d && chmod 700 /tmp/d && cat > /tmp/d/0001.cmd");
    assert_eq!(
        wrapper_line("/tmp/d", "0001"),
        "{ . /tmp/d/0001.cmd ; } > /tmp/d/0001.out 2>&1 ; echo $? > /tmp/d/0001.rc"
    );
    assert_eq!(
        send_line_command("n", "{ a ; }"),
        "tmux send-keys -t n -l '{ a ; }' && tmux send-keys -t n Enter"
    );
}

#[test]
fn wait_script_text() {
    let expected = format!(
        "if sleep 0.1 2>/dev/null; then s=0.1; else s=1; fi; i=0; \
         while [ ! -f {dir}/{token}.rc ]; do \
           i=$((i+1)); \
           if [ $((i % 100)) -eq 0 ] && ! tmux has-session -t {name} 2>/dev/null; then \
             echo 'agentssh: the remote shell ended while this command was running' >&2; \
             exit 254; \
           fi; \
           sleep $s; \
         done; \
         cat {dir}/{token}.out 2>/dev/null; exit $(cat {dir}/{token}.rc)",
        dir = "/tmp/agentssh.ab",
        token = "0003",
        name = "agentssh-ab"
    );
    assert_eq!(wait_script("/tmp/agentssh.ab", "0003", "agentssh-ab"), expected);
}

#[test]
fn lifecycle_commands() {
    assert_eq!(
        boot_command("/tmp/d", "n", 200, 50),
        "mkdir -p /tmp/d && chmod 700 /tmp/d && tmux new-session -d -s n -x 200 -y 50 \
         'if command -v bash >/dev/null 2>&1; then exec bash -l; else exec sh; fi'"
    );
    assert_eq!(teardown_command("n", "/tmp/d"), "tmux kill-session -t n 2>/dev/null; rm -rf /tmp/d");
    assert_eq!(has_session_command("n"), "tmux has-session -t n 2>/dev/null");
    assert_eq!(interrupt_command("n"), "tmux send-keys -t n C-c");
    assert_eq!(pane_command_query("n"), "tmux display-message -p -t n '#{pane_current_command}'");
    assert_eq!(cat_command("/tmp/d", "0001", "out"), "cat /tmp/d/0001.out 2>/dev/null");
    assert_eq!(rc_test_command("/tmp/d", "0001"), "test -f /tmp/d/0001.rc");
}

#[test]
fn lines_match_std() {
    for s in ["", "a", "a\n", "a\r\nb", "a\n\nb\n", "\n", "x\r", "a\rb\n", "\r\n"] {
        let ours: Vec<String> = lines(s).into_iter().map(|l| l.into_iter().collect()).collect();
        let std: Vec<String> = s.lines().map(|l| l.to_string()).collect();
        assert_eq!(ours, std, "input {s:?}");
    }
}

#[test]
fn prompt_block_echoes_lines() {
    assert_eq!(prompt_block(""), "\x1b[1;36m$\x1b[0m\n");
    assert_eq!(prompt_block("ls"), "\x1b[1;36m$\x1b[0m ls\n");
    assert_eq!(
        prompt_block("for x in 1 2\ndo echo $x\ndone"),
        "\x1b[1;36m$\x1b[0m for x in 1 2\n\x1b[1;36m>\x1b[0m do echo $x\n\x1b[1;36m>\x1b[0m done\n"
    );
}

#[test]
fn footers_only_for_failures() {
    assert_eq!(exit_marker(0), "exit 0");
    assert_eq!(exit_footer(0), None);
    assert_eq!(exit_footer(2).as_deref(), Some("\x1b[1;31m[exit 2]\x1b[0m\n"));
    assert_eq!(exit_footer(-1).as_deref(), Some("\x1b[1;31m[exit -1]\x1b[0m\n"));
    assert_eq!(timeout_banner(30), "\x1b[1;33m[timed out after 30s; sent SIGINT]\x1b[0m\n");
}
