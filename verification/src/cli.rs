//! The command line, as plain data: what each subcommand carries once its
//! arguments are parsed.

use vstd::prelude::*;

verus! {

/// The parsed command line.
#[derive(Clone, Debug)]
pub struct Cli {
    pub command: Command,
}

/// The subcommands.
#[derive(Clone, Debug)]
pub enum Command {
    /// Manage remote server contexts.
    Context(ContextCmd),
    /// Run a command in the context's persistent remote shell.
    Exec { context: String, timeout: Option<u64>, fresh: bool, command: Vec<String> },
    /// Manage the persistent remote shells that `exec` runs in.
    Shell(ShellCmd),
    /// Run a single command on its own connection, with no shell state.
    Run { context: String, timeout: Option<u64>, command: Vec<String> },
    /// Open an interactive shell session inside remote tmux.
    Connect { context: String, no_record_input: bool },
    /// Reattach a detached or dropped interactive session.
    Attach { session: String, no_record_input: bool },
    /// Inspect recorded sessions.
    Sessions(SessionsCmd),
    /// Serve the session playback web UI.
    Web { bind: String, port: u16, allow_remote: bool },
}

/// `shell` subcommands.
#[derive(Clone, Debug)]
pub enum ShellCmd {
    Start { context: String },
    List { all: bool },
    Interrupt { target: String },
    Stop { target: Option<String>, all: bool },
}

/// `context` subcommands.
#[derive(Clone, Debug)]
pub enum ContextCmd {
    Add {
        name: String,
        host: String,
        port: u16,
        user: String,
        key: Option<String>,
        agent: bool,
        host_key_policy: HostKeyPolicyArg,
    },
    List,
    Show { name: String },
    Remove { name: String },
}

/// `sessions` subcommands.
#[derive(Clone, Debug)]
pub enum SessionsCmd {
    List { context: Option<String>, active: bool, limit: usize },
    Show { session: String },
    Export { session: String, format: ExportFormat, output: Option<String> },
    Rm { session: String },
}

/// Formats a recording can be exported in.
#[derive(Copy, Clone, Debug, PartialEq, Eq, Structural)]
pub enum ExportFormat {
    Asciicast,
    Txt,
}

/// Host-key policies as the command line names them.
#[derive(Copy, Clone, Debug, PartialEq, Eq, Structural)]
pub enum HostKeyPolicyArg {
    Strict,
    AcceptNew,
}

} // verus!
