# agentssh

Audited SSH sessions for AI agents: remote servers are named contexts, every
session is recorded as an asciicast v2 file, and session metadata lives in a
local SQLite database.

## Layout

- `src/` is the verified library. Each public function states what it
  returns in its `ensures`, and the `law_*` proof functions state what holds
  across calls:
  - `config`: contexts, the contexts file as a sorted map, the `context`
    subcommands and their report;
  - `quoting`: quoting argv into one remote command line, with the proof that
    a POSIX shell splits it back into exactly the arguments;
  - `recording`: what goes into a recording (LF to CR LF conversion across
    chunks and over any run of writes, text the tool writes itself) and the
    plain-text transcript with
    escape sequences stripped;
  - `remote`: the tmux and shell command lines run on the remote host;
  - `session`: the decisions between remote calls (reconnect backoff, how a
    segment ended, whether a shell is busy) and the listings;
  - `handler`: the host-key verdict;
  - `store`, `exec`, `web`, `text`, `cli`: session ids and store queries,
    exit codes and captured output, the web UI's rows, string helpers, and the
    command-line commands.
- `app/` is the program around it: argument parsing, SSH, SQLite, files,
  terminal handling and the web server.
- `tests/` runs the library on concrete values.
