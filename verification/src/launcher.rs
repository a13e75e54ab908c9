//! The shell commands that open or attach to tmux and zellij sessions.

use vstd::prelude::*;
use vstd::string::StringExecFns;
use crate::shell_escape::{shell_escape, spec_shell_escape};
use crate::text::{chars_of, lemma_split_on_step, split_on, string_of_range, trim, trim_range};
use crate::detect::texts_of;

verus! {

/// A terminal multiplexer that sessions can be opened in.
pub trait MuxLauncher {
    /// The command `build_command` gives.
    spec fn command_text(&self, name: Seq<char>, cwd: Seq<char>, auto_attach: bool) -> Seq<char>;

    /// The command `build_inside_command` gives.
    spec fn inside_command_text(&self, name: Seq<char>, cwd: Seq<char>) -> Seq<char>;

    /// Whether a marker value means the process already runs inside this multiplexer.
    spec fn marks_inside(&self, marker: Option<Seq<char>>) -> bool;

    /// The shell command that creates the session `name` in `cwd`, or attaches
    /// to it when `auto_attach` is set and it exists.
    fn build_command(&self, name: &str, cwd: &str, auto_attach: bool) -> (r: String)
        ensures
            r@ == self.command_text(name@, cwd@, auto_attach),
    ;

    /// The shell command that opens `name` from inside a running session of
    /// this multiplexer.
    fn build_inside_command(&self, name: &str, cwd: &str) -> (r: String)
        ensures
            r@ == self.inside_command_text(name@, cwd@),
    ;

    /// The name `marker_var` gives.
    spec fn marker_name(&self) -> Seq<char>;

    /// The environment variable whose presence marks a running session.
    fn marker_var(&self) -> (r: &'static str)
        ensures
            r@ == self.marker_name(),
    ;

    /// Whether the process runs inside this multiplexer, given the value of
    /// `marker_var()` in the environment (`None` when unset).
    fn is_inside_session(&self, marker: Option<&str>) -> (b: bool)
        ensures
            b == self.marks_inside(
                match marker {
                    Some(m) => Some(m@),
                    None => None,
                },
            ),
    ;
}

/// Launches sessions in tmux.
#[derive(Debug, Clone)]
pub struct TmuxLauncher;

impl TmuxLauncher {
    /// The tmux launcher.
    pub fn new() -> Self {
        TmuxLauncher
    }
}

impl Default for TmuxLauncher {
    fn default() -> Self {
        TmuxLauncher
    }
}

/// The tmux command: `tmux new-session [-A] -s <name> -c <cwd>`, with both
/// values quoted; `-A` attaches to an existing session of that name.
pub open spec fn tmux_command(name: Seq<char>, cwd: Seq<char>, auto_attach: bool) -> Seq<char> {
    (if auto_attach {
        "tmux new-session -A -s "@
    } else {
        "tmux new-session -s "@
    }) + spec_shell_escape(name) + " -c "@ + spec_shell_escape(cwd)
}

/// From inside tmux: `tmux new-window -n <name> -c <cwd>`, values quoted.
pub open spec fn tmux_inside_command(name: Seq<char>, cwd: Seq<char>) -> Seq<char> {
    "tmux new-window -n "@ + spec_shell_escape(name) + " -c "@ + spec_shell_escape(cwd)
}

impl MuxLauncher for TmuxLauncher {
    open spec fn command_text(&self, name: Seq<char>, cwd: Seq<char>, auto_attach: bool) -> Seq<char> {
        tmux_command(name, cwd, auto_attach)
    }

    open spec fn inside_command_text(&self, name: Seq<char>, cwd: Seq<char>) -> Seq<char> {
        tmux_inside_command(name, cwd)
    }

    open spec fn marks_inside(&self, marker: Option<Seq<char>>) -> bool {
        marker is Some
    }

    open spec fn marker_name(&self) -> Seq<char> {
        "TMUX"@
    }

    fn build_command(&self, name: &str, cwd: &str, auto_attach: bool) -> (r: String) {
        let escaped_name = shell_escape(name);
        let escaped_cwd = shell_escape(cwd);
        let mut r = if auto_attach {
            "tmux new-session -A -s ".to_owned()
        } else {
            "tmux new-session -s ".to_owned()
        };
        r.append(escaped_name.as_str());
        r.append(" -c ");
        r.append(escaped_cwd.as_str());
        r
    }

    fn build_inside_command(&self, name: &str, cwd: &str) -> (r: String) {
        let escaped_name = shell_escape(name);
        let escaped_cwd = shell_escape(cwd);
        let mut r = "tmux new-window -n ".to_owned();
        r.append(escaped_name.as_str());
        r.append(" -c ");
        r.append(escaped_cwd.as_str());
        r
    }

    fn marker_var(&self) -> &'static str {
        "TMUX"
    }

    fn is_inside_session(&self, marker: Option<&str>) -> (b: bool) {
        marker.is_some()
    }
}

/// Launches sessions in zellij, with its IPC sockets in a short directory.
#[derive(Debug, Clone)]
pub struct ZellijLauncher {
    socket_dir: String,
}

/// The socket directory: `ZELLIJ_SOCKET_DIR` when set, else `/tmp/z`, short
/// enough that socket paths stay under zellij's 103-byte limit.
pub open spec fn spec_socket_dir(env_value: Option<Seq<char>>) -> Seq<char> {
    match env_value {
        Some(v) => v,
        None => "/tmp/z"@,
    }
}

/// The socket directory for a `ZELLIJ_SOCKET_DIR` value (`None` when unset).
pub fn socket_dir_from(env_value: Option<&str>) -> (r: String)
    ensures
        r@ == spec_socket_dir(
            match env_value {
                Some(v) => Some(v@),
                None => None,
            },
        ),
{
    match env_value {
        Some(v) => v.to_owned(),
        None => "/tmp/z".to_owned(),
    }
}

/// The zellij command: with `auto_attach`, `zellij attach <name> -c` (which
/// creates the session when missing); otherwise `zellij -s <name>`, which
/// cannot choose the working directory. Both run with `ZELLIJ_SOCKET_DIR` set.
pub open spec fn zellij_command(socket_dir: Seq<char>, name: Seq<char>, auto_attach: bool) -> Seq<char> {
    if auto_attach {
        "ZELLIJ_SOCKET_DIR="@ + spec_shell_escape(socket_dir) + " zellij attach "@ + spec_shell_escape(name) + " -c"@
    } else {
        "ZELLIJ_SOCKET_DIR="@ + spec_shell_escape(socket_dir) + " zellij -s "@ + spec_shell_escape(name)
    }
}

/// The note shown when a working directory is asked for but cannot be set.
pub open spec fn zellij_cwd_note() -> Seq<char> {
    "[codemux] Note: zellij cannot set CWD in non-auto-attach mode; using the current directory"@
}

impl ZellijLauncher {
    /// The zellij launcher with the default socket directory `/tmp/z`.
    pub fn new() -> (z: Self)
        ensures
            z.socket_dir_text() == spec_socket_dir(None),
    {
        ZellijLauncher { socket_dir: "/tmp/z".to_owned() }
    }

    /// The zellij launcher using `socket_dir` for its sockets.
    pub fn with_socket_dir(socket_dir: String) -> (z: Self)
        ensures
            z.socket_dir_text() == socket_dir@,
    {
        ZellijLauncher { socket_dir }
    }

    /// The socket directory of this launcher.
    pub closed spec fn socket_dir_text(&self) -> Seq<char> {
        self.socket_dir@
    }

    /// The socket directory of this launcher.
    pub fn socket_dir(&self) -> (r: &str)
        ensures
            r@ == self.socket_dir_text(),
    {
        self.socket_dir.as_str()
    }

    /// The note to show for a session opened without attaching: zellij then
    /// starts in the current directory, so a non-empty `cwd` is not honoured.
    pub fn cwd_note(&self, cwd: &str, auto_attach: bool) -> (r: Option<String>)
        ensures
            r matches Some(t) ==> t@ == zellij_cwd_note(),
            r is Some <==> (!auto_attach && cwd@.len() > 0),
    {
        if !auto_attach && !cwd.is_empty() {
            Some("[codemux] Note: zellij cannot set CWD in non-auto-attach mode; using the current directory".to_owned())
        } else {
            None
        }
    }
}

impl Default for ZellijLauncher {
    fn default() -> (z: Self)
        ensures
            z.socket_dir_text() == spec_socket_dir(None),
    {
        ZellijLauncher::new()
    }
}

impl MuxLauncher for ZellijLauncher {
    open spec fn command_text(&self, name: Seq<char>, cwd: Seq<char>, auto_attach: bool) -> Seq<char> {
        zellij_command(self.socket_dir_text(), name, auto_attach)
    }

    open spec fn inside_command_text(&self, name: Seq<char>, cwd: Seq<char>) -> Seq<char> {
        zellij_command(self.socket_dir_text(), name, true)
    }

    open spec fn marks_inside(&self, marker: Option<Seq<char>>) -> bool {
        false
    }

    open spec fn marker_name(&self) -> Seq<char> {
        "ZELLIJ"@
    }

    fn build_command(&self, name: &str, cwd: &str, auto_attach: bool) -> (r: String) {
        let escaped_name = shell_escape(name);
        let socket_dir = shell_escape(self.socket_dir.as_str());
        let mut r = "ZELLIJ_SOCKET_DIR=".to_owned();
        r.append(socket_dir.as_str());
        if auto_attach {
            r.append(" zellij attach ");
            r.append(escaped_name.as_str());
            r.append(" -c");
        } else {
            r.append(" zellij -s ");
            r.append(escaped_name.as_str());
        }
        r
    }

    fn build_inside_command(&self, name: &str, cwd: &str) -> (r: String) {
        self.build_command(name, cwd, true)
    }

    fn marker_var(&self) -> &'static str {
        "ZELLIJ"
    }

    fn is_inside_session(&self, marker: Option<&str>) -> (b: bool) {
        false
    }
}

/// The session names in a multiplexer's listing: each line trimmed, empty
/// lines dropped.
pub open spec fn listed_sessions(lines: Seq<Seq<char>>) -> Seq<Seq<char>>
    decreases lines.len(),
{
    if lines.len() == 0 {
        Seq::empty()
    } else if trim(lines.last()).len() == 0 {
        listed_sessions(lines.drop_last())
    } else {
        listed_sessions(lines.drop_last()).push(trim(lines.last()))
    }
}

/// Reads the session names from the output of `list-sessions`.
pub fn parse_session_list(stdout: &str) -> (r: Vec<String>)
    ensures
        texts_of(r@) == listed_sessions(split_on(stdout@, '\n')),
{
    let v = chars_of(stdout);
    let n = v.len();
    let mut out: Vec<String> = Vec::new();
    let mut start: usize = 0;
    let mut i: usize = 0;
    let ghost mut done: Seq<Seq<char>> = Seq::empty();
    assert(v@.take(0) == Seq::<char>::empty());
    assert(v@.subrange(0, 0) == Seq::<char>::empty());
    while i < n
        invariant
            n == v@.len(),
            start <= i <= n,
            split_on(v@.take(i as int), '\n') == done.push(v@.subrange(start as int, i as int)),
            texts_of(out@) == listed_sessions(done),
        decreases n - i,
    {
        proof {
            lemma_split_on_step(v@, '\n', i as int, done, start as int);
        }
        if v[i] == '\n' {
            let (a, b) = trim_range(&v, start, i);
            if a < b {
                out.push(string_of_range(&v, a, b));
            }
            proof {
                let piece = v@.subrange(start as int, i as int);
                assert(done.push(piece).drop_last() == done);
                assert(texts_of(out@) == listed_sessions(done.push(piece)));
                done = done.push(piece);
            }
            start = i + 1;
        }
        i += 1;
    }
    let (a, b) = trim_range(&v, start, n);
    if a < b {
        out.push(string_of_range(&v, a, b));
    }
    proof {
        let piece = v@.subrange(start as int, n as int);
        assert(done.push(piece).drop_last() == done);
        assert(v@.take(n as int) == v@);
    }
    out
}

/// How running a multiplexer's `list-sessions` went.
#[derive(Debug, Clone)]
pub enum ListRun {
    /// It ran to the end: whether it exited successfully, and what it printed.
    Finished { success: bool, stdout: String },
    /// The program was not found.
    NotFound,
    /// It could not be started for another reason, described by `message`.
    Failed { message: String },
}

/// The error for a `list-sessions` run of `program` that could not start.
pub open spec fn run_failure_message(program: Seq<char>, message: Seq<char>) -> Seq<char> {
    "Failed to run "@ + program + ": "@ + message
}

/// The sessions a `list-sessions` run of `program` reports. A successful run
/// lists them one per line; a failed run (no server, no sessions) and a
/// missing program both mean none; any other failure to start is an error.
pub fn sessions_from_run(program: &str, run: ListRun) -> (r: Result<Vec<String>, String>)
    ensures
        match run {
            ListRun::Finished { success, stdout } => r matches Ok(v) && (if success {
                texts_of(v@) == listed_sessions(split_on(stdout@, '\n'))
            } else {
                v@.len() == 0
            }),
            ListRun::NotFound => r matches Ok(v) && v@.len() == 0,
            ListRun::Failed { message } => r matches Err(e) && e@ == run_failure_message(program@, message@),
        },
{
    match run {
        ListRun::Finished { success, stdout } => {
            if success {
                Ok(parse_session_list(stdout.as_str()))
            } else {
                Ok(Vec::new())
            }
        },
        ListRun::NotFound => Ok(Vec::new()),
        ListRun::Failed { message } => {
            let mut e = "Failed to run ".to_owned();
            e.append(program);
            e.append(": ");
            e.append(message.as_str());
            Err(e)
        },
    }
}

} // verus!
