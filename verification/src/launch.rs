//! Decisions the launcher takes from its environment, configuration and
//! arguments: which session to open, whether to attach, which shell to fall
//! back to, what to run.

use vstd::prelude::*;
use vstd::string::StringExecFns;
use crate::config::Config;
use crate::launcher::MuxLauncher;
use crate::winpath::{file_name_windows, windows_file_name};
use crate::sanitize::{get_unique_session_name, is_unique_choice, names_of, session_exists};
use crate::text::{
    ascii_lowercase, chars_of, equals_ignoring_ascii_case, lemma_split_on_step, range_equals, split_on,
    string_of_range, push_char, str_equals,
};

verus! {

/// The text of an optional string slice.
pub open spec fn opt_str(o: Option<&str>) -> Option<Seq<char>> {
    match o {
        Some(s) => Some(s@),
        None => None,
    }
}

/// Debug output is on exactly when `CODEMUX_DEBUG` is `1`.
pub fn debug_enabled(value: Option<&str>) -> (b: bool)
    ensures
        b == (opt_str(value) == Some("1"@)),
{
    match value {
        Some(v) => str_equals(v, "1"),
        None => false,
    }
}


/// Whether to attach to an existing session: the `CODEMUX_AUTO_ATTACH` value
/// when set (`true` in any letter case means yes, anything else no), else the
/// configured value, else yes.
pub open spec fn spec_auto_attach(env_value: Option<Seq<char>>, configured: Option<bool>) -> bool {
    match env_value {
        Some(v) => ascii_lowercase(v) == "true"@,
        None => match configured {
            Some(c) => c,
            None => true,
        },
    }
}

/// Resolves the attach setting: environment over configuration over the
/// default (attach).
pub fn resolve_auto_attach(env_value: Option<&str>, config: &Config) -> (b: bool)
    ensures
        b == spec_auto_attach(opt_str(env_value), config.auto_attach),
{
    if let Some(v) = env_value {
        return equals_ignoring_ascii_case(v, "true");
    }
    if let Some(c) = config.auto_attach {
        return c;
    }
    true
}

/// The environment overrides the configuration, which overrides the default
/// of attaching.
pub proof fn lemma_auto_attach_priorities(env_value: Option<Seq<char>>, configured: Option<bool>)
    ensures
        env_value is Some ==> spec_auto_attach(env_value, configured) == (ascii_lowercase(env_value->0) == "true"@),
        env_value is None && configured is Some ==> spec_auto_attach(env_value, configured) == configured->0,
        env_value is None && configured is None ==> spec_auto_attach(env_value, configured),
{
}

/// The last path component that is neither empty nor `.`, if any.
pub open spec fn last_component(pieces: Seq<Seq<char>>) -> Option<Seq<char>>
    decreases pieces.len(),
{
    if pieces.len() == 0 {
        None
    } else if pieces.last().len() == 0 || pieces.last() == seq!['.'] {
        last_component(pieces.drop_last())
    } else {
        Some(pieces.last())
    }
}

/// The final component of a `/`-separated path (`Path::file_name`): none for
/// the root, `.`, or a path ending in `..`.
pub open spec fn spec_file_name(path: Seq<char>) -> Option<Seq<char>> {
    match last_component(split_on(path, '/')) {
        Some(c) => if c == seq!['.', '.'] {
            None
        } else {
            Some(c)
        },
        None => None,
    }
}

/// The workspace name of a directory: its final component, or `session`.
pub open spec fn spec_base_name(path: Seq<char>) -> Seq<char> {
    match spec_file_name(path) {
        Some(c) => c,
        None => "session"@,
    }
}

/// The base name of a path (its last component), `session` when it has none.
pub fn get_base_name(path: &str) -> (r: String)
    ensures
        r@ == spec_base_name(path@),
{
    let v = chars_of(path);
    let n = v.len();
    let mut start: usize = 0;
    let mut i: usize = 0;
    let mut last: Option<(usize, usize)> = None;
    let ghost mut done: Seq<Seq<char>> = Seq::empty();
    assert(v@.take(0) == Seq::<char>::empty());
    assert(v@.subrange(0, 0) == Seq::<char>::empty());
    assert("."@ == seq!['.']) by {
        reveal_strlit(".");
    }
    assert(".."@ == seq!['.', '.']) by {
        reveal_strlit("..");
    }
    while i < n
        invariant
            n == v@.len(),
            "."@ == seq!['.'],
            start <= i <= n,
            split_on(v@.take(i as int), '/') == done.push(v@.subrange(start as int, i as int)),
            match last {
                Some((a, b)) => a <= b <= n && last_component(done) == Some(v@.subrange(a as int, b as int)),
                None => last_component(done) is None,
            },
        decreases n - i,
    {
        proof {
            lemma_split_on_step(v@, '/', i as int, done, start as int);
        }
        if v[i] == '/' {
            let ghost piece = v@.subrange(start as int, i as int);
            if start < i && !range_equals(&v, start, i, ".") {
                last = Some((start, i));
            }
            proof {
                assert(done.push(piece).drop_last() == done);
                assert(done.push(piece).last() == piece);
                done = done.push(piece);
            }
            start = i + 1;
        }
        i += 1;
    }
    if start < n && !range_equals(&v, start, n, ".") {
        last = Some((start, n));
    }
    proof {
        let piece = v@.subrange(start as int, n as int);
        assert(done.push(piece).drop_last() == done);
        assert(v@.take(n as int) == v@);
        assert(split_on(path@, '/') == done.push(piece));
    }
    match last {
        Some((a, b)) => {
            if range_equals(&v, a, b, "..") {
                "session".to_owned()
            } else {
                string_of_range(&v, a, b)
            }
        },
        None => "session".to_owned(),
    }
}

/// The workspace name of a Windows directory: its final component, or
/// `session`.
pub open spec fn spec_base_name_windows(path: Seq<char>) -> Seq<char> {
    match windows_file_name(path) {
        Some(c) => c,
        None => "session"@,
    }
}

/// The base name of a Windows path (its last component, with `\` and `/`
/// both separating), `session` when it has none.
pub fn get_base_name_windows(path: &str) -> (r: String)
    ensures
        r@ == spec_base_name_windows(path@),
{
    match file_name_windows(path) {
        Some(name) => name,
        None => "session".to_owned(),
    }
}

/// The shell used when no multiplexer is available: `$SHELL`, else `/bin/sh`.
pub fn decide_fallback_shell(shell: Option<&str>) -> (r: String)
    ensures
        r@ == match opt_str(shell) {
            Some(s) => s,
            None => "/bin/sh"@,
        },
{
    match shell {
        Some(s) => s.to_owned(),
        None => "/bin/sh".to_owned(),
    }
}

/// The shell used on Windows when no multiplexer is available: `%COMSPEC%`,
/// else `cmd.exe`.
pub fn decide_fallback_shell_windows(comspec: Option<&str>) -> (r: String)
    ensures
        r@ == match opt_str(comspec) {
            Some(s) => s,
            None => "cmd.exe"@,
        },
{
    match comspec {
        Some(s) => s.to_owned(),
        None => "cmd.exe".to_owned(),
    }
}

/// The session to open. When attaching: the session named `base_name` if it
/// exists, else the one named by the untruncated `full_sanitized` name if that
/// differs and exists, else a fresh unique name. Otherwise always a fresh
/// unique name.
pub open spec fn spec_resolve_session_name(
    base_name: Seq<char>,
    full_sanitized: Seq<char>,
    names: Seq<Seq<char>>,
    auto_attach: bool,
    r: Seq<char>,
) -> bool {
    if auto_attach && names.contains(base_name) {
        r == base_name
    } else if auto_attach && full_sanitized != base_name && names.contains(full_sanitized) {
        r == full_sanitized
    } else {
        is_unique_choice(base_name, names, r)
    }
}

/// Chooses the session name from the existing sessions and the attach mode.
pub fn resolve_session_name(
    base_name: &str,
    full_sanitized: &str,
    sessions: &[String],
    auto_attach: bool,
) -> (r: String)
    ensures
        spec_resolve_session_name(base_name@, full_sanitized@, names_of(sessions@), auto_attach, r@),
{
    let base = base_name.to_owned();
    let full = full_sanitized.to_owned();
    let full_matches = !str_equals(full_sanitized, base_name) && session_exists(sessions, &full);
    if auto_attach {
        if session_exists(sessions, &base) {
            base
        } else if full_matches {
            full
        } else {
            get_unique_session_name(base_name, sessions)
        }
    } else {
        get_unique_session_name(base_name, sessions)
    }
}

/// Attaching never invents a name that is taken, and not attaching always
/// gives a name no session has.
pub proof fn lemma_resolved_name_fresh_or_existing(
    base_name: Seq<char>,
    full_sanitized: Seq<char>,
    names: Seq<Seq<char>>,
    auto_attach: bool,
    r: Seq<char>,
)
    requires
        spec_resolve_session_name(base_name, full_sanitized, names, auto_attach, r),
    ensures
        !auto_attach ==> !names.contains(r),
        auto_attach ==> (names.contains(r) ==> (r == base_name || r == full_sanitized)),
{
    if !(auto_attach && names.contains(base_name)) && !(auto_attach && full_sanitized != base_name
        && names.contains(full_sanitized)) {
        if names.contains(base_name) {
            let k = choose|k: nat|
                #![trigger crate::sanitize::numbered_name(base_name, k)]
                k >= 2 && r == crate::sanitize::numbered_name(base_name, k) && !names.contains(r) && forall|j: nat|
                    2 <= j < k ==> names.contains(#[trigger] crate::sanitize::numbered_name(base_name, j));
        }
    }
}

/// What the launcher runs. Inside a running session of the multiplexer: a
/// new window named `base_name`, and no session is chosen. Otherwise: the
/// session that `resolve_session_name` picks among `sessions`, and the
/// command that opens it in `cwd`.
pub fn launch_command<L: MuxLauncher>(
    launcher: &L,
    inside: bool,
    base_name: &str,
    full_sanitized: &str,
    sessions: &[String],
    cwd: &str,
    auto_attach: bool,
) -> (r: (Option<String>, String))
    ensures
        inside ==> r.0 is None && r.1@ == launcher.inside_command_text(base_name@, cwd@),
        !inside ==> (r.0 matches Some(name) && spec_resolve_session_name(
            base_name@,
            full_sanitized@,
            names_of(sessions@),
            auto_attach,
            name@,
        ) && r.1@ == launcher.command_text(name@, cwd@, auto_attach)),
{
    if inside {
        (None, launcher.build_inside_command(base_name, cwd))
    } else {
        let name = resolve_session_name(base_name, full_sanitized, sessions, auto_attach);
        let command = launcher.build_command(name.as_str(), cwd, auto_attach);
        (Some(name), command)
    }
}

/// The words joined with single spaces.
pub open spec fn join_with_spaces(words: Seq<Seq<char>>) -> Seq<char>
    decreases words.len(),
{
    if words.len() == 0 {
        Seq::empty()
    } else if words.len() == 1 {
        words[0]
    } else {
        join_with_spaces(words.drop_last()).push(' ') + words.last()
    }
}

/// The command line run by the shell: the command, then the extra arguments
/// separated by spaces.
pub open spec fn spec_full_command(command: Seq<char>, args: Seq<Seq<char>>) -> Seq<char> {
    if args.len() == 0 {
        command
    } else {
        command.push(' ') + join_with_spaces(args)
    }
}

/// The arguments joined with single spaces (`args.join(" ")`).
pub fn join_args(args: &[String]) -> (r: String)
    ensures
        r@ == join_with_spaces(names_of(args@)),
{
    let mut r = String::new();
    let n = args.len();
    let mut i: usize = 0;
    while i < n
        invariant
            n == args@.len(),
            i <= n,
            r@ == join_with_spaces(names_of(args@).take(i as int)),
        decreases n - i,
    {
        let ghost before = r@;
        if i > 0 {
            push_char(&mut r, ' ');
        }
        r.append(args[i].as_str());
        proof {
            let w = names_of(args@);
            assert(w.take(i + 1).drop_last() == w.take(i as int));
            assert(w.take(i + 1).last() == args@[i as int]@);
            if i == 0 {
                assert(w.take(1)[0] == args@[0]@);
                assert(Seq::<char>::empty() + args@[0]@ == args@[0]@);
            }
        }
        i += 1;
    }
    assert(names_of(args@).take(n as int) == names_of(args@));
    r
}

/// The full command line: `command` alone, or followed by a space and the
/// extra arguments joined with spaces.
pub fn build_full_command(command: &str, args: &[String]) -> (r: String)
    ensures
        r@ == spec_full_command(command@, names_of(args@)),
{
    let mut r = command.to_owned();
    if args.len() > 0 {
        push_char(&mut r, ' ');
        let rest = join_args(args);
        r.append(rest.as_str());
    }
    r
}


/// What the command line asks for.
#[derive(Debug, Clone, Copy, PartialEq, Eq, Structural)]
pub enum CliAction {
    /// `-v`, `--version`, `-V`: print the version.
    ShowVersion,
    /// `--check-version`: print the latest released version.
    CheckVersion,
    /// `--upgrade`, with `--check` (only report) and `--yes` (do not ask)
    /// anywhere among the arguments.
    Upgrade { check_only: bool, yes: bool },
    /// `-h`, `--help`, `-?`: print the help.
    ShowHelp,
    /// `--init`: write the default configuration file.
    Init,
    /// No flag: open the terminal; the arguments go to the shell.
    Launch,
}

/// The action one argument asks for, if it is a flag.
pub open spec fn flag_action(arg: Seq<char>, args: Seq<Seq<char>>) -> Option<CliAction> {
    if arg == "-v"@ || arg == "--version"@ || arg == "-V"@ {
        Some(CliAction::ShowVersion)
    } else if arg == "--check-version"@ {
        Some(CliAction::CheckVersion)
    } else if arg == "--upgrade"@ {
        Some(CliAction::Upgrade { check_only: args.contains("--check"@), yes: args.contains("--yes"@) })
    } else if arg == "-h"@ || arg == "--help"@ || arg == "-?"@ {
        Some(CliAction::ShowHelp)
    } else if arg == "--init"@ {
        Some(CliAction::Init)
    } else {
        None
    }
}

/// The action of the first flag at or after position `i`, else `Launch`.
pub open spec fn cli_action_from(args: Seq<Seq<char>>, i: int) -> CliAction
    decreases args.len() - i,
{
    if i < 0 || i >= args.len() {
        CliAction::Launch
    } else {
        match flag_action(args[i], args) {
            Some(a) => a,
            None => cli_action_from(args, i + 1),
        }
    }
}

/// The flags the program documents: `-v`, `--version`, `-V`,
/// `--check-version`, `--upgrade`, `-h`, `--help`, `-?` and `--init`.
pub open spec fn is_documented_flag(a: Seq<char>) -> bool {
    ||| a == seq!['-', 'v']
    ||| a == seq!['-', '-', 'v', 'e', 'r', 's', 'i', 'o', 'n']
    ||| a == seq!['-', 'V']
    ||| a == seq!['-', '-', 'c', 'h', 'e', 'c', 'k', '-', 'v', 'e', 'r', 's', 'i', 'o', 'n']
    ||| a == seq!['-', '-', 'u', 'p', 'g', 'r', 'a', 'd', 'e']
    ||| a == seq!['-', 'h']
    ||| a == seq!['-', '-', 'h', 'e', 'l', 'p']
    ||| a == seq!['-', '?']
    ||| a == seq!['-', '-', 'i', 'n', 'i', 't']
}

proof fn lemma_flag_texts()
    ensures
        "-v"@ == seq!['-', 'v'],
        "--version"@ == seq!['-', '-', 'v', 'e', 'r', 's', 'i', 'o', 'n'],
        "-V"@ == seq!['-', 'V'],
        "--check-version"@ == seq!['-', '-', 'c', 'h', 'e', 'c', 'k', '-', 'v', 'e', 'r', 's', 'i', 'o', 'n'],
        "--upgrade"@ == seq!['-', '-', 'u', 'p', 'g', 'r', 'a', 'd', 'e'],
        "-h"@ == seq!['-', 'h'],
        "--help"@ == seq!['-', '-', 'h', 'e', 'l', 'p'],
        "-?"@ == seq!['-', '?'],
        "--init"@ == seq!['-', '-', 'i', 'n', 'i', 't'],
        "--check"@ == seq!['-', '-', 'c', 'h', 'e', 'c', 'k'],
        "--yes"@ == seq!['-', '-', 'y', 'e', 's'],
{
    reveal_strlit("-v");
    reveal_strlit("--version");
    reveal_strlit("-V");
    reveal_strlit("--check-version");
    reveal_strlit("--upgrade");
    reveal_strlit("-h");
    reveal_strlit("--help");
    reveal_strlit("-?");
    reveal_strlit("--init");
    reveal_strlit("--check");
    reveal_strlit("--yes");
}

/// Arguments before the first documented flag do not matter.
proof fn lemma_skip_to_flag(args: Seq<Seq<char>>, i: int)
    requires
        0 <= i <= args.len(),
        forall|j: int| 0 <= j < i ==> !is_documented_flag(#[trigger] args[j]),
    ensures
        cli_action_from(args, 0) == cli_action_from(args, i),
    decreases i,
{
    if i > 0 {
        lemma_skip_to_flag(args, i - 1);
        lemma_flag_texts();
        assert(!is_documented_flag(args[i - 1]));
        assert(flag_action(args[i - 1], args) is None);
    }
}

/// The first documented flag decides what the program does, whatever stands
/// before or after it: `-h`, `--help` or `-?` shows the help; `-v`,
/// `--version` or `-V` the version; `--check-version` checks the latest
/// release; `--init` writes the configuration; `--upgrade` upgrades, only
/// reporting when `--check` is among the arguments and without asking when
/// `--yes` is.
pub proof fn lemma_first_flag_decides(args: Seq<Seq<char>>, i: int)
    requires
        0 <= i < args.len(),
        forall|j: int| 0 <= j < i ==> !is_documented_flag(#[trigger] args[j]),
    ensures
        args[i] == seq!['-', 'h'] || args[i] == seq!['-', '-', 'h', 'e', 'l', 'p'] || args[i] == seq!['-', '?']
            ==> cli_action_from(args, 0) == CliAction::ShowHelp,
        args[i] == seq!['-', 'v'] || args[i] == seq!['-', '-', 'v', 'e', 'r', 's', 'i', 'o', 'n'] || args[i] == seq![
            '-',
            'V',
        ] ==> cli_action_from(args, 0) == CliAction::ShowVersion,
        args[i] == seq!['-', '-', 'c', 'h', 'e', 'c', 'k', '-', 'v', 'e', 'r', 's', 'i', 'o', 'n'] ==> cli_action_from(
            args,
            0,
        ) == CliAction::CheckVersion,
        args[i] == seq!['-', '-', 'i', 'n', 'i', 't'] ==> cli_action_from(args, 0) == CliAction::Init,
        args[i] == seq!['-', '-', 'u', 'p', 'g', 'r', 'a', 'd', 'e'] ==> cli_action_from(args, 0) == (CliAction::Upgrade {
            check_only: args.contains(seq!['-', '-', 'c', 'h', 'e', 'c', 'k']),
            yes: args.contains(seq!['-', '-', 'y', 'e', 's']),
        }),
{
    lemma_skip_to_flag(args, i);
    lemma_flag_texts();
}

/// Without any documented flag the program launches, handing every argument
/// on to the shell.
pub proof fn lemma_no_flag_launches(args: Seq<Seq<char>>)
    requires
        forall|j: int| 0 <= j < args.len() ==> !is_documented_flag(#[trigger] args[j]),
    ensures
        cli_action_from(args, 0) == CliAction::Launch,
{
    lemma_skip_to_flag(args, args.len() as int);
}

/// Whether some argument is exactly `lit`.
fn has_arg(args: &[String], lit: &str) -> (b: bool)
    ensures
        b == names_of(args@).contains(lit@),
{
    let n = args.len();
    let mut i: usize = 0;
    while i < n
        invariant
            n == args@.len(),
            i <= n,
            forall|j: int| 0 <= j < i ==> args@[j]@ != lit@,
        decreases n - i,
    {
        if str_equals(args[i].as_str(), lit) {
            assert(names_of(args@)[i as int] == lit@);
            return true;
        }
        i += 1;
    }
    assert forall|j: int| 0 <= j < names_of(args@).len() implies names_of(args@)[j] != lit@ by {
        assert(names_of(args@)[j] == args@[j]@);
    }
    false
}

/// The action the first flag among the arguments asks for; `Launch` when
/// there is no flag.
pub fn parse_cli_action(args: &[String]) -> (r: CliAction)
    ensures
        r == cli_action_from(names_of(args@), 0),
{
    let ghost w = names_of(args@);
    let n = args.len();
    let mut i: usize = 0;
    while i < n
        invariant
            n == args@.len(),
            w == names_of(args@),
            i <= n,
            cli_action_from(w, 0) == cli_action_from(w, i as int),
        decreases n - i,
    {
        let a = args[i].as_str();
        assert(w[i as int] == a@);
        if str_equals(a, "-v") || str_equals(a, "--version") || str_equals(a, "-V") {
            return CliAction::ShowVersion;
        } else if str_equals(a, "--check-version") {
            return CliAction::CheckVersion;
        } else if str_equals(a, "--upgrade") {
            let check_only = has_arg(args, "--check");
            let yes = has_arg(args, "--yes");
            return CliAction::Upgrade { check_only, yes };
        } else if str_equals(a, "-h") || str_equals(a, "--help") || str_equals(a, "-?") {
            return CliAction::ShowHelp;
        } else if str_equals(a, "--init") {
            return CliAction::Init;
        }
        i += 1;
    }
    CliAction::Launch
}

} // verus!
