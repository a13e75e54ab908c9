//! Choosing tmux or zellij.

use vstd::prelude::*;
use crate::config::{Config, opt_text};
use crate::winpath::{push_windows, windows_push};
use crate::text::{
    ascii_lowercase, chars_of, equals_ignoring_ascii_case, push_char, range_equals, split_on, string_of_range,
    lemma_split_on_step,
};
use vstd::string::StringExecFns;

verus! {

/// The terminal multiplexers that can be launched.
#[derive(Debug, Clone, Copy, PartialEq, Eq, Structural)]
pub enum Multiplexer {
    Tmux,
    Zellij,
}

/// The multiplexer a name denotes, ignoring case.
pub open spec fn multiplexer_named(name: Seq<char>) -> Option<Multiplexer> {
    if ascii_lowercase(name) == "tmux"@ {
        Some(Multiplexer::Tmux)
    } else if ascii_lowercase(name) == "zellij"@ {
        Some(Multiplexer::Zellij)
    } else {
        None
    }
}

impl Multiplexer {
    /// Reads `tmux` or `zellij` in any letter case; any other name is `None`.
    /// (Only ASCII letters lowercase to the letters of these two names, so
    /// ASCII case folding agrees with full Unicode lowercasing here.)
    pub fn from_name(name: &str) -> (r: Option<Multiplexer>)
        ensures
            r == multiplexer_named(name@),
    {
        if equals_ignoring_ascii_case(name, "tmux") {
            Some(Multiplexer::Tmux)
        } else if equals_ignoring_ascii_case(name, "zellij") {
            Some(Multiplexer::Zellij)
        } else {
            None
        }
    }
}

/// The choice, in priority order: the `CODEMUX_MULTIPLEXER` value when it
/// names a multiplexer, then the configured one when it names one, then tmux
/// when found on `PATH`, then zellij when found there, else none.
pub open spec fn spec_detect(
    env_value: Option<Seq<char>>,
    config_value: Option<Seq<char>>,
    tmux_on_path: bool,
    zellij_on_path: bool,
) -> Option<Multiplexer> {
    if env_value is Some && multiplexer_named(env_value->0) is Some {
        multiplexer_named(env_value->0)
    } else if config_value is Some && multiplexer_named(config_value->0) is Some {
        multiplexer_named(config_value->0)
    } else if tmux_on_path {
        Some(Multiplexer::Tmux)
    } else if zellij_on_path {
        Some(Multiplexer::Zellij)
    } else {
        None
    }
}

/// Priorities of the choice: a valid `CODEMUX_MULTIPLEXER` value wins over
/// everything; otherwise a valid configured value wins over `PATH`; and on
/// `PATH` tmux wins over zellij.
pub proof fn lemma_detect_priorities(
    env_value: Option<Seq<char>>,
    config_value: Option<Seq<char>>,
    tmux_on_path: bool,
    zellij_on_path: bool,
)
    ensures
        env_value is Some && multiplexer_named(env_value->0) is Some ==> spec_detect(
            env_value,
            config_value,
            tmux_on_path,
            zellij_on_path,
        ) == multiplexer_named(env_value->0),
        (env_value is None || multiplexer_named(env_value->0) is None) && config_value is Some && multiplexer_named(
            config_value->0,
        ) is Some ==> spec_detect(env_value, config_value, tmux_on_path, zellij_on_path) == multiplexer_named(
            config_value->0,
        ),
        (env_value is None || multiplexer_named(env_value->0) is None) && (config_value is None || multiplexer_named(
            config_value->0,
        ) is None) && tmux_on_path ==> spec_detect(env_value, config_value, tmux_on_path, zellij_on_path) == Some(
            Multiplexer::Tmux,
        ),
        spec_detect(env_value, config_value, tmux_on_path, zellij_on_path) is None ==> !tmux_on_path
            && !zellij_on_path,
{
}

/// Chooses the multiplexer from the `CODEMUX_MULTIPLEXER` value, the
/// configuration and whether `tmux` and `zellij` were found on `PATH`.
pub fn detect_with_env_lookup(
    config: &Config,
    env_value: Option<&str>,
    tmux_on_path: bool,
    zellij_on_path: bool,
) -> (r: Option<Multiplexer>)
    ensures
        r == spec_detect(
            match env_value {
                Some(v) => Some(v@),
                None => None,
            },
            opt_text(config.multiplexer),
            tmux_on_path,
            zellij_on_path,
        ),
{
    if let Some(v) = env_value {
        if let Some(m) = Multiplexer::from_name(v) {
            return Some(m);
        }
    }
    if let Some(c) = &config.multiplexer {
        if let Some(m) = Multiplexer::from_name(c.as_str()) {
            return Some(m);
        }
    }
    if tmux_on_path {
        Some(Multiplexer::Tmux)
    } else if zellij_on_path {
        Some(Multiplexer::Zellij)
    } else {
        None
    }
}

/// `file` inside directory `dir` (`Path::join`): an absolute `file` stands
/// alone; otherwise a `/` is put between them unless `dir` is empty or ends in `/`.
pub open spec fn join_path(dir: Seq<char>, file: Seq<char>) -> Seq<char> {
    if file.len() > 0 && file[0] == '/' {
        file
    } else if dir.len() == 0 || dir.last() == '/' {
        dir + file
    } else {
        dir.push('/') + file
    }
}

/// For each non-empty directory, in order, the path of `binary` in it.
pub open spec fn probe_paths(dirs: Seq<Seq<char>>, binary: Seq<char>) -> Seq<Seq<char>>
    decreases dirs.len(),
{
    if dirs.len() == 0 {
        Seq::empty()
    } else if dirs.last().len() == 0 {
        probe_paths(dirs.drop_last(), binary)
    } else {
        probe_paths(dirs.drop_last(), binary).push(join_path(dirs.last(), binary))
    }
}

/// The texts of a list of strings.
pub open spec fn texts_of(v: Seq<String>) -> Seq<Seq<char>> {
    v.map_values(|s: String| s@)
}

fn joined_path(dirs: &Vec<char>, lo: usize, hi: usize, binary: &str) -> (r: String)
    requires
        lo <= hi <= dirs@.len(),
    ensures
        r@ == join_path(dirs@.subrange(lo as int, hi as int), binary@),
{
    let b = chars_of(binary);
    if b.len() > 0 && b[0] == '/' {
        return binary.to_owned();
    }
    let mut r = crate::text::string_of_range(dirs, lo, hi);
    if !(lo == hi || dirs[hi - 1] == '/') {
        push_char(&mut r, '/');
    }
    r.append(binary);
    r
}

/// `file` inside directory `dir` (`Path::join`).
pub fn join_path_str(dir: &str, file: &str) -> (r: String)
    ensures
        r@ == join_path(dir@, file@),
{
    let v = chars_of(dir);
    assert(v@.subrange(0, v@.len() as int) == v@);
    joined_path(&v, 0, v.len(), file)
}

/// The paths at which to look for `binary`, one for each non-empty entry of
/// the `sep`-separated search path, in order.
pub fn path_candidates(binary: &str, path_env: &str, sep: char) -> (r: Vec<String>)
    ensures
        texts_of(r@) == probe_paths(split_on(path_env@, sep), binary@),
{
    let v = chars_of(path_env);
    let n = v.len();
    let mut out: Vec<String> = Vec::new();
    let mut start: usize = 0;
    let mut i: usize = 0;
    let ghost mut done: Seq<Seq<char>> = Seq::empty();
    assert(v@.take(0) == Seq::<char>::empty());
    assert(v@.subrange(0, 0) == Seq::<char>::empty());
    while i < n
        invariant
            n == v@.len(),
            start <= i <= n,
            split_on(v@.take(i as int), sep) == done.push(v@.subrange(start as int, i as int)),
            texts_of(out@) == probe_paths(done, binary@),
        decreases n - i,
    {
        proof {
            lemma_split_on_step(v@, sep, i as int, done, start as int);
        }
        if v[i] == sep {
            if start < i {
                let p = joined_path(&v, start, i, binary);
                out.push(p);
            }
            proof {
                let piece = v@.subrange(start as int, i as int);
                assert(done.push(piece).drop_last() == done);
                assert(texts_of(out@) == probe_paths(done.push(piece), binary@));
                done = done.push(piece);
            }
            start = i + 1;
        }
        i += 1;
    }
    if start < n {
        let p = joined_path(&v, start, n, binary);
        out.push(p);
    }
    proof {
        let piece = v@.subrange(start as int, n as int);
        assert(done.push(piece).drop_last() == done);
        assert(v@.take(n as int) == v@);
    }
    out
}

/// Whether a program name already ends in `.exe`.
pub open spec fn has_exe_suffix(binary: Seq<char>) -> bool {
    binary.len() >= 4 && binary.subrange(binary.len() - 4, binary.len() as int) == ".exe"@
}

/// For each non-empty directory, in order, the paths at which Windows may
/// hold `binary`: first `binary` with `.exe` added (unless it already ends
/// in `.exe`), then `binary` itself.
pub open spec fn windows_probe_paths(dirs: Seq<Seq<char>>, binary: Seq<char>) -> Seq<Seq<char>>
    decreases dirs.len(),
{
    if dirs.len() == 0 {
        Seq::empty()
    } else if dirs.last().len() == 0 {
        windows_probe_paths(dirs.drop_last(), binary)
    } else if has_exe_suffix(binary) {
        windows_probe_paths(dirs.drop_last(), binary).push(windows_push(dirs.last(), binary))
    } else {
        windows_probe_paths(dirs.drop_last(), binary).push(windows_push(dirs.last(), binary + ".exe"@)).push(
            windows_push(dirs.last(), binary),
        )
    }
}

/// The paths at which to look for the program `binary` on Windows: for each
/// non-empty entry of the `;`-separated search path, in order, the `.exe`
/// file first (unless `binary` ends in `.exe`), then `binary`.
pub fn path_candidates_windows(binary: &str, path_env: &str) -> (r: Vec<String>)
    ensures
        texts_of(r@) == windows_probe_paths(split_on(path_env@, ';'), binary@),
{
    let b = chars_of(binary);
    let has_exe = b.len() >= 4 && range_equals(&b, b.len() - 4, b.len(), ".exe");
    let mut with_exe = binary.to_owned();
    with_exe.append(".exe");
    let v = chars_of(path_env);
    let n = v.len();
    let mut out: Vec<String> = Vec::new();
    let mut start: usize = 0;
    let mut i: usize = 0;
    let ghost mut done: Seq<Seq<char>> = Seq::empty();
    assert(v@.take(0) == Seq::<char>::empty());
    assert(v@.subrange(0, 0) == Seq::<char>::empty());
    while i < n
        invariant
            n == v@.len(),
            start <= i <= n,
            split_on(v@.take(i as int), ';') == done.push(v@.subrange(start as int, i as int)),
            texts_of(out@) == windows_probe_paths(done, binary@),
            has_exe == has_exe_suffix(binary@),
            with_exe@ == binary@ + ".exe"@,
        decreases n - i,
    {
        proof {
            lemma_split_on_step(v@, ';', i as int, done, start as int);
        }
        if v[i] == ';' {
            let ghost piece = v@.subrange(start as int, i as int);
            if start < i {
                let dir = string_of_range(&v, start, i);
                if !has_exe {
                    out.push(push_windows(dir.as_str(), with_exe.as_str()));
                }
                out.push(push_windows(dir.as_str(), binary));
            }
            proof {
                assert(done.push(piece).drop_last() == done);
                assert(done.push(piece).last() == piece);
                assert(texts_of(out@) == windows_probe_paths(done.push(piece), binary@));
                done = done.push(piece);
            }
            start = i + 1;
        }
        i += 1;
    }
    let ghost piece = v@.subrange(start as int, n as int);
    if start < n {
        let dir = string_of_range(&v, start, n);
        if !has_exe {
            out.push(push_windows(dir.as_str(), with_exe.as_str()));
        }
        out.push(push_windows(dir.as_str(), binary));
    }
    proof {
        assert(done.push(piece).drop_last() == done);
        assert(done.push(piece).last() == piece);
        assert(texts_of(out@) == windows_probe_paths(done.push(piece), binary@));
        assert(v@.take(n as int) == v@);
    }
    out
}

} // verus!
