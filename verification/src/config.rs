//! The configuration file: a lenient reader of `key = value` lines.

use vstd::prelude::*;
use crate::detect::{join_path, join_path_str};
use crate::winpath::{push_windows, windows_push};
use crate::text::{
    chars_of, find_char, is_char, lemma_split_on_append, lemma_split_on_concat, lemma_split_on_pieces_avoid, lemma_next_index_bounds,
    lemma_next_index_is, lemma_strip_end_shape, lemma_strip_start_shape, strip_start, whitespace, lemma_split_on_step, next_index,
    range_equals, split_on, string_of_range, strip_both, strip_char_range, trim, trim_range,
};

verus! {

/// Settings read from the configuration file.
#[derive(Debug, PartialEq)]
pub struct Config {
    /// Preferred multiplexer: "tmux" or "zellij".
    pub multiplexer: Option<String>,
    /// Whether to attach to an existing session of the same name.
    pub auto_attach: Option<bool>,
}

/// The text of an optional `String`.
pub open spec fn opt_text(o: Option<String>) -> Option<Seq<char>> {
    match o {
        Some(s) => Some(s@),
        None => None,
    }
}

impl View for Config {
    type V = (Option<Seq<char>>, Option<bool>);

    open spec fn view(&self) -> (Option<Seq<char>>, Option<bool>) {
        (opt_text(self.multiplexer), self.auto_attach)
    }
}

impl Default for Config {
    fn default() -> (c: Self)
        ensures
            c@ == (None::<Seq<char>>, None::<bool>),
    {
        Config { multiplexer: None, auto_attach: None }
    }
}

/// The configuration file written by `--init`.
pub const DEFAULT_CONFIG_CONTENT: &'static str = r#"# CodeMux configuration file
# Location: ~/.config/codemux/config.toml

# Preferred multiplexer: "tmux" or "zellij"
# If not set, codemux will auto-detect from PATH (prefers tmux if both available)
multiplexer = "tmux"

# Whether to auto-attach to existing sessions
# true = attach to existing session with same name if it exists
# false = always create a new session with unique name
auto_attach = true
"#;

/// A line up to its first `#`.
pub open spec fn before_comment(line: Seq<char>) -> Seq<char> {
    line.take(next_index(line, '#', 0))
}

/// A value without surrounding `"` and then without surrounding `'`.
pub open spec fn strip_quotes(value: Seq<char>) -> Seq<char> {
    strip_both(strip_both(value, is_char('"')), is_char('\''))
}

/// The values read as `true`.
pub open spec fn is_true_word(v: Seq<char>) -> bool {
    v == "true"@ || v == "yes"@ || v == "1"@
}

/// The values read as `false`.
pub open spec fn is_false_word(v: Seq<char>) -> bool {
    v == "false"@ || v == "no"@ || v == "0"@
}

/// The settings after one more line: the text before `#`, trimmed, split at
/// its first `=` into a trimmed key and value. `multiplexer` takes the value
/// without quotes when that is non-empty; `auto_attach` takes a true or false
/// word; anything else leaves the settings as they were.
pub open spec fn apply_config_line(
    cfg: (Option<Seq<char>>, Option<bool>),
    raw: Seq<char>,
) -> (Option<Seq<char>>, Option<bool>) {
    let line = trim(before_comment(raw));
    let eq = next_index(line, '=', 0);
    if line.len() == 0 || eq >= line.len() {
        cfg
    } else {
        let key = trim(line.take(eq));
        let value = trim(line.skip(eq + 1));
        if key == "multiplexer"@ {
            let cleaned = strip_quotes(value);
            if cleaned.len() > 0 {
                (Some(cleaned), cfg.1)
            } else {
                cfg
            }
        } else if key == "auto_attach"@ {
            if is_true_word(value) {
                (cfg.0, Some(true))
            } else if is_false_word(value) {
                (cfg.0, Some(false))
            } else {
                cfg
            }
        } else {
            cfg
        }
    }
}

/// The settings after all the lines, in order, starting from no settings.
pub open spec fn config_from_lines(lines: Seq<Seq<char>>) -> (Option<Seq<char>>, Option<bool>)
    decreases lines.len(),
{
    if lines.len() == 0 {
        (None, None)
    } else {
        apply_config_line(config_from_lines(lines.drop_last()), lines.last())
    }
}

/// The settings a configuration text gives: its `\n`-separated lines applied
/// in order. (A `\r` before `\n` is whitespace and goes with the trimming.)
pub open spec fn spec_parse_config(contents: Seq<char>) -> (Option<Seq<char>>, Option<bool>) {
    config_from_lines(split_on(contents, '\n'))
}

/// Lines are applied in order: the settings of a text followed by one more
/// line are those of the text with that line applied, so a later line
/// overrides an earlier one.
pub proof fn lemma_parse_config_appended_line(s: Seq<char>, line: Seq<char>)
    requires
        forall|k: int| 0 <= k < line.len() ==> line[k] != '\n',
    ensures
        spec_parse_config(s.push('\n') + line) == apply_config_line(spec_parse_config(s), line),
{
    lemma_split_on_append(s, '\n', line);
    assert(split_on(s, '\n').push(line).drop_last() == split_on(s, '\n'));
}

/// A line whose first character is `#` changes nothing.
pub proof fn lemma_comment_line_ignored(s: Seq<char>, line: Seq<char>)
    requires
        forall|k: int| 0 <= k < line.len() ==> line[k] != '\n',
        line.len() > 0,
        line[0] == '#',
    ensures
        spec_parse_config(s.push('\n') + line) == spec_parse_config(s),
{
    lemma_parse_config_appended_line(s, line);
    assert(next_index(line, '#', 0) == 0);
    assert(before_comment(line) == Seq::<char>::empty());
    assert(trim(Seq::<char>::empty()) == Seq::<char>::empty());
}

/// A line that sets nothing: cut at its first `#` and trimmed, it is empty,
/// holds no `=`, or its key is neither `multiplexer` nor `auto_attach`.
pub open spec fn is_inert_line(raw: Seq<char>) -> bool {
    let line = trim(before_comment(raw));
    let eq = next_index(line, '=', 0);
    line.len() == 0 || eq >= line.len() || (trim(line.take(eq)) != "multiplexer"@ && trim(line.take(eq))
        != "auto_attach"@)
}

proof fn lemma_inert_lines(lines: Seq<Seq<char>>, extra: Seq<Seq<char>>)
    requires
        forall|i: int| 0 <= i < extra.len() ==> is_inert_line(#[trigger] extra[i]),
    ensures
        config_from_lines(lines + extra) == config_from_lines(lines),
    decreases extra.len(),
{
    if extra.len() == 0 {
        assert(lines + extra =~= lines);
    } else {
        let d = extra.drop_last();
        assert forall|i: int| 0 <= i < d.len() implies is_inert_line(#[trigger] d[i]) by {
            assert(d[i] == extra[i]);
        }
        lemma_inert_lines(lines, d);
        assert((lines + extra).drop_last() =~= lines + d);
        assert((lines + extra).last() == extra[extra.len() - 1]);
        assert(is_inert_line(extra[extra.len() - 1]));
    }
}

/// Lines that set nothing change nothing: a text followed by any further
/// lines, none of which assigns `multiplexer` or `auto_attach` (unknown keys,
/// comments, blank lines, lines without `=`), gives the settings of the text
/// alone.
pub proof fn lemma_inert_lines_ignored(contents: Seq<char>, extra: Seq<char>)
    requires
        forall|i: int|
            0 <= i < split_on(extra, '\n').len() ==> is_inert_line(#[trigger] split_on(extra, '\n')[i]),
    ensures
        spec_parse_config(contents.push('\n') + extra) == spec_parse_config(contents),
{
    lemma_split_on_concat(contents, '\n', extra);
    lemma_inert_lines(split_on(contents, '\n'), split_on(extra, '\n'));
}

proof fn lemma_line_without_equals(cfg: (Option<Seq<char>>, Option<bool>), raw: Seq<char>)
    requires
        forall|k: int| 0 <= k < raw.len() ==> raw[k] != '=',
    ensures
        apply_config_line(cfg, raw) == cfg,
{
    let h = next_index(raw, '#', 0);
    lemma_next_index_bounds(raw, '#', 0);
    let b = before_comment(raw);
    let k1 = lemma_strip_start_shape(b, whitespace());
    let t = strip_start(b, whitespace());
    let k2 = lemma_strip_end_shape(t, whitespace());
    let line = trim(b);
    assert forall|k: int| 0 <= k < line.len() implies line[k] != '=' by {
        assert(line[k] == t[k]);
        assert(t[k] == b[k1 + k]);
        assert(b[k1 + k] == raw[k1 + k]);
    }
    lemma_next_index_is(line, '=', 0, line.len() as int);
}

proof fn lemma_lines_without_equals(lines: Seq<Seq<char>>)
    requires
        forall|i: int, k: int| 0 <= i < lines.len() && 0 <= k < lines[i].len() ==> #[trigger] lines[i][k] != '=',
    ensures
        config_from_lines(lines) == (None::<Seq<char>>, None::<bool>),
    decreases lines.len(),
{
    if lines.len() > 0 {
        let d = lines.drop_last();
        assert forall|i: int, k: int| 0 <= i < d.len() && 0 <= k < d[i].len() implies #[trigger] d[i][k] != '=' by {
            assert(d[i] == lines[i]);
        }
        lemma_lines_without_equals(d);
        assert forall|k: int| 0 <= k < lines.last().len() implies lines.last()[k] != '=' by {
            assert(lines.last() == lines[lines.len() - 1]);
        }
        lemma_line_without_equals(config_from_lines(d), lines.last());
    }
}

/// Text with no `=` at all sets nothing: the result is the default
/// configuration (malformed text never fails, it only yields defaults).
pub proof fn lemma_text_without_assignments_gives_defaults(contents: Seq<char>)
    requires
        forall|k: int| 0 <= k < contents.len() ==> contents[k] != '=',
    ensures
        spec_parse_config(contents) == (None::<Seq<char>>, None::<bool>),
{
    lemma_split_on_pieces_avoid(contents, '\n', '=');
    lemma_lines_without_equals(split_on(contents, '\n'));
}

/// Applies the line `v[lo..hi]` to the settings.
fn apply_line(v: &Vec<char>, lo: usize, hi: usize, mux: &mut Option<String>, auto: &mut Option<bool>)
    requires
        lo <= hi <= v@.len(),
    ensures
        (opt_text(*final(mux)), *final(auto)) == apply_config_line(
            (opt_text(*old(mux)), *old(auto)),
            v@.subrange(lo as int, hi as int),
        ),
{
    let ghost raw = v@.subrange(lo as int, hi as int);
    let h = find_char(v, lo, hi, '#');
    assert(before_comment(raw) == v@.subrange(lo as int, h as int));
    let (a, b) = trim_range(v, lo, h);
    let ghost line = v@.subrange(a as int, b as int);
    if a == b {
        return;
    }
    let e = find_char(v, a, b, '=');
    if e == b {
        return;
    }
    assert(line.take(e - a) == v@.subrange(a as int, e as int));
    assert(line.skip(e - a + 1) == v@.subrange(e + 1, b as int));
    let (ka, kb) = trim_range(v, a, e);
    let (va, vb) = trim_range(v, e + 1, b);
    if range_equals(v, ka, kb, "multiplexer") {
        let (c1, d1) = strip_char_range(v, va, vb, '"');
        let (c2, d2) = strip_char_range(v, c1, d1, '\'');
        if c2 < d2 {
            *mux = Some(string_of_range(v, c2, d2));
        }
    } else if range_equals(v, ka, kb, "auto_attach") {
        if range_equals(v, va, vb, "true") || range_equals(v, va, vb, "yes") || range_equals(v, va, vb, "1") {
            *auto = Some(true);
        } else if range_equals(v, va, vb, "false") || range_equals(v, va, vb, "no") || range_equals(v, va, vb, "0") {
            *auto = Some(false);
        }
    }
}

/// Reads the configuration text: every `\n`-separated line, in order, may set
/// `multiplexer` (quoted or bare, quotes removed, ignored when empty) or
/// `auto_attach` (`true`/`yes`/`1` or `false`/`no`/`0`, other values ignored);
/// text after `#` is a comment and other lines are ignored. Never fails.
pub fn parse_config_str(contents: &str) -> (config: Config)
    ensures
        config@ == spec_parse_config(contents@),
{
    let v = chars_of(contents);
    let n = v.len();
    let mut mux: Option<String> = None;
    let mut auto: Option<bool> = None;
    let mut start: usize = 0;
    let mut i: usize = 0;
    let ghost mut done: Seq<Seq<char>> = Seq::empty();
    assert(v@.take(0) == Seq::<char>::empty());
    assert(v@.subrange(0, 0) == Seq::<char>::empty());
    while i < n
        invariant
            n == v@.len(),
            start <= i <= n,
            split_on(v@.take(i as int), '\n') == done.push(v@.subrange(start as int, i as int)),
            (opt_text(mux), auto) == config_from_lines(done),
        decreases n - i,
    {
        proof {
            lemma_split_on_step(v@, '\n', i as int, done, start as int);
        }
        if v[i] == '\n' {
            apply_line(&v, start, i, &mut mux, &mut auto);
            proof {
                assert(done.push(v@.subrange(start as int, i as int)).drop_last() == done);
                done = done.push(v@.subrange(start as int, i as int));
            }
            start = i + 1;
        }
        i += 1;
    }
    apply_line(&v, start, n, &mut mux, &mut auto);
    proof {
        assert(v@.take(n as int) == v@);
        assert(done.push(v@.subrange(start as int, n as int)).drop_last() == done);
    }
    Config { multiplexer: mux, auto_attach: auto }
}


/// Where the configuration file lives: `codemux/config.toml` under
/// `$XDG_CONFIG_HOME` when set, else under the platform's configuration
/// directory, else `config.toml`.
pub open spec fn spec_config_path(xdg_config_home: Option<Seq<char>>, platform_dir: Option<Seq<char>>) -> Seq<char> {
    match xdg_config_home {
        Some(x) => join_path(join_path(x, "codemux"@), "config.toml"@),
        None => match platform_dir {
            Some(d) => join_path(join_path(d, "codemux"@), "config.toml"@),
            None => "config.toml"@,
        },
    }
}

/// The configuration file path from `$XDG_CONFIG_HOME` and the platform's
/// configuration directory (each `None` when unknown).
pub fn get_config_path(xdg_config_home: Option<&str>, platform_dir: Option<&str>) -> (r: String)
    ensures
        r@ == spec_config_path(
            match xdg_config_home {
                Some(x) => Some(x@),
                None => None,
            },
            match platform_dir {
                Some(d) => Some(d@),
                None => None,
            },
        ),
{
    let base = match xdg_config_home {
        Some(x) => x,
        None => match platform_dir {
            Some(d) => d,
            None => return "config.toml".to_owned(),
        },
    };
    let dir = join_path_str(base, "codemux");
    join_path_str(dir.as_str(), "config.toml")
}

/// Where the configuration file lives on Windows: as `spec_config_path`,
/// with `%APPDATA%` as the platform's directory and Windows path joining.
pub open spec fn spec_config_path_windows(xdg_config_home: Option<Seq<char>>, appdata: Option<Seq<char>>) -> Seq<
    char,
> {
    match xdg_config_home {
        Some(x) => windows_push(windows_push(x, "codemux"@), "config.toml"@),
        None => match appdata {
            Some(d) => windows_push(windows_push(d, "codemux"@), "config.toml"@),
            None => "config.toml"@,
        },
    }
}

/// The configuration file path on Windows from `$XDG_CONFIG_HOME` and
/// `%APPDATA%` (each `None` when unset).
pub fn get_config_path_windows(xdg_config_home: Option<&str>, appdata: Option<&str>) -> (r: String)
    ensures
        r@ == spec_config_path_windows(
            match xdg_config_home {
                Some(x) => Some(x@),
                None => None,
            },
            match appdata {
                Some(d) => Some(d@),
                None => None,
            },
        ),
{
    let base = match xdg_config_home {
        Some(x) => x,
        None => match appdata {
            Some(d) => d,
            None => return "config.toml".to_owned(),
        },
    };
    let dir = push_windows(base, "codemux");
    push_windows(dir.as_str(), "config.toml")
}

/// The platform's configuration directory on Unix: `$HOME/.config`.
pub fn platform_config_dir(home: Option<&str>) -> (r: Option<String>)
    ensures
        match r {
            Some(d) => home matches Some(h) && d@ == join_path(h@, ".config"@),
            None => home is None,
        },
{
    match home {
        Some(h) => Some(join_path_str(h, ".config")),
        None => None,
    }
}

/// The outcome of writing the default configuration.
#[derive(Debug, PartialEq)]
pub enum ConfigInitResult {
    /// The configuration was newly written at this path.
    Created(String),
    /// A configuration already existed at this path.
    AlreadyExists(String),
}

/// Whether a failed read of the configuration deserves a warning: unless the
/// file is simply absent.
pub fn unreadable_config_warning(not_found: bool, exists: bool) -> (b: bool)
    ensures
        b == (!not_found || exists),
{
    !not_found || exists
}

} // verus!
