# codemux

Opens editor terminals inside tmux or zellij sessions named after the
workspace, attaching to an existing session or picking a fresh name.

- `src/` — the verified library (Verus):
  - `text.rs`: character-sequence specifications and helpers (searching,
    trimming, splitting, decimal numbers).
  - `shell_escape.rs`: POSIX single-quote escaping, with the proof that the
    shell reads the quoted word back as exactly the argument.
  - `sanitize.rs`: session-name sanitizing and unique (gap-filling) names.
  - `config.rs`: the configuration file reader and its location (Unix and
    Windows).
  - `detect.rs`: choosing tmux or zellij; where to look for them on `PATH`
    (Unix and Windows).
  - `winpath.rs`: Windows paths as std reads them: prefixes, the last
    component, pushing one path onto another.
  - `launch.rs`: attach mode, session choice, base names (Unix and Windows),
    the command to run, command lines, command-line flags.
  - `launcher.rs`: the tmux and zellij commands; reading session lists and
    the outcome of running `list-sessions`.
  - `upgrade.rs`, `release.rs`: versions, release tags and the self-upgrade's
    decisions and messages.
- `app/main.rs` — the program: environment, files, processes and `exec`.
- `tests/` — tests of the library.
