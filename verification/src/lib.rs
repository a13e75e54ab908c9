//! Verified core of a launcher that opens editor terminals inside tmux or
//! zellij sessions: session naming, shell quoting, configuration parsing,
//! multiplexer selection, command construction and release-version handling.

pub mod text;
pub mod shell_escape;
pub mod sanitize;
pub mod config;
pub mod detect;
pub mod winpath;
pub mod launch;
pub mod launcher;
pub mod upgrade;
pub mod release;
