//! A minimal line-oriented text search: the rules of a small `grep`.
//!
//! The crate holds everything such a tool decides: how a command line is read,
//! how text is cut into lines, which lines a pattern selects, how the selected
//! lines are written, and what is done with each kind of path that is met while
//! walking the targets. Reading files, listing directories and printing are left
//! to the caller, who hands the crate plain strings and gets plain strings back.

pub mod args;
pub mod command;
pub mod filter;
pub mod lines;
pub mod options;
pub mod pattern;
pub mod walk;

pub use args::parse_arg;
pub use command::{command, default_targets, is_stdin, Command, STDIN_LABEL, STDIN_TARGET};
pub use filter::{grep, keep_line, render, match_lines, write_line, Candidate};
pub use lines::split_lines;
pub use options::Options;
pub use pattern::{compile, settle, InvalidPattern};
pub use walk::{
    diagnostic, grep_stdin, plan_visit, report_read, PathKind, Report, Visit, Walk,
};
