//! What a command line asks for.

use crate::args::{parse_arg, parsed_options, parsed_pattern, parsed_targets};
use crate::lines::texts;
use crate::options::Options;
use vstd::prelude::*;

verus! {

/// The target that stands for standard input.
pub const STDIN_TARGET: &'static str = "-";

/// The label of the lines that come from standard input.
pub const STDIN_LABEL: &'static str = "(stdin)";

/// What the program is asked to do.
#[derive(Debug, Clone, PartialEq, Eq)]
pub enum Command {
    /// No pattern was given: show how the program is used, and do nothing else.
    Usage,
    /// Search the targets, in order, for the pattern, which is not empty.
    Search {
        /// The pattern, as it was written.
        pattern: String,
        /// What to search: paths, or `-` for standard input. Never empty.
        targets: Vec<String>,
        /// The switches that the flags set.
        options: Options,
    },
}

/// The targets to search when the command line names `given`: standard input
/// where it names none.
pub open spec fn targets_or_stdin(given: Seq<Seq<char>>) -> Seq<Seq<char>> {
    if given.len() == 0 {
        seq![STDIN_TARGET@]
    } else {
        given
    }
}

/// Whether `command` is what the command line `args` asks for.
pub open spec fn commanded(args: Seq<Seq<char>>, command: Command) -> bool {
    if parsed_pattern(args).len() == 0 {
        command is Usage
    } else {
        command matches Command::Search { pattern, targets, options } && pattern@ == parsed_pattern(
            args,
        ) && texts(targets@) == targets_or_stdin(parsed_targets(args)) && options
            == parsed_options(args)
    }
}

/// Whether a target stands for standard input. Such a target is never looked
/// up as a file.
pub fn is_stdin(target: &str) -> (stdin: bool)
    ensures
        stdin == (target@ == STDIN_TARGET@),
{
    let sentinel = String::from_str(STDIN_TARGET);
    let given = String::from_str(target);
    given == sentinel
}

/// The targets to search: `files`, or standard input alone where there are
/// none.
pub fn default_targets(files: Vec<String>) -> (targets: Vec<String>)
    ensures
        texts(targets@) == targets_or_stdin(texts(files@)),
{
    let mut targets = files;
    if targets.len() == 0 {
        targets.push(String::from_str(STDIN_TARGET));
        assert(texts(targets@) =~= seq![STDIN_TARGET@]);
    }
    targets
}

/// Decides what a command line, given without the program's name, asks for.
/// Without a pattern, or with an empty one, it asks for the usage text;
/// otherwise for a search, of standard input where no target is named.
pub fn command(args: Vec<String>) -> (command: Command)
    ensures
        commanded(texts(args@), command),
{
    let (pattern, files, options) = parse_arg(args);
    if pattern.as_str().is_empty() {
        Command::Usage
    } else {
        Command::Search { pattern, targets: default_targets(files), options }
    }
}

} // verus!
