//! The three switches of a search.

use vstd::prelude::*;

verus! {

/// How a search behaves. Set once from the command line and never changed.
#[derive(Debug, Clone, Copy, PartialEq, Eq, Structural)]
pub struct Options {
    /// `-r` | `--recursive`: descend into directories.
    pub recursive: bool,
    /// `-h` | `--no-filename`: write the lines without the `label:` prefix.
    pub no_filename: bool,
    /// `-v` | `--invert-match`: select the lines that do not match.
    pub invert_match: bool,
}

impl Options {
    /// The options with exactly the given switches.
    pub fn new(recursive: bool, no_filename: bool, invert_match: bool) -> (options: Self)
        ensures
            options.recursive == recursive,
            options.no_filename == no_filename,
            options.invert_match == invert_match,
    {
        Self { recursive, no_filename, invert_match }
    }
}

impl Default for Options {
    /// All switches off.
    fn default() -> (options: Self)
        ensures
            options == (Options { recursive: false, no_filename: false, invert_match: false }),
    {
        Self::new(false, false, false)
    }
}

} // verus!
