//! Reading the command line.
//!
//! The tokens are read from left to right. A token that spells a flag sets its
//! switch, wherever it stands. Of the other tokens the first is the pattern and
//! the rest are the targets, in order. Nothing is rejected: a token that starts
//! with a dash and spells no flag is a pattern or a target like any other.

use crate::lines::texts;
use crate::options::Options;
use vstd::prelude::*;

verus! {

/// Whether a token asks to descend into directories.
pub open spec fn is_recursive_flag(token: Seq<char>) -> bool {
    token == "-r"@ || token == "--recursive"@
}

/// Whether a token asks to leave the label out.
pub open spec fn is_no_filename_flag(token: Seq<char>) -> bool {
    token == "-h"@ || token == "--no-filename"@
}

/// Whether a token asks for the lines that do not match.
pub open spec fn is_invert_flag(token: Seq<char>) -> bool {
    token == "-v"@ || token == "--invert-match"@
}

/// Whether a token spells one of the flags.
pub open spec fn is_flag(token: Seq<char>) -> bool {
    is_recursive_flag(token) || is_no_filename_flag(token) || is_invert_flag(token)
}

/// The tokens that are no flags.
pub open spec fn is_positional() -> spec_fn(Seq<char>) -> bool {
    |token: Seq<char>| !is_flag(token)
}

/// The tokens of a command line that are no flags, in order.
pub open spec fn positionals(args: Seq<Seq<char>>) -> Seq<Seq<char>> {
    args.filter(is_positional())
}

/// The pattern of a command line: its first positional token, and the empty
/// text where it has none.
pub open spec fn parsed_pattern(args: Seq<Seq<char>>) -> Seq<char> {
    if positionals(args).len() == 0 {
        Seq::empty()
    } else {
        positionals(args).first()
    }
}

/// The targets of a command line: its positional tokens after the first.
pub open spec fn parsed_targets(args: Seq<Seq<char>>) -> Seq<Seq<char>> {
    if positionals(args).len() == 0 {
        Seq::empty()
    } else {
        positionals(args).drop_first()
    }
}

/// Whether some token of a command line asks to descend into directories.
pub open spec fn asks_recursive(args: Seq<Seq<char>>) -> bool {
    exists|i: int| 0 <= i < args.len() && is_recursive_flag(#[trigger] args[i])
}

/// Whether some token of a command line asks to leave the label out.
pub open spec fn asks_no_filename(args: Seq<Seq<char>>) -> bool {
    exists|i: int| 0 <= i < args.len() && is_no_filename_flag(#[trigger] args[i])
}

/// Whether some token of a command line asks for the lines that do not match.
pub open spec fn asks_invert(args: Seq<Seq<char>>) -> bool {
    exists|i: int| 0 <= i < args.len() && is_invert_flag(#[trigger] args[i])
}

/// The options of a command line: each switch is on if and only if some token
/// spells its flag.
pub open spec fn parsed_options(args: Seq<Seq<char>>) -> Options {
    Options {
        recursive: asks_recursive(args),
        no_filename: asks_no_filename(args),
        invert_match: asks_invert(args),
    }
}

/// No flag has two meanings.
pub proof fn lemma_flags_differ(token: Seq<char>)
    ensures
        !(is_recursive_flag(token) && is_no_filename_flag(token)),
        !(is_recursive_flag(token) && is_invert_flag(token)),
        !(is_no_filename_flag(token) && is_invert_flag(token)),
{
    reveal_strlit("-r");
    reveal_strlit("--recursive");
    reveal_strlit("-h");
    reveal_strlit("--no-filename");
    reveal_strlit("-v");
    reveal_strlit("--invert-match");
    if is_recursive_flag(token) {
        assert(token[1] == 'r' || token[2] == 'r');
    }
    if is_no_filename_flag(token) {
        assert(token[1] == 'h' || token[2] == 'n');
    }
    if is_invert_flag(token) {
        assert(token[1] == 'v' || token[2] == 'i');
    }
}

/// What one more token adds to what was read of a command line.
pub proof fn lemma_parsed_push(args: Seq<Seq<char>>, token: Seq<char>)
    ensures
        asks_recursive(args.push(token)) == (asks_recursive(args) || is_recursive_flag(token)),
        asks_no_filename(args.push(token)) == (asks_no_filename(args) || is_no_filename_flag(
            token,
        )),
        asks_invert(args.push(token)) == (asks_invert(args) || is_invert_flag(token)),
        positionals(args.push(token)) == if is_flag(token) {
            positionals(args)
        } else {
            positionals(args).push(token)
        },
{
    let more = args.push(token);
    args.lemma_filter_push(token, is_positional());
    assert(more[args.len() as int] == token);
    assert forall|i: int| 0 <= i < args.len() implies more[i] == args[i] by {}
    if asks_recursive(args) {
        let i = choose|i: int| 0 <= i < args.len() && is_recursive_flag(#[trigger] args[i]);
        assert(is_recursive_flag(more[i]));
    }
    if asks_no_filename(args) {
        let i = choose|i: int| 0 <= i < args.len() && is_no_filename_flag(#[trigger] args[i]);
        assert(is_no_filename_flag(more[i]));
    }
    if asks_invert(args) {
        let i = choose|i: int| 0 <= i < args.len() && is_invert_flag(#[trigger] args[i]);
        assert(is_invert_flag(more[i]));
    }
}

/// Reads a command line, given without the program's name: the pattern, the
/// targets and the options that its tokens spell.
pub fn parse_arg(args: Vec<String>) -> (parsed: (String, Vec<String>, Options))
    ensures
        parsed.0@ == parsed_pattern(texts(args@)),
        texts(parsed.1@) == parsed_targets(texts(args@)),
        parsed.2 == parsed_options(texts(args@)),
{
    let recursive_short = String::from_str("-r");
    let recursive_long = String::from_str("--recursive");
    let no_filename_short = String::from_str("-h");
    let no_filename_long = String::from_str("--no-filename");
    let invert_short = String::from_str("-v");
    let invert_long = String::from_str("--invert-match");

    let mut pattern = String::new();
    let mut files: Vec<String> = Vec::new();
    let mut options = Options::default();
    let mut pattern_parsed = false;

    let ghost all = args@;
    proof {
        reveal(Seq::filter);
        assert(texts(all.take(0)) =~= Seq::<Seq<char>>::empty());
        assert(texts(files@) =~= Seq::<Seq<char>>::empty());
    }
    for arg in it: args
        invariant
            it.seq() == all,
            recursive_short@ == "-r"@,
            recursive_long@ == "--recursive"@,
            no_filename_short@ == "-h"@,
            no_filename_long@ == "--no-filename"@,
            invert_short@ == "-v"@,
            invert_long@ == "--invert-match"@,
            pattern_parsed == (positionals(texts(all.take(it.index()))).len() > 0),
            pattern@ == parsed_pattern(texts(all.take(it.index()))),
            texts(files@) == parsed_targets(texts(all.take(it.index()))),
            options == parsed_options(texts(all.take(it.index()))),
    {
        proof {
            let done = all.take(it.index());
            assert(all.take(it.index() + 1) =~= done.push(arg));
            assert(texts(done.push(arg)) =~= texts(done).push(arg@));
            lemma_parsed_push(texts(done), arg@);
            lemma_flags_differ(arg@);
            assert(texts(files@.push(arg)) =~= texts(files@).push(arg@));
            let found = positionals(texts(done));
            if found.len() > 0 {
                assert(found.push(arg@).drop_first() =~= found.drop_first().push(arg@));
            } else {
                assert(found.push(arg@).drop_first() =~= Seq::<Seq<char>>::empty());
            }
        }
        if arg == recursive_short || arg == recursive_long {
            options.recursive = true;
        } else if arg == no_filename_short || arg == no_filename_long {
            options.no_filename = true;
        } else if arg == invert_short || arg == invert_long {
            options.invert_match = true;
        } else if !pattern_parsed {
            pattern = arg;
            pattern_parsed = true;
        } else {
            files.push(arg);
        }
    }
    proof {
        assert(all.take(all.len() as int) =~= all);
    }
    (pattern, files, options)
}

} // verus!
