//! Walking the targets: what is done with each path, and in which order.
//!
//! The caller looks at the file system and reports what it found; the functions
//! here decide what follows. A walk starts at one target and visits paths depth
//! first: the entries of a directory come before whatever was waiting, in the
//! order in which they were listed.

use crate::command::STDIN_LABEL;
use crate::filter::{
    grep, grep_output, keep_line, keeps, lemma_empty_text_writes_nothing, selects, write_line,
    writes, written,
};
use crate::lines::{lemma_lines_after_break, lines_of, unbroken, LINE_FEED};
use crate::options::Options;
use crate::pattern::regex_matches;
use regex::Regex;
use vstd::prelude::*;

verus! {

/// What the file system says a path is.
#[derive(Debug, Clone, Copy, PartialEq, Eq, Structural)]
pub enum PathKind {
    /// A directory.
    Directory,
    /// A regular file.
    File,
    /// Neither: nothing is there, or something that cannot be searched.
    Other,
}

/// What to do with a path.
#[derive(Debug, Clone, Copy, PartialEq, Eq, Structural)]
pub enum Visit {
    /// List the directory and walk its entries.
    List,
    /// Read the file and search its text.
    Read,
    /// Pass over it in silence.
    Skip,
}

/// What a search prints for a file.
#[derive(Debug, Clone, PartialEq, Eq)]
pub enum Report {
    /// The selected lines, for standard output.
    Output(String),
    /// One diagnostic line, without its line feed, for standard error.
    Diagnostic(String),
}

/// What is done with a path of a given kind: a file is read; a directory is
/// listed in a recursive search and passed over otherwise; anything else is
/// passed over.
pub open spec fn visit_of(option: Options, kind: PathKind) -> Visit {
    match kind {
        PathKind::Directory => if option.recursive {
            Visit::List
        } else {
            Visit::Skip
        },
        PathKind::File => Visit::Read,
        PathKind::Other => Visit::Skip,
    }
}

/// The diagnostic line for a file that could not be read.
pub open spec fn diagnostic_of(path: Seq<char>, message: Seq<char>) -> Seq<char> {
    "ERR: path: "@ + path + ", err: "@ + message
}

/// What a search prints for a file, as text.
pub enum Printed {
    /// The selected lines, for standard output.
    Output(Seq<char>),
    /// One diagnostic line, without its line feed, for standard error.
    Diagnostic(Seq<char>),
}

impl View for Report {
    type V = Printed;

    open spec fn view(&self) -> Printed {
        match self {
            Report::Output(text) => Printed::Output(text@),
            Report::Diagnostic(line) => Printed::Diagnostic(line@),
        }
    }
}

/// What reading a file gave, as text: what the file holds, or the reader's
/// message.
pub open spec fn read_text(read: Result<String, String>) -> Result<Seq<char>, Seq<char>> {
    match read {
        Ok(content) => Ok(content@),
        Err(message) => Err(message@),
    }
}

/// What is reported for a file, given what reading it gave: the search's
/// output on its text, labelled with its path, or the diagnostic line.
pub open spec fn report_of(
    option: Options,
    regex: Regex,
    path: Seq<char>,
    read: Result<Seq<char>, Seq<char>>,
) -> Printed {
    match read {
        Ok(content) => Printed::Output(grep_output(option, regex, content, path)),
        Err(message) => Printed::Diagnostic(diagnostic_of(path, message)),
    }
}

/// Decides what to do with a path of kind `kind`.
pub fn plan_visit(option: &Options, kind: PathKind) -> (visit: Visit)
    ensures
        visit == visit_of(*option, kind),
{
    match kind {
        PathKind::Directory => if option.recursive {
            Visit::List
        } else {
            Visit::Skip
        },
        PathKind::File => Visit::Read,
        PathKind::Other => Visit::Skip,
    }
}

/// The diagnostic line for the file at `path` that could not be read, with the
/// reader's `message`. The line has no line feed.
pub fn diagnostic(path: &str, message: &str) -> (line: String)
    ensures
        line@ == diagnostic_of(path@, message@),
{
    let mut line = String::from_str("ERR: path: ");
    line.append(path);
    line.append(", err: ");
    line.append(message);
    line
}

/// Reports on the file at `path`, given what reading it gave: its text, or the
/// reader's message. A file that could not be read ends nothing: the report is
/// a diagnostic line, and the walk goes on.
pub fn report_read(
    option: &Options,
    regex: &Regex,
    path: &str,
    read: Result<String, String>,
) -> (report: Report)
    ensures
        report@ == report_of(*option, *regex, path@, read_text(read)),
{
    match read {
        Ok(content) => Report::Output(grep(option, regex, content.as_str(), path)),
        Err(message) => Report::Diagnostic(diagnostic(path, message.as_str())),
    }
}

/// What is written for one line of standard input: the line under the label
/// `(stdin)`, as any selected line is written, if the search selects it, and
/// nothing otherwise. An empty line is a line like any other.
pub open spec fn stdin_output(option: Options, regex: Regex, line: Seq<char>) -> Seq<char> {
    if keeps(option, regex_matches(regex, line)) {
        written(option, STDIN_LABEL@, line)
    } else {
        Seq::empty()
    }
}

/// A line of standard input is searched as the same line of a text is: what is
/// written for it is what a search under the label `(stdin)` writes for the
/// line with its line feed.
pub proof fn lemma_stdin_line_is_a_line_of_text(option: Options, regex: Regex, line: Seq<char>)
    requires
        unbroken(line),
    ensures
        stdin_output(option, regex, line) == grep_output(
            option,
            regex,
            line.push(LINE_FEED),
            STDIN_LABEL@,
        ),
{
    let select = selects(option, regex);
    let write = writes(option, STDIN_LABEL@);
    let none = Seq::<Seq<char>>::empty();
    lemma_lines_after_break(line, Seq::empty());
    assert(line + seq![LINE_FEED] + Seq::<char>::empty() =~= line.push(LINE_FEED));
    assert(lines_of(line.push(LINE_FEED)) =~= none.push(line));
    reveal(Seq::filter);
    assert(none.filter(select) =~= none);
    none.lemma_filter_push(line, select);
    assert(none.map_values(write) =~= none);
    if select(line) {
        assert(none.push(line).map_values(write) =~= none.push(write(line)));
        none.lemma_flatten_push(write(line));
        assert(none.flatten() + write(line) =~= write(line));
    }
}

/// Searches one line that was read from standard input, as soon as it was
/// read: `line` is the line without its line feed.
pub fn grep_stdin(option: &Options, regex: &Regex, line: &str) -> (output: String)
    ensures
        output@ == stdin_output(*option, *regex, line@),
{
    let mut output = String::new();
    if keep_line(option, regex.is_match(line)) {
        write_line(option, STDIN_LABEL, line, &mut output);
    }
    output
}

/// The paths that a walk has still to visit. The walk does not look at them:
/// a path is whatever the caller names its files by.
pub struct Walk<T> {
    /// The waiting paths, the next one last.
    pending: Vec<T>,
}

impl<T> Walk<T> {
    /// The waiting paths, the next one first.
    pub closed spec fn view(&self) -> Seq<T> {
        self.pending@.reverse()
    }

    /// A walk that has `target` to visit and nothing else.
    pub fn new(target: T) -> (walk: Self)
        ensures
            walk@ == seq![target],
    {
        let mut pending: Vec<T> = Vec::new();
        pending.push(target);
        assert(pending@.reverse() =~= seq![target]);
        Walk { pending }
    }

    /// Takes the next path to visit, if one is waiting.
    pub fn next(&mut self) -> (path: Option<T>)
        ensures
            match path {
                Some(next) => old(self)@.len() > 0 && next == old(self)@.first() && final(self)@
                    == old(self)@.drop_first(),
                None => old(self)@.len() == 0 && final(self)@ == old(self)@,
            },
    {
        let ghost before = self.pending@;
        let path = self.pending.pop();
        proof {
            if before.len() > 0 {
                assert(self.pending@.reverse() =~= before.reverse().drop_first());
            }
        }
        path
    }

    /// Puts the entries of a directory before the waiting paths, in the order
    /// in which they were listed.
    pub fn enter(&mut self, entries: Vec<T>)
        ensures
            final(self)@ == entries@ + old(self)@,
    {
        let ghost before = self.pending@;
        let ghost listed = entries@;
        let mut entries = entries;
        while entries.len() > 0
            invariant
                entries@.len() <= listed.len(),
                entries@ == listed.take(entries@.len() as int),
                self.pending@.reverse() == listed.skip(entries@.len() as int) + before.reverse(),
            decreases entries.len(),
        {
            let ghost waiting = self.pending@;
            let entry = entries.pop().unwrap();
            self.pending.push(entry);
            proof {
                let n = entries@.len() as int;
                assert(entries@ =~= listed.take(n));
                assert(entry == listed[n]);
                assert(listed.skip(n) =~= seq![entry] + listed.skip(n + 1));
                assert(waiting.push(entry).reverse() =~= seq![entry] + waiting.reverse());
            }
        }
        proof {
            assert(listed.skip(0) =~= listed);
        }
    }
}

/// What a walk can see of a file system: of each path its kind, the entries
/// that listing it gives, the text that names it, and what reading it gives.
#[verifier::reject_recursive_types(T)]
pub struct Tree<T> {
    /// What each path is.
    pub kind: spec_fn(T) -> PathKind,
    /// What listing each path gives, in order.
    pub entries: spec_fn(T) -> Seq<T>,
    /// The text of each path, under which its lines are written.
    pub name: spec_fn(T) -> Seq<char>,
    /// What reading each path gives: its text, or the reader's message.
    pub read: spec_fn(T) -> Result<Seq<char>, Seq<char>>,
}

/// What is reported for the file at `path` of a tree.
pub open spec fn report_at<T>(option: Options, regex: Regex, tree: Tree<T>, path: T) -> Printed {
    report_of(option, regex, (tree.name)(path), (tree.read)(path))
}

/// What is reported for each of some files of a tree, in order.
pub open spec fn reports_at<T>(option: Options, regex: Regex, tree: Tree<T>, files: Seq<T>) -> Seq<
    Printed,
> {
    Seq::new(files.len(), |i: int| report_at(option, regex, tree, files[i]))
}

/// The reports of a walk that has `pending` to visit, over its next `steps`
/// paths: each time the walk takes the next path and does with it what
/// `visit_of` says. The entries of a listed directory go before what was
/// waiting, a file that is read gives its report, whatever reading it gave, and
/// the walk goes on with what was waiting.
pub open spec fn walked<T>(
    option: Options,
    regex: Regex,
    tree: Tree<T>,
    pending: Seq<T>,
    steps: nat,
) -> Seq<Printed>
    decreases steps,
{
    if steps == 0 || pending.len() == 0 {
        Seq::empty()
    } else {
        let path = pending.first();
        let rest = pending.drop_first();
        let left = (steps - 1) as nat;
        match visit_of(option, (tree.kind)(path)) {
            Visit::List => walked(option, regex, tree, (tree.entries)(path) + rest, left),
            Visit::Read => seq![report_at(option, regex, tree, path)] + walked(
                option,
                regex,
                tree,
                rest,
                left,
            ),
            Visit::Skip => walked(option, regex, tree, rest, left),
        }
    }
}

/// What a report puts on standard output.
pub open spec fn output_text(printed: Printed) -> Seq<char> {
    match printed {
        Printed::Output(text) => text,
        Printed::Diagnostic(_) => Seq::empty(),
    }
}

/// The lines that a report puts on standard error.
pub open spec fn error_lines(printed: Printed) -> Seq<Seq<char>> {
    match printed {
        Printed::Output(_) => Seq::empty(),
        Printed::Diagnostic(line) => seq![line],
    }
}

/// What each of some reports puts on standard output.
pub open spec fn output_parts(reports: Seq<Printed>) -> Seq<Seq<char>> {
    reports.map_values(|printed: Printed| output_text(printed))
}

/// The lines that each of some reports puts on standard error.
pub open spec fn error_parts(reports: Seq<Printed>) -> Seq<Seq<Seq<char>>> {
    reports.map_values(|printed: Printed| error_lines(printed))
}

/// What some reports put on standard output: the outputs, one after the other.
pub open spec fn standard_output(reports: Seq<Printed>) -> Seq<char> {
    output_parts(reports).flatten()
}

/// What some reports put on standard error: the diagnostic lines, in order.
pub open spec fn standard_error(reports: Seq<Printed>) -> Seq<Seq<char>> {
    error_parts(reports).flatten()
}

/// Whether every one of `files` is a regular file in `tree`.
pub open spec fn all_files<T>(tree: Tree<T>, files: Seq<T>) -> bool {
    forall|i: int| 0 <= i < files.len() ==> (tree.kind)(#[trigger] files[i]) == PathKind::File
}

/// A walk that finds regular files next reports each of them, in order and
/// whatever reading them gave, and then goes on with what was waiting behind
/// them.
pub proof fn lemma_walk_reads_files<T>(
    option: Options,
    regex: Regex,
    tree: Tree<T>,
    files: Seq<T>,
    rest: Seq<T>,
    steps: nat,
)
    requires
        all_files(tree, files),
        steps >= files.len(),
    ensures
        walked(option, regex, tree, files + rest, steps) == reports_at(option, regex, tree, files)
            + walked(option, regex, tree, rest, (steps - files.len()) as nat),
    decreases files.len(),
{
    if files.len() == 0 {
        assert(files + rest =~= rest);
        assert(reports_at(option, regex, tree, files) =~= Seq::<Printed>::empty());
        assert(reports_at(option, regex, tree, files) + walked(option, regex, tree, rest, steps)
            =~= walked(option, regex, tree, rest, steps));
    } else {
        let pending = files + rest;
        let later = files.drop_first();
        assert(pending.first() == files[0]);
        assert(pending.drop_first() =~= later + rest);
        assert(all_files(tree, later)) by {
            assert forall|i: int| 0 <= i < later.len() implies (tree.kind)(#[trigger] later[i])
                == PathKind::File by {
                assert(later[i] == files[i + 1]);
            }
        }
        lemma_walk_reads_files(option, regex, tree, later, rest, (steps - 1) as nat);
        assert(seq![report_at(option, regex, tree, files[0])] + reports_at(
            option,
            regex,
            tree,
            later,
        ) =~= reports_at(option, regex, tree, files)) by {
            assert forall|i: int| 0 < i < files.len() implies reports_at(
                option,
                regex,
                tree,
                later,
            )[i - 1] == report_at(option, regex, tree, files[i]) by {
                assert(later[i - 1] == files[i]);
            }
        }
        assert(walked(option, regex, tree, pending, steps) =~= reports_at(
            option,
            regex,
            tree,
            files,
        ) + walked(option, regex, tree, rest, (steps - files.len()) as nat));
    }
}

/// A recursive walk of a directory that lists regular files reports every one
/// of them, in the order of the listing: the search's output for a file that
/// could be read, a diagnostic line for one that could not. No file stops the
/// walk, which is done after one step for the directory and one for each file.
pub proof fn lemma_recursive_walk_reports_every_file<T>(
    option: Options,
    regex: Regex,
    tree: Tree<T>,
    directory: T,
    steps: nat,
)
    requires
        option.recursive,
        (tree.kind)(directory) == PathKind::Directory,
        all_files(tree, (tree.entries)(directory)),
        steps > (tree.entries)(directory).len(),
    ensures
        walked(option, regex, tree, seq![directory], steps) == reports_at(
            option,
            regex,
            tree,
            (tree.entries)(directory),
        ),
{
    let files = (tree.entries)(directory);
    let left = (steps - 1) as nat;
    assert(seq![directory].first() == directory);
    assert(seq![directory].drop_first() =~= Seq::<T>::empty());
    assert(files + Seq::<T>::empty() =~= files);
    lemma_walk_reads_files(option, regex, tree, files, Seq::empty(), left);
    assert(walked(option, regex, tree, Seq::<T>::empty(), (left - files.len()) as nat)
        =~= Seq::<Printed>::empty());
    assert(reports_at(option, regex, tree, files) + Seq::<Printed>::empty() =~= reports_at(
        option,
        regex,
        tree,
        files,
    ));
}

/// Pieces that are all empty but the one at `only` come together to that one
/// piece, and to nothing where there is no such piece.
pub proof fn lemma_flatten_one_piece<A>(pieces: Seq<Seq<A>>, only: int)
    requires
        forall|i: int| 0 <= i < pieces.len() && i != only ==> (#[trigger] pieces[i]).len() == 0,
    ensures
        pieces.flatten() == if 0 <= only < pieces.len() {
            pieces[only]
        } else {
            Seq::<A>::empty()
        },
    decreases pieces.len(),
{
    if pieces.len() == 0 {
    } else {
        let front = pieces.drop_last();
        let last = pieces.last();
        assert(pieces =~= front.push(last));
        front.lemma_flatten_push(last);
        assert forall|i: int| 0 <= i < front.len() && i != only implies (#[trigger] front[i]).len()
            == 0 by {
            assert(front[i] == pieces[i]);
        }
        lemma_flatten_one_piece(front, only);
        if only == pieces.len() - 1 {
            assert(front.flatten() + last =~= last);
        } else {
            assert(last =~= Seq::<A>::empty());
            assert(front.flatten() + last =~= front.flatten());
            if 0 <= only < front.len() {
                assert(front[only] == pieces[only]);
            }
        }
    }
}

/// In a recursive walk of a directory that lists regular files, one file that
/// cannot be read costs one diagnostic line and nothing else. Standard error
/// gets the line that names the file, and no other. Standard output gets the
/// search's output for every other file, in the order of the listing: the same
/// as if the unreadable file had been read and found empty.
pub proof fn lemma_unreadable_file_stops_nothing<T>(
    option: Options,
    regex: Regex,
    tree: Tree<T>,
    directory: T,
    unreadable: int,
    steps: nat,
)
    requires
        option.recursive,
        (tree.kind)(directory) == PathKind::Directory,
        all_files(tree, (tree.entries)(directory)),
        steps > (tree.entries)(directory).len(),
        0 <= unreadable < (tree.entries)(directory).len(),
        forall|i: int|
            0 <= i < (tree.entries)(directory).len() ==> ((tree.read)(
                #[trigger] (tree.entries)(directory)[i],
            ) is Err <==> i == unreadable),
    ensures
        ({
            let files = (tree.entries)(directory);
            let reports = walked(option, regex, tree, seq![directory], steps);
            let mended = Tree {
                read: |path: T|
                    if path == files[unreadable] {
                        Ok(Seq::<char>::empty())
                    } else {
                        (tree.read)(path)
                    },
                ..tree
            };
            &&& standard_error(reports) == seq![
                diagnostic_of(
                    (tree.name)(files[unreadable]),
                    (tree.read)(files[unreadable])->Err_0,
                ),
            ]
            &&& standard_output(reports) == Seq::new(
                files.len(),
                |i: int|
                    if i == unreadable {
                        Seq::<char>::empty()
                    } else {
                        grep_output(
                            option,
                            regex,
                            (tree.read)(files[i])->Ok_0,
                            (tree.name)(files[i]),
                        )
                    },
            ).flatten()
            &&& standard_output(reports) == standard_output(
                walked(option, regex, mended, seq![directory], steps),
            )
        }),
{
    let files = (tree.entries)(directory);
    let reports = walked(option, regex, tree, seq![directory], steps);
    let mended = Tree {
        read: |path: T|
            if path == files[unreadable] {
                Ok(Seq::<char>::empty())
            } else {
                (tree.read)(path)
            },
        ..tree
    };
    let others = walked(option, regex, mended, seq![directory], steps);
    let outputs = Seq::new(
        files.len(),
        |i: int|
            if i == unreadable {
                Seq::<char>::empty()
            } else {
                grep_output(option, regex, (tree.read)(files[i])->Ok_0, (tree.name)(files[i]))
            },
    );
    lemma_recursive_walk_reports_every_file(option, regex, tree, directory, steps);
    assert(all_files(mended, files)) by {
        assert forall|i: int| 0 <= i < files.len() implies (mended.kind)(#[trigger] files[i])
            == PathKind::File by {
            assert((tree.kind)(files[i]) == PathKind::File);
        }
    }
    lemma_recursive_walk_reports_every_file(option, regex, mended, directory, steps);
    lemma_empty_text_writes_nothing(option, regex, (tree.name)(files[unreadable]));
    assert(output_parts(reports) =~= outputs);
    assert(output_parts(others) =~= outputs) by {
        assert forall|i: int| 0 <= i < files.len() implies output_parts(others)[i]
            == outputs[i] by {
            if i != unreadable {
                assert((tree.read)(files[i]) is Ok);
                assert(files[i] != files[unreadable]);
            }
        }
    }
    lemma_flatten_one_piece(error_parts(reports), unreadable);
}

} // verus!
