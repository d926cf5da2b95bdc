//! Selecting the lines of a text and writing them out.

use crate::lines::{lemma_lines_of_texts, lines_of, split_lines, texts, LINE_FEED};
use crate::options::Options;
use crate::pattern::regex_matches;
use regex::Regex;
use vstd::prelude::*;

verus! {

/// The character between the label and the line.
pub const LABEL_END: char = ':';

/// A line together with the answer of the pattern on it.
#[derive(Debug, Clone, PartialEq, Eq)]
pub struct Candidate {
    /// The line, without its ending.
    pub line: String,
    /// Whether the pattern matched it.
    pub matched: bool,
}

impl View for Candidate {
    type V = (Seq<char>, bool);

    open spec fn view(&self) -> (Seq<char>, bool) {
        (self.line@, self.matched)
    }
}

/// The views of a vector of candidates.
pub open spec fn candidates(tested: Seq<Candidate>) -> Seq<(Seq<char>, bool)> {
    tested.map_values(|c: Candidate| c@)
}

/// Whether a line is selected, given whether the pattern matched it: matching
/// lines are, unless the match is inverted, and then the others are.
pub open spec fn keeps(option: Options, matched: bool) -> bool {
    matched != option.invert_match
}

/// A selected line as it is written: behind `label:` unless the label is
/// suppressed, and closed by a line feed.
pub open spec fn written(option: Options, label: Seq<char>, line: Seq<char>) -> Seq<char> {
    if option.no_filename {
        line.push(LINE_FEED)
    } else {
        (label.push(LABEL_END) + line).push(LINE_FEED)
    }
}

/// `keeps`, as a predicate on candidates.
pub open spec fn keeps_candidate(option: Options) -> spec_fn((Seq<char>, bool)) -> bool {
    |c: (Seq<char>, bool)| keeps(option, c.1)
}

/// `written`, as a function on candidates.
pub open spec fn writes_candidate(option: Options, label: Seq<char>) -> spec_fn(
    (Seq<char>, bool),
) -> Seq<char> {
    |c: (Seq<char>, bool)| written(option, label, c.0)
}

/// What is written for a sequence of candidates: the selected ones, in order,
/// each as `written` gives it, one after the other.
pub open spec fn rendered(option: Options, label: Seq<char>, tested: Seq<(Seq<char>, bool)>) -> Seq<
    char,
> {
    tested.filter(keeps_candidate(option)).map_values(writes_candidate(option, label)).flatten()
}

/// Whether the search selects a line.
pub open spec fn selects(option: Options, regex: Regex) -> spec_fn(Seq<char>) -> bool {
    |line: Seq<char>| keeps(option, regex_matches(regex, line))
}

/// `written`, as a function on lines.
pub open spec fn writes(option: Options, label: Seq<char>) -> spec_fn(Seq<char>) -> Seq<char> {
    |line: Seq<char>| written(option, label, line)
}

/// Each line with the answer of the pattern on it.
pub open spec fn tested_by(regex: Regex, lines: Seq<Seq<char>>) -> Seq<(Seq<char>, bool)> {
    lines.map_values(|line: Seq<char>| (line, regex_matches(regex, line)))
}

/// The lines of a text that the search selects, in order.
pub open spec fn selected_lines(option: Options, regex: Regex, content: Seq<char>) -> Seq<
    Seq<char>,
> {
    lines_of(content).filter(selects(option, regex))
}

/// What a search writes for a text: its selected lines, in order, each as
/// `written` gives it, one after the other.
pub open spec fn grep_output(
    option: Options,
    regex: Regex,
    content: Seq<char>,
    label: Seq<char>,
) -> Seq<char> {
    selected_lines(option, regex, content).map_values(writes(option, label)).flatten()
}

/// One more candidate adds what is written for it, if it is selected, and
/// nothing otherwise.
pub proof fn lemma_rendered_push(
    option: Options,
    label: Seq<char>,
    tested: Seq<(Seq<char>, bool)>,
    next: (Seq<char>, bool),
)
    ensures
        rendered(option, label, tested.push(next)) == if keeps(option, next.1) {
            rendered(option, label, tested) + written(option, label, next.0)
        } else {
            rendered(option, label, tested)
        },
{
    let keep = keeps_candidate(option);
    let write = writes_candidate(option, label);
    tested.lemma_filter_push(next, keep);
    if keeps(option, next.1) {
        let before = tested.filter(keep);
        assert(before.push(next).map_values(write) =~= before.map_values(write).push(write(next)));
        before.map_values(write).lemma_flatten_push(write(next));
    }
}

/// Rendering the candidates that a pattern makes of some lines is filtering and
/// writing the lines themselves.
pub proof fn lemma_rendered_tested(
    option: Options,
    regex: Regex,
    label: Seq<char>,
    lines: Seq<Seq<char>>,
)
    ensures
        rendered(option, label, tested_by(regex, lines)) == lines.filter(
            selects(option, regex),
        ).map_values(writes(option, label)).flatten(),
    decreases lines.len(),
{
    let select = selects(option, regex);
    let write = writes(option, label);
    if lines.len() == 0 {
        reveal(Seq::filter);
        assert(tested_by(regex, lines) =~= Seq::<(Seq<char>, bool)>::empty());
        assert(lines.filter(select) =~= Seq::<Seq<char>>::empty());
        assert(tested_by(regex, lines).filter(keeps_candidate(option)) =~= Seq::<
            (Seq<char>, bool),
        >::empty());
        assert(lines.filter(select).map_values(write) =~= Seq::<Seq<char>>::empty());
        assert(tested_by(regex, lines).filter(keeps_candidate(option)).map_values(
            writes_candidate(option, label),
        ) =~= Seq::<Seq<char>>::empty());
    } else {
        let front = lines.drop_last();
        let last = lines.last();
        let next = (last, regex_matches(regex, last));
        assert(lines =~= front.push(last));
        assert(tested_by(regex, lines) =~= tested_by(regex, front).push(next));
        lemma_rendered_tested(option, regex, label, front);
        lemma_rendered_push(option, label, tested_by(regex, front), next);
        front.lemma_filter_push(last, select);
        if select(last) {
            let before = front.filter(select);
            assert(before.push(last).map_values(write) =~= before.map_values(write).push(
                write(last),
            ));
            before.map_values(write).lemma_flatten_push(write(last));
        }
    }
}

/// A search with the label shown and the match not inverted, as with all
/// switches off, writes exactly the lines that the pattern matches, in the order
/// of the text, each behind `label:` and closed by a line feed.
pub proof fn lemma_plain_search_writes_matches(
    option: Options,
    regex: Regex,
    content: Seq<char>,
    label: Seq<char>,
)
    requires
        !option.no_filename,
        !option.invert_match,
    ensures
        grep_output(option, regex, content, label) == lines_of(content).filter(
            |line: Seq<char>| regex_matches(regex, line),
        ).map_values(|line: Seq<char>| label + seq![LABEL_END] + line + seq![LINE_FEED]).flatten(),
{
    let matches = |line: Seq<char>| regex_matches(regex, line);
    let labelled = |line: Seq<char>| label + seq![LABEL_END] + line + seq![LINE_FEED];
    assert(selects(option, regex) =~= matches);
    assert(writes(option, label) =~= labelled) by {
        assert forall|line: Seq<char>| #[trigger]
            writes(option, label)(line) == labelled(line) by {
            assert(written(option, label, line) =~= label + seq![LABEL_END] + line + seq![
                LINE_FEED,
            ]);
        }
    }
}

/// An inverted search selects exactly the complement of what the plain search
/// selects: the lines that the pattern does not match, in the order of the
/// text. A line is selected by the one if and only if it is not selected by the
/// other, and the two selections together hold each line of the text as often
/// as the text does.
pub proof fn lemma_invert_selects_complement(option: Options, regex: Regex, content: Seq<char>)
    requires
        option.invert_match,
    ensures
        selected_lines(option, regex, content) == lines_of(content).filter(
            |line: Seq<char>| !regex_matches(regex, line),
        ),
        forall|line: Seq<char>| #[trigger]
            selects(option, regex)(line) == !selects(
                Options { invert_match: false, ..option },
                regex,
            )(line),
        selected_lines(option, regex, content).to_multiset().add(
            selected_lines(Options { invert_match: false, ..option }, regex, content).to_multiset(),
        ) == lines_of(content).to_multiset(),
{
    let plain = Options { invert_match: false, ..option };
    assert(selects(option, regex) =~= (|line: Seq<char>| !regex_matches(regex, line)));
    lemma_selections_part(option, plain, regex, lines_of(content));
}

/// The selections of a search and of the same search inverted, taken together,
/// hold each line as often as the lines themselves do.
pub proof fn lemma_selections_part(
    option: Options,
    inverted: Options,
    regex: Regex,
    lines: Seq<Seq<char>>,
)
    requires
        inverted.invert_match != option.invert_match,
    ensures
        lines.filter(selects(option, regex)).to_multiset().add(
            lines.filter(selects(inverted, regex)).to_multiset(),
        ) == lines.to_multiset(),
    decreases lines.len(),
{
    broadcast use vstd::seq_lib::group_to_multiset_ensures;

    let plain = selects(option, regex);
    let other = selects(inverted, regex);
    if lines.len() == 0 {
        reveal(Seq::filter);
        assert(lines.filter(plain).to_multiset().add(lines.filter(other).to_multiset())
            =~= lines.to_multiset());
    } else {
        let front = lines.drop_last();
        let last = lines.last();
        assert(lines =~= front.push(last));
        lemma_selections_part(option, inverted, regex, front);
        front.lemma_filter_push(last, plain);
        front.lemma_filter_push(last, other);
        assert(plain(last) != other(last));
        assert(front.push(last).filter(plain).to_multiset().add(
            front.push(last).filter(other).to_multiset(),
        ) =~= front.push(last).to_multiset());
    }
}

/// With the label suppressed, whether or not the match is inverted, a search
/// writes the selected lines and a line feed after each, and nothing else: the
/// label has no part in the output, which is the same under any other label.
pub proof fn lemma_suppressed_label_is_absent(
    option: Options,
    regex: Regex,
    content: Seq<char>,
    label: Seq<char>,
)
    requires
        option.no_filename,
    ensures
        grep_output(option, regex, content, label) == selected_lines(
            option,
            regex,
            content,
        ).map_values(|line: Seq<char>| line.push(LINE_FEED)).flatten(),
        forall|other: Seq<char>| #[trigger]
            grep_output(option, regex, content, other) == grep_output(
                option,
                regex,
                content,
                label,
            ),
{
    let bare = |line: Seq<char>| line.push(LINE_FEED);
    assert(writes(option, label) =~= bare);
    assert forall|other: Seq<char>| #[trigger]
        grep_output(option, regex, content, other) == grep_output(
            option,
            regex,
            content,
            label,
        ) by {
        assert(writes(option, other) =~= bare);
    }
}

/// A search has no hidden state: whatever two runs on the same options,
/// pattern, text and label write is the same.
pub proof fn lemma_search_is_repeatable(
    option: Options,
    regex: Regex,
    content: Seq<char>,
    label: Seq<char>,
    first: Seq<char>,
    second: Seq<char>,
)
    requires
        first == grep_output(option, regex, content, label),
        second == grep_output(option, regex, content, label),
    ensures
        first == second,
{
}

/// An empty text has no lines, and a search of it writes nothing, whatever the
/// options, the pattern and the label.
pub proof fn lemma_empty_text_writes_nothing(option: Options, regex: Regex, label: Seq<char>)
    ensures
        lines_of(Seq::<char>::empty()) == Seq::<Seq<char>>::empty(),
        grep_output(option, regex, Seq::<char>::empty(), label) == Seq::<char>::empty(),
{
    reveal(Seq::filter);
    let lines = lines_of(Seq::<char>::empty());
    assert(lines =~= Seq::<Seq<char>>::empty());
    assert(lines.filter(selects(option, regex)) =~= Seq::<Seq<char>>::empty());
    assert(lines.filter(selects(option, regex)).map_values(writes(option, label)) =~= Seq::<
        Seq<char>,
    >::empty());
}

/// A search keeps the order of the text: what it writes for two texts, one
/// after the other, is what it writes for the first and then what it writes
/// for the second, where the first ends with a line feed or is empty.
pub proof fn lemma_output_of_texts(
    option: Options,
    regex: Regex,
    first: Seq<char>,
    second: Seq<char>,
    label: Seq<char>,
)
    requires
        first.len() == 0 || first.last() == LINE_FEED,
    ensures
        grep_output(option, regex, first + second, label) == grep_output(
            option,
            regex,
            first,
            label,
        ) + grep_output(option, regex, second, label),
{
    let select = selects(option, regex);
    let write = writes(option, label);
    let before = lines_of(first);
    let after = lines_of(second);
    lemma_lines_of_texts(first, second);
    Seq::filter_distributes_over_add(before, after, select);
    assert((before.filter(select) + after.filter(select)).map_values(write) =~= before.filter(
        select,
    ).map_values(write) + after.filter(select).map_values(write));
    vstd::seq_lib::lemma_flatten_concat(
        before.filter(select).map_values(write),
        after.filter(select).map_values(write),
    );
}

/// Whether a line is selected, given whether the pattern matched it.
pub fn keep_line(option: &Options, matched: bool) -> (keep: bool)
    ensures
        keep == keeps(*option, matched),
{
    matched != option.invert_match
}

/// Appends one selected line to `output`, as it is written.
pub fn write_line(option: &Options, file_name: &str, line: &str, output: &mut String)
    ensures
        final(output)@ == old(output)@ + written(*option, file_name@, line@),
{
    let ghost before = output@;
    if !option.no_filename {
        output.append(file_name);
        output.push(LABEL_END);
    }
    output.append(line);
    output.push(LINE_FEED);
    assert(output@ =~= before + written(*option, file_name@, line@));
}

/// Asks the pattern about each line.
pub fn match_lines(regex: &Regex, lines: Vec<String>) -> (tested: Vec<Candidate>)
    ensures
        candidates(tested@) == tested_by(*regex, texts(lines@)),
{
    let mut tested: Vec<Candidate> = Vec::new();
    let ghost all = lines@;
    for line in it: lines
        invariant
            it.seq() == all,
            candidates(tested@) == tested_by(*regex, texts(all.take(it.index()))),
    {
        let matched = regex.is_match(line.as_str());
        proof {
            let done = all.take(it.index());
            assert(all.take(it.index() + 1) =~= done.push(line));
            assert(texts(done.push(line)) =~= texts(done).push(line@));
            assert(tested_by(*regex, texts(done).push(line@)) =~= tested_by(
                *regex,
                texts(done),
            ).push((line@, matched)));
            assert(candidates(tested@.push(Candidate { line, matched })) =~= candidates(
                tested@,
            ).push((line@, matched)));
        }
        tested.push(Candidate { line, matched });
    }
    proof {
        assert(all.take(all.len() as int) =~= all);
    }
    tested
}

/// Writes the selected candidates, in order, each behind `file_name:` unless
/// the label is suppressed, and each closed by a line feed.
pub fn render(option: &Options, file_name: &str, tested: &Vec<Candidate>) -> (output: String)
    ensures
        output@ == rendered(*option, file_name@, candidates(tested@)),
{
    let mut output = String::new();
    let mut i: usize = 0;
    proof {
        reveal(Seq::filter);
        assert(candidates(tested@).take(0) =~= Seq::<(Seq<char>, bool)>::empty());
        assert(candidates(tested@).take(0).filter(keeps_candidate(*option)).map_values(
            writes_candidate(*option, file_name@),
        ) =~= Seq::<Seq<char>>::empty());
    }
    while i < tested.len()
        invariant
            i <= tested.len(),
            output@ == rendered(*option, file_name@, candidates(tested@).take(i as int)),
        decreases tested.len() - i,
    {
        proof {
            let all = candidates(tested@);
            assert(all.take(i + 1) =~= all.take(i as int).push(tested[i as int]@));
            lemma_rendered_push(*option, file_name@, all.take(i as int), tested[i as int]@);
        }
        if keep_line(option, tested[i].matched) {
            write_line(option, file_name, tested[i].line.as_str(), &mut output);
        }
        i += 1;
    }
    proof {
        assert(candidates(tested@).take(tested.len() as int) =~= candidates(tested@));
    }
    output
}

/// Searches `f`: writes each line that the pattern selects, in the order of the
/// text, behind `file_name:` unless the label is suppressed, and closed by a
/// line feed. An empty text gives an empty output.
pub fn grep(option: &Options, regex: &Regex, f: &str, file_name: &str) -> (output: String)
    ensures
        output@ == grep_output(*option, *regex, f@, file_name@),
        f@.len() == 0 ==> output@.len() == 0,
{
    let lines = split_lines(f);
    let tested = match_lines(regex, lines);
    proof {
        lemma_rendered_tested(*option, *regex, file_name@, lines_of(f@));
        if f@.len() == 0 {
            assert(f@ =~= Seq::<char>::empty());
            lemma_empty_text_writes_nothing(*option, *regex, file_name@);
        }
    }
    render(option, file_name, &tested)
}

} // verus!
