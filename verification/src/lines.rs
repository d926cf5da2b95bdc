//! Cutting text into lines.
//!
//! A line ends at a line feed, and only there. The line feed is not part of the
//! line; every other character is, a carriage return too. Text after the last
//! line feed is a line of its own, unless there is none: a final line feed opens
//! no empty line.

use vstd::prelude::*;

verus! {

/// The character that ends a line.
pub const LINE_FEED: char = '\n';

/// `String::push` appends the given character to the end of the string.
pub assume_specification[ String::push ](text: &mut String, ch: char)
    ensures
        final(text)@ == old(text)@.push(ch),
;

/// Whether no line feed occurs in `text`.
pub open spec fn unbroken(text: Seq<char>) -> bool {
    forall|i: int| 0 <= i < text.len() ==> text[i] != LINE_FEED
}

/// The number of characters before the first line feed of `text`, which is the
/// length of `text` where it holds none.
pub open spec fn first_break(text: Seq<char>) -> nat
    decreases text.len(),
{
    if text.len() == 0 || text[0] == LINE_FEED {
        0
    } else {
        1 + first_break(text.drop_first())
    }
}

/// The lines of `text`, in order.
pub open spec fn lines_of(text: Seq<char>) -> Seq<Seq<char>>
    decreases text.len(),
{
    let cut = first_break(text);
    if text.len() == 0 {
        Seq::empty()
    } else if cut >= text.len() {
        seq![text]
    } else {
        seq![text.take(cut as int)] + lines_of(text.skip((cut + 1) as int))
    }
}

/// The texts of a vector of strings.
pub open spec fn texts(strings: Seq<String>) -> Seq<Seq<char>> {
    strings.map_values(|s: String| s@)
}

/// `first_break` is a position in the text, the text before it is unbroken, and
/// a line feed stands at it unless it is the end.
pub proof fn lemma_first_break(text: Seq<char>)
    ensures
        first_break(text) <= text.len(),
        unbroken(text.take(first_break(text) as int)),
        first_break(text) < text.len() ==> text[first_break(text) as int] == LINE_FEED,
    decreases text.len(),
{
    if text.len() == 0 || text[0] == LINE_FEED {
    } else {
        let rest = text.drop_first();
        lemma_first_break(rest);
        let cut = first_break(text);
        assert forall|i: int| 0 <= i < cut implies text.take(cut as int)[i] != LINE_FEED by {
            if i > 0 {
                assert(text.take(cut as int)[i] == rest.take(cut - 1)[i - 1]);
            }
        }
    }
}

/// An unbroken piece before a text moves the first line feed by its length.
pub proof fn lemma_first_break_after(piece: Seq<char>, rest: Seq<char>)
    requires
        unbroken(piece),
    ensures
        first_break(piece + rest) == piece.len() + first_break(rest),
    decreases piece.len(),
{
    if piece.len() == 0 {
        assert(piece + rest =~= rest);
    } else {
        let whole = piece + rest;
        assert(whole[0] == piece[0]);
        assert(whole.drop_first() =~= piece.drop_first() + rest);
        assert(unbroken(piece.drop_first())) by {
            assert forall|i: int| 0 <= i < piece.drop_first().len() implies piece.drop_first()[i]
                != LINE_FEED by {
                assert(piece.drop_first()[i] == piece[i + 1]);
            }
        }
        lemma_first_break_after(piece.drop_first(), rest);
    }
}

/// The lines of an unbroken piece, a line feed and more text: the piece, then
/// the lines of what follows.
pub proof fn lemma_lines_after_break(piece: Seq<char>, rest: Seq<char>)
    requires
        unbroken(piece),
    ensures
        lines_of(piece + seq![LINE_FEED] + rest) == seq![piece] + lines_of(rest),
{
    let whole = piece + seq![LINE_FEED] + rest;
    assert(whole =~= piece + (seq![LINE_FEED] + rest));
    lemma_first_break_after(piece, seq![LINE_FEED] + rest);
    assert((seq![LINE_FEED] + rest)[0] == LINE_FEED);
    assert(first_break(seq![LINE_FEED] + rest) == 0);
    assert(first_break(whole) == piece.len());
    assert(whole.take(piece.len() as int) =~= piece);
    assert(whole.skip((piece.len() + 1) as int) =~= rest);
}

/// An unbroken text is no line where it is empty, and one line otherwise.
pub proof fn lemma_lines_unbroken(piece: Seq<char>)
    requires
        unbroken(piece),
    ensures
        lines_of(piece) == if piece.len() == 0 {
            Seq::<Seq<char>>::empty()
        } else {
            seq![piece]
        },
{
    lemma_first_break_after(piece, Seq::empty());
    assert(piece + Seq::<char>::empty() =~= piece);
}

/// No line holds a line feed.
pub proof fn lemma_lines_are_unbroken(text: Seq<char>)
    ensures
        forall|i: int| 0 <= i < lines_of(text).len() ==> unbroken(#[trigger] lines_of(text)[i]),
    decreases text.len(),
{
    let cut = first_break(text);
    lemma_first_break(text);
    if text.len() == 0 {
    } else if cut >= text.len() {
        assert(text.take(cut as int) =~= text);
    } else {
        let rest = text.skip((cut + 1) as int);
        lemma_lines_are_unbroken(rest);
        assert forall|i: int| 0 <= i < lines_of(text).len() implies unbroken(
            #[trigger] lines_of(text)[i],
        ) by {
            if i > 0 {
                assert(lines_of(text)[i] == lines_of(rest)[i - 1]);
            }
        }
    }
}

/// A final line feed opens no empty line: a text that does not end in a line
/// feed has the same lines with a line feed behind it.
pub proof fn lemma_final_line_feed(text: Seq<char>)
    requires
        text.len() > 0,
        text.last() != LINE_FEED,
    ensures
        lines_of(text.push(LINE_FEED)) == lines_of(text),
    decreases text.len(),
{
    let cut = first_break(text);
    lemma_first_break(text);
    let piece = text.take(cut as int);
    if cut >= text.len() {
        assert(piece =~= text);
        lemma_lines_after_break(text, Seq::empty());
        assert(text + seq![LINE_FEED] + Seq::<char>::empty() =~= text.push(LINE_FEED));
    } else {
        let rest = text.skip((cut + 1) as int);
        assert(text =~= piece + seq![LINE_FEED] + rest);
        assert(rest.len() > 0);
        assert(rest.last() == text.last());
        lemma_final_line_feed(rest);
        lemma_lines_after_break(piece, rest);
        lemma_lines_after_break(piece, rest.push(LINE_FEED));
        assert(text.push(LINE_FEED) =~= piece + seq![LINE_FEED] + rest.push(LINE_FEED));
    }
}

/// The lines of two texts, one after the other, are the lines of the first and
/// then the lines of the second, where the first ends with a line feed or is
/// empty.
pub proof fn lemma_lines_of_texts(first: Seq<char>, second: Seq<char>)
    requires
        first.len() == 0 || first.last() == LINE_FEED,
    ensures
        lines_of(first + second) == lines_of(first) + lines_of(second),
    decreases first.len(),
{
    if first.len() == 0 {
        assert(first + second =~= second);
        assert(lines_of(first) + lines_of(second) =~= lines_of(second));
    } else {
        let cut = first_break(first);
        lemma_first_break(first);
        if cut >= first.len() {
            assert(first.take(cut as int) =~= first);
            assert(first[first.len() - 1] != LINE_FEED);
        }
        let piece = first.take(cut as int);
        let rest = first.skip((cut + 1) as int);
        assert(first =~= piece + seq![LINE_FEED] + rest);
        assert(first + second =~= piece + seq![LINE_FEED] + (rest + second));
        if rest.len() > 0 {
            assert(rest.last() == first.last());
        }
        lemma_lines_of_texts(rest, second);
        lemma_lines_after_break(piece, rest);
        lemma_lines_after_break(piece, rest + second);
        assert(seq![piece] + (lines_of(rest) + lines_of(second)) =~= (seq![piece] + lines_of(rest))
            + lines_of(second));
    }
}

/// Cuts `content` into its lines.
pub fn split_lines(content: &str) -> (lines: Vec<String>)
    ensures
        texts(lines@) == lines_of(content@),
{
    let mut lines: Vec<String> = Vec::new();
    let mut current = String::new();
    let chars = content.chars();
    proof {
        assert(texts(lines@) =~= Seq::<Seq<char>>::empty());
        assert(current@ + content@.skip(0) =~= content@);
    }
    for ch in it: chars
        invariant
            it.seq() == content@,
            unbroken(current@),
            lines_of(content@) == texts(lines@) + lines_of(current@ + content@.skip(it.index())),
    {
        let ghost piece = current@;
        let ghost rest = content@.skip(it.index() + 1);
        assert(content@.skip(it.index()) =~= seq![ch] + rest);
        if ch == LINE_FEED {
            proof {
                assert(piece + content@.skip(it.index()) =~= piece + seq![LINE_FEED] + rest);
                lemma_lines_after_break(piece, rest);
                assert(texts(lines@.push(current)) =~= texts(lines@) + seq![piece]);
                assert(Seq::<char>::empty() + rest =~= rest);
            }
            lines.push(current);
            current = String::new();
        } else {
            current.push(ch);
            proof {
                assert(piece.push(ch) + rest =~= piece + content@.skip(it.index()));
            }
        }
    }
    proof {
        assert(content@.skip(content@.len() as int) =~= Seq::<char>::empty());
        assert(current@ + Seq::<char>::empty() =~= current@);
        lemma_lines_unbroken(current@);
    }
    if !current.as_str().is_empty() {
        proof {
            assert(texts(lines@.push(current)) =~= texts(lines@) + seq![current@]);
        }
        lines.push(current);
    }
    lines
}

} // verus!
