//! Splitting a text into lines that keep their terminators.

use vstd::prelude::*;

verus! {

/// `String::push` appends one character to the end of the string.
pub assume_specification[ String::push ](s: &mut String, ch: char)
    ensures
        final(s)@ == old(s)@.push(ch),
;

/// Whether a line break falls between positions `i - 1` and `i` of `text`:
/// after a line feed, and after a carriage return that no line feed follows.
pub open spec fn breaks_before(text: Seq<char>, i: int) -> bool {
    0 < i < text.len() && (text[i - 1] == '\n' || (text[i - 1] == '\r' && text[i] != '\n'))
}

/// The lines of the first `n` characters of `text`; the last of them may be
/// the beginning of a line that goes on beyond `n`.
pub open spec fn lines_upto(text: Seq<char>, n: int) -> Seq<Seq<char>>
    decreases n,
{
    if n <= 0 {
        Seq::empty()
    } else if n == 1 || breaks_before(text, n - 1) {
        lines_upto(text, n - 1).push(seq![text[n - 1]])
    } else {
        let before = lines_upto(text, n - 1);
        before.drop_last().push(before.last().push(text[n - 1]))
    }
}

/// The lines of `text`, each with its terminator (`"\n"`, `"\r\n"` or a lone
/// `"\r"`); a last line without terminator is kept as it is.
pub open spec fn lines_of(text: Seq<char>) -> Seq<Seq<char>> {
    lines_upto(text, text.len() as int)
}

/// The lines one behind the other, as one text.
pub open spec fn joined_lines(lines: Seq<Seq<char>>) -> Seq<char>
    decreases lines.len(),
{
    if lines.len() == 0 {
        Seq::empty()
    } else {
        joined_lines(lines.drop_last()) + lines.last()
    }
}

/// The lines of the first `n` characters of a text make up these
/// characters, and none of the lines is empty.
pub proof fn lemma_lines_upto(text: Seq<char>, n: int)
    requires
        0 <= n <= text.len(),
    ensures
        joined_lines(lines_upto(text, n)) == text.take(n),
        n > 0 ==> lines_upto(text, n).len() > 0,
        forall|i: int| 0 <= i < lines_upto(text, n).len() ==> lines_upto(text, n)[i].len() > 0,
    decreases n,
{
    if n > 0 {
        lemma_lines_upto(text, n - 1);
        let before = lines_upto(text, n - 1);
        let lines = lines_upto(text, n);
        if n == 1 || breaks_before(text, n - 1) {
            assert(lines.drop_last() =~= before);
        } else {
            assert(lines.drop_last() =~= before.drop_last());
        }
        assert(text.take(n) =~= text.take(n - 1) + seq![text[n - 1]]);
    }
}

/// Splitting loses nothing: the lines of a text, one behind the other, are
/// the text; and no line is empty.
pub proof fn lemma_lines_join(text: Seq<char>)
    ensures
        joined_lines(lines_of(text)) == text,
        forall|i: int| 0 <= i < lines_of(text).len() ==> lines_of(text)[i].len() > 0,
{
    lemma_lines_upto(text, text.len() as int);
}

/// Whether `line` is one line and no more: it is not empty and no line
/// break falls inside it.
pub open spec fn is_one_line(line: Seq<char>) -> bool {
    line.len() > 0 && forall|i: int| 0 < i < line.len() ==> !breaks_before(line, i)
}

/// Whether a line break falls behind `line` when `next` follows it.
pub open spec fn breaks_between(line: Seq<char>, next: Seq<char>) -> bool {
    line.len() > 0 && next.len() > 0 && (line.last() == '\n' || (line.last() == '\r' && next[0]
        != '\n'))
}

proof fn lemma_shape_upto(text: Seq<char>, n: int)
    requires
        0 <= n <= text.len(),
    ensures
        n > 0 ==> lines_upto(text, n).len() > 0 && lines_upto(text, n).last().len() > 0
            && lines_upto(text, n).last().last() == text[n - 1],
        forall|i: int|
            0 <= i < lines_upto(text, n).len() ==> is_one_line(#[trigger] lines_upto(text, n)[i]),
        forall|i: int|
            0 <= i < lines_upto(text, n).len() - 1 ==> breaks_between(
                #[trigger] lines_upto(text, n)[i],
                lines_upto(text, n)[i + 1],
            ),
    decreases n,
{
    if n > 0 {
        lemma_shape_upto(text, n - 1);
        let before = lines_upto(text, n - 1);
        let lines = lines_upto(text, n);
        let ch = text[n - 1];
        if n == 1 || breaks_before(text, n - 1) {
            assert forall|i: int| 0 <= i < lines.len() - 1 implies breaks_between(
                #[trigger] lines[i],
                lines[i + 1],
            ) by {}
        } else {
            let open_line = before.last();
            let longer = open_line.push(ch);
            assert forall|i: int| 0 < i < longer.len() implies !breaks_before(longer, i) by {
                if i < open_line.len() {
                    assert(!breaks_before(open_line, i));
                }
            }
            assert forall|i: int| 0 <= i < lines.len() implies is_one_line(#[trigger] lines[i]) by {}
            assert forall|i: int| 0 <= i < lines.len() - 1 implies breaks_between(
                #[trigger] lines[i],
                lines[i + 1],
            ) by {}
        }
    }
}

/// Each line of a text is one line and no more, and a line break falls
/// behind each but the last.
pub proof fn lemma_lines_shape(text: Seq<char>)
    ensures
        forall|i: int| 0 <= i < lines_of(text).len() ==> is_one_line(#[trigger] lines_of(text)[i]),
        forall|i: int|
            0 <= i < lines_of(text).len() - 1 ==> breaks_between(
                #[trigger] lines_of(text)[i],
                lines_of(text)[i + 1],
            ),
{
    lemma_shape_upto(text, text.len() as int);
}

/// The contents of a vector of lines.
pub open spec fn line_views(lines: Seq<String>) -> Seq<Seq<char>> {
    lines.map_values(|line: String| line@)
}

/// Splits `text` into its lines.
pub fn split_lines(text: &str) -> (lines: Vec<String>)
    ensures
        line_views(lines@) == lines_of(text@),
{
    let mut lines: Vec<String> = Vec::new();
    let mut current = String::new();
    let mut last: Option<char> = None;
    for ch in it: text.chars()
        invariant
            it.seq() == text@,
            it.index() == 0 <==> last is None,
            it.index() > 0 ==> last == Some(text@[it.index() - 1]),
            it.index() == 0 ==> lines@.len() == 0 && current@.len() == 0,
            it.index() > 0 ==> line_views(lines@).push(current@) == lines_upto(text@, it.index()),
    {
        if let Some(before) = last {
            if before == '\n' || (before == '\r' && ch != '\n') {
                lines.push(current);
                current = String::new();
            }
        } else {
            assert(current@.push(ch) =~= seq![ch]);
            assert(lines_upto(text@, 0) =~= Seq::<Seq<char>>::empty());
        }
        current.push(ch);
        last = Some(ch);
    }
    if last.is_some() {
        lines.push(current);
    }
    lines
}

} // verus!
