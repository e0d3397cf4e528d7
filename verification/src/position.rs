//! Line and character positions of byte offsets into a source text.
//!
//! A text is cut into lines at each line feed; a carriage return directly
//! before the line feed belongs to the line ending. Every byte of the text
//! lies on one line: a line takes its own bytes and those of its ending, and
//! the last line, where it has no ending, takes the end of the text as well.
//! An offset is resolved to the line that takes it and to its distance from
//! the first byte of that line.
//!
//! Characters are counted in bytes, not in code points or UTF-16 units, so on
//! a line with multi-byte characters the character of a position differs from
//! what an editor counts.

use crate::scan::{find_line_break, lemma_line_break, line_break};
use vstd::prelude::*;
use vstd::string::StringSliceAdditionalSpecFns;

verus! {

/// A zero-based line and a byte offset within that line.
#[derive(Clone, Copy, Debug, PartialEq, Eq, Structural)]
pub struct Position {
    pub line: usize,
    pub character: usize,
}

/// A start and an end position.
#[derive(Clone, Copy, Debug, PartialEq, Eq, Structural)]
pub struct Range {
    pub start: Position,
    pub end: Position,
}

impl View for Position {
    type V = (int, int);

    /// The position as the pair of its line and its character.
    open spec fn view(&self) -> (int, int) {
        (self.line as int, self.character as int)
    }
}

/// A line's bytes without the carriage return that ends them, if there is one.
pub open spec fn without_carriage_return(line: Seq<u8>) -> Seq<u8> {
    if line.len() > 0 && line.last() == 13 {
        line.drop_last()
    } else {
        line
    }
}

/// The lines of `text` from byte `pos` on. A line ends with a line feed, or
/// with a carriage return and a line feed, neither of which belongs to it;
/// what follows the last line feed is a line too, unless it is empty.
pub open spec fn lines_from(text: Seq<u8>, pos: int) -> Seq<Seq<u8>>
    decreases text.len() - pos,
{
    if pos < 0 || pos >= text.len() {
        Seq::empty()
    } else {
        let stop = line_break(text, pos);
        if pos <= stop < text.len() {
            seq![without_carriage_return(text.subrange(pos, stop))] + lines_from(text, stop + 1)
        } else {
            seq![text.subrange(pos, text.len() as int)]
        }
    }
}

/// The lines of `text`.
pub open spec fn lines_of(text: Seq<u8>) -> Seq<Seq<u8>> {
    lines_from(text, 0)
}

/// The offset at which line `i` of `text` begins: one past the line feed that
/// ends the line before. For the number of lines it is where the last line
/// stops taking offsets: the length of a text that ends with a line feed, one
/// more for any other text.
pub open spec fn line_start(text: Seq<u8>, i: int) -> int
    decreases i,
{
    if i <= 0 {
        0
    } else {
        line_break(text, line_start(text, i - 1)) + 1
    }
}

/// The number of bytes of the ending of line `i`: 2 for a carriage return and
/// a line feed, 1 for a line feed alone, and 1 for the end of the text where
/// the last line has no ending.
pub open spec fn ending_length(text: Seq<u8>, i: int) -> int {
    line_start(text, i + 1) - line_start(text, i) - lines_of(text)[i].len()
}

/// The first line at or after line `from` whose successor begins after
/// `offset`, or the number of lines where there is none.
pub open spec fn first_line_past(text: Seq<u8>, offset: int, from: int) -> int
    decreases lines_of(text).len() - from,
{
    if from < 0 || from >= lines_of(text).len() {
        lines_of(text).len() as int
    } else if offset < line_start(text, from + 1) {
        from
    } else {
        first_line_past(text, offset, from + 1)
    }
}

/// The line that takes `offset` as a start: the first line `i` with
/// `offset < line_start(text, i + 1)`. The number of lines where no line
/// takes it.
pub open spec fn taking_line(text: Seq<u8>, offset: int) -> int {
    first_line_past(text, offset, 0)
}

/// The first line at or after line `from` that `offset` lies on or directly
/// after: the first line `i` with `offset <= line_start(text, i + 1)`. The
/// number of lines where there is none.
pub open spec fn reaching_line(text: Seq<u8>, offset: int, from: int) -> int {
    first_line_past(text, offset - 1, from)
}

/// The position of a range's start. It is on the line that takes the offset,
/// whatever the range's end is. An offset that no line takes, as the end of a
/// text that ends with a line feed, is resolved as the end of a range is: to
/// the line that it directly follows. What is left is line 0, character 0.
pub open spec fn resolved_start(text: Seq<u8>, start: int) -> (int, int) {
    let i = taking_line(text, start);
    let j = reaching_line(text, start, 0);
    if i < lines_of(text).len() {
        (i, start - line_start(text, i))
    } else if j < lines_of(text).len() {
        (j, start - line_start(text, j))
    } else {
        (0, 0)
    }
}

/// The position of the end of a range from `start` to `end`. It is looked for
/// from the line of the range's start on: it is on the first line that it
/// lies on or directly after. An end that lies before the line of the start,
/// or after all lines, is line 0, character 0.
pub open spec fn resolved_end(text: Seq<u8>, start: int, end: int) -> (int, int) {
    let j = reaching_line(text, end, resolved_start(text, start).0);
    if j < lines_of(text).len() && line_start(text, j) <= end {
        (j, end - line_start(text, j))
    } else {
        (0, 0)
    }
}

/// Whether `offset` directly follows the ending of a line: it is where a line
/// after the first begins, or where the last line stops.
pub open spec fn follows_line_ending(text: Seq<u8>, offset: int) -> bool {
    exists|k: int| 1 <= k <= lines_of(text).len() && offset == #[trigger] line_start(text, k)
}

/// Whether a line feed of `text` has a carriage return directly before it.
pub open spec fn has_carriage_return_ending(text: Seq<u8>) -> bool {
    exists|i: int| 1 <= i < text.len() && #[trigger] text[i] == 10 && text[i - 1] == 13
}

/// Where the lines begin: line `i` begins within the text, at or after byte
/// `i`, the lines from line `i` on are the lines of the text from there on,
/// and the last line stops at the length of the text or one past it.
pub proof fn lemma_line_starts(text: Seq<u8>, i: int)
    requires
        0 <= i <= lines_of(text).len(),
    ensures
        i <= line_start(text, i) <= text.len() + 1,
        lines_of(text).skip(i) =~= lines_from(text, line_start(text, i)),
        i < lines_of(text).len() ==> line_start(text, i) < text.len(),
        i == lines_of(text).len() ==> line_start(text, i) >= text.len(),
    decreases i,
{
    let lines = lines_of(text);
    if i == 0 {
        assert(lines.skip(0) =~= lines);
    } else {
        lemma_line_starts(text, i - 1);
        let begin = line_start(text, i - 1);
        lemma_line_break(text, begin);
        let stop = line_break(text, begin);
        assert(lines.skip(i) =~= lines.skip(i - 1).skip(1));
        if stop < text.len() {
            assert(lines_from(text, begin).skip(1) =~= lines_from(text, stop + 1));
        } else {
            assert(lines_from(text, begin).skip(1) =~= Seq::<Seq<u8>>::empty());
        }
    }
}

/// Lines begin at growing offsets: `j - i` lines take at least `j - i` bytes.
pub proof fn lemma_line_start_grows(text: Seq<u8>, i: int, j: int)
    requires
        0 <= i <= j <= lines_of(text).len(),
    ensures
        line_start(text, i) + (j - i) <= line_start(text, j),
    decreases j - i,
{
    if i < j {
        lemma_line_start_grows(text, i, j - 1);
        lemma_line_starts(text, j - 1);
        lemma_line_break(text, line_start(text, j - 1));
    }
}

/// What a line takes: its own bytes, which lie in the text from where the
/// line begins, and an ending of one byte or two. The ending has two bytes
/// where a carriage return stands before the line feed, which happens in no
/// text without such a pair.
pub proof fn lemma_line_ending(text: Seq<u8>, i: int)
    requires
        0 <= i < lines_of(text).len(),
    ensures
        1 <= ending_length(text, i) <= 2,
        lines_of(text)[i] == text.subrange(
            line_start(text, i),
            line_start(text, i) + lines_of(text)[i].len(),
        ),
        !has_carriage_return_ending(text) ==> ending_length(text, i) == 1,
{
    let lines = lines_of(text);
    let begin = line_start(text, i);
    lemma_line_starts(text, i);
    lemma_line_break(text, begin);
    let stop = line_break(text, begin);
    assert(lines[i] == lines.skip(i)[0]);
    if stop < text.len() {
        let whole = text.subrange(begin, stop);
        assert(lines[i] == without_carriage_return(whole));
        if whole.len() > 0 && whole.last() == 13 {
            assert(text[stop] == 10 && text[stop - 1] == 13);
            assert(whole.drop_last() =~= text.subrange(begin, stop - 1));
        }
    }
}

/// What `first_line_past` finds: no line from `from` up to the result has a
/// successor that begins after `offset`, and the result has one, if it is a
/// line.
pub proof fn lemma_first_line_past(text: Seq<u8>, offset: int, from: int)
    requires
        0 <= from <= lines_of(text).len(),
    ensures
        from <= first_line_past(text, offset, from) <= lines_of(text).len(),
        first_line_past(text, offset, from) < lines_of(text).len() ==> offset < line_start(
            text,
            first_line_past(text, offset, from) + 1,
        ),
        forall|k: int|
            from <= k < first_line_past(text, offset, from) ==> offset >= #[trigger] line_start(
                text,
                k + 1,
            ),
    decreases lines_of(text).len() - from,
{
    if from < lines_of(text).len() && offset >= line_start(text, from + 1) {
        lemma_first_line_past(text, offset, from + 1);
    }
}

/// The line that `first_line_past` finds is the only line at or after `from`
/// whose successor begins after `offset` while no line between has such a
/// successor.
pub proof fn lemma_first_line_past_is(text: Seq<u8>, offset: int, from: int, line: int)
    requires
        0 <= from <= line <= lines_of(text).len(),
        line < lines_of(text).len() ==> offset < line_start(text, line + 1),
        forall|k: int| from <= k < line ==> offset >= #[trigger] line_start(text, k + 1),
    ensures
        first_line_past(text, offset, from) == line,
{
    lemma_first_line_past(text, offset, from);
    let found = first_line_past(text, offset, from);
    if found < line {
        assert(offset >= line_start(text, found + 1));
    }
    if line < found {
        assert(offset >= line_start(text, line + 1));
    }
}

/// Where the last line stops: at the length of a text that ends with a line
/// feed, and one past the length of any other text.
pub proof fn lemma_last_line_stop(text: Seq<u8>)
    requires
        text.len() > 0,
    ensures
        lines_of(text).len() > 0,
        line_start(text, lines_of(text).len() as int) == if text.last() == 10 {
            text.len() as int
        } else {
            (text.len() + 1) as int
        },
{
    let count = lines_of(text).len() as int;
    lemma_line_starts(text, count);
    lemma_line_starts(text, count - 1);
    lemma_line_break(text, line_start(text, count - 1));
}

/// A range without bytes is resolved to one position, start and end alike,
/// wherever it lies.
pub proof fn lemma_empty_range_resolved(text: Seq<u8>, at: int)
    requires
        0 <= at,
    ensures
        resolved_start(text, at) == resolved_end(text, at, at),
{
    let count = lines_of(text).len() as int;
    lemma_first_line_past(text, at, 0);
    lemma_first_line_past(text, at - 1, 0);
    let taking = taking_line(text, at);
    let reaching = reaching_line(text, at, 0);
    if taking < count {
        if taking > 0 {
            assert(at >= line_start(text, (taking - 1) + 1));
        }
    } else if reaching < count {
        if reaching > 0 {
            assert(at - 1 >= line_start(text, (reaching - 1) + 1));
        }
    }
}

/// Where the positions of a range lie that lies within a text that is not
/// empty.
///
/// Both are on lines of the text, the start on no later line than the end,
/// and on one line at no later character. Each gives its offset back: the
/// line begins at the offset less the character.
///
/// A character is at most the length of its line and of the line's ending.
/// It is less than that, so within the line or on its ending, but for two
/// cases. An end that directly follows a line's ending is the character one
/// past that ending, on that line, where the range begins before it or the
/// text ends there. A start is so only where the text ends with a line feed
/// and the range begins at the end of the text.
///
/// The end of the text is resolved on the last line.
pub proof fn lemma_resolved_within_lines(text: Seq<u8>, start: int, end: int)
    requires
        text.len() > 0,
        0 <= start <= end <= text.len(),
    ensures
        ({
            let lines = lines_of(text);
            let s = resolved_start(text, start);
            let e = resolved_end(text, start, end);
            let stop = line_start(text, lines.len() as int);
            &&& 0 <= s.0 <= e.0 < lines.len()
            &&& s.0 == e.0 ==> s.1 <= e.1
            &&& line_start(text, s.0) + s.1 == start
            &&& line_start(text, e.0) + e.1 == end
            &&& 0 <= s.1 <= lines[s.0].len() + ending_length(text, s.0)
            &&& 0 <= e.1 <= lines[e.0].len() + ending_length(text, e.0)
            &&& s.1 == lines[s.0].len() + ending_length(text, s.0) <==> start == stop
            &&& e.1 == lines[e.0].len() + ending_length(text, e.0) <==> follows_line_ending(
                text,
                end,
            ) && (start < end || end == stop)
            &&& end == text.len() ==> e.0 == lines.len() - 1
        }),
{
    let count = lines_of(text).len() as int;
    let stop = line_start(text, count);
    lemma_last_line_stop(text);
    lemma_line_starts(text, count);
    lemma_line_starts(text, count - 1);
    lemma_first_line_past(text, start, 0);
    lemma_first_line_past(text, start - 1, 0);
    let taking = taking_line(text, start);
    if start < stop {
        if taking == count {
            assert(start >= line_start(text, (count - 1) + 1));
        }
        if taking > 0 {
            assert(start >= line_start(text, (taking - 1) + 1));
        }
    } else {
        assert forall|k: int| 0 <= k < count implies start >= #[trigger] line_start(
            text,
            k + 1,
        ) by {
            lemma_line_start_grows(text, k + 1, count);
        }
        lemma_first_line_past_is(text, start, 0, count);
        assert forall|k: int| 0 <= k < count - 1 implies start - 1 >= #[trigger] line_start(
            text,
            k + 1,
        ) by {
            lemma_line_start_grows(text, k + 1, count);
        }
        lemma_first_line_past_is(text, start - 1, 0, count - 1);
    }
    let s = resolved_start(text, start);
    assert(0 <= s.0 < count);
    assert(line_start(text, s.0) + s.1 == start);
    lemma_first_line_past(text, end - 1, s.0);
    let line = reaching_line(text, end, s.0);
    if line == count {
        assert(end - 1 >= line_start(text, (count - 1) + 1));
    }
    if line > s.0 {
        assert(end - 1 >= line_start(text, (line - 1) + 1));
    }
    let e = resolved_end(text, start, end);
    assert(e == (line, end - line_start(text, line)));
    if end == text.len() && line < count - 1 {
        lemma_line_start_grows(text, line + 1, count - 1);
    }
    if end == line_start(text, line + 1) {
        assert(follows_line_ending(text, end));
        if start == end && end != stop {
            lemma_line_start_grows(text, line + 1, count);
            assert forall|k: int| 0 <= k < line + 1 implies start >= #[trigger] line_start(
                text,
                k + 1,
            ) by {
                lemma_line_start_grows(text, k + 1, line + 1);
            }
            lemma_line_start_grows(text, line + 1, line + 2);
            lemma_first_line_past_is(text, start, 0, line + 1);
        }
    }
    if follows_line_ending(text, end) && (start < end || end == stop) {
        let k = choose|k: int| 1 <= k <= count && end == #[trigger] line_start(text, k);
        if end == stop && k < count {
            lemma_line_start_grows(text, k, count);
        }
        if start < end && s.0 > k - 1 {
            if s.0 > 0 {
                assert(start >= line_start(text, (s.0 - 1) + 1));
            }
            lemma_line_start_grows(text, k, s.0);
        }
        assert forall|m: int| s.0 <= m < k - 1 implies end - 1 >= #[trigger] line_start(
            text,
            m + 1,
        ) by {
            lemma_line_start_grows(text, m + 1, k);
        }
        lemma_first_line_past_is(text, end - 1, s.0, k - 1);
    }
}

/// In a text whose line endings are line feeds alone, a position's character
/// is at most the length of its line, but for the two cases in which it is
/// one more: an end directly after a line feed, of a range that begins before
/// it or at the end of the text, and a start at the end of a text that ends
/// with a line feed.
pub proof fn lemma_plain_within_lines(text: Seq<u8>, start: int, end: int)
    requires
        text.len() > 0,
        !has_carriage_return_ending(text),
        0 <= start <= end <= text.len(),
    ensures
        ({
            let lines = lines_of(text);
            let s = resolved_start(text, start);
            let e = resolved_end(text, start, end);
            &&& 0 <= s.0 < lines.len()
            &&& 0 <= e.0 < lines.len()
            &&& 0 <= s.1 <= lines[s.0].len() + 1
            &&& 0 <= e.1 <= lines[e.0].len() + 1
            &&& s.1 == lines[s.0].len() + 1 <==> start == text.len() && text.last() == 10
            &&& e.1 == lines[e.0].len() + 1 <==> follows_line_ending(text, end) && (start < end
                || end == text.len())
        }),
{
    let count = lines_of(text).len() as int;
    lemma_resolved_within_lines(text, start, end);
    lemma_last_line_stop(text);
    lemma_line_ending(text, resolved_start(text, start).0);
    lemma_line_ending(text, resolved_end(text, start, end).0);
    if follows_line_ending(text, end) && end == text.len() {
        let k = choose|k: int| 1 <= k <= count && end == #[trigger] line_start(text, k);
        if k < count {
            lemma_line_starts(text, k);
        }
    }
}

/// The first line at or after line `index`, which begins at `pos`, whose
/// successor begins after `offset`, or at `offset` where `reaching` is set:
/// the line, and the offset at which it begins. `None` where there is no such
/// line.
fn find_line(text: &[u8], offset: usize, reaching: bool, pos: usize, index: usize) -> (r: Option<
    (usize, usize),
>)
    requires
        index <= lines_of(text@).len(),
        pos == line_start(text@, index as int),
    ensures
        ({
            let key = if reaching {
                offset - 1
            } else {
                offset as int
            };
            let found = first_line_past(text@, key, index as int);
            match r {
                Some((line, begin)) => {
                    &&& line == found
                    &&& index <= line < lines_of(text@).len()
                    &&& begin == line_start(text@, line as int)
                    &&& line > index ==> begin <= key
                },
                None => found == lines_of(text@).len(),
            }
        }),
{
    let ghost key: int = if reaching {
        offset - 1
    } else {
        offset as int
    };
    let mut begin: usize = pos;
    let mut line: usize = index;
    proof {
        lemma_line_starts(text@, line as int);
        lemma_first_line_past(text@, key, line as int);
    }
    while begin < text.len()
        invariant
            index <= line <= lines_of(text@).len(),
            line <= begin,
            begin == line_start(text@, line as int),
            key == if reaching {
                offset - 1
            } else {
                offset as int
            },
            first_line_past(text@, key, index as int) == first_line_past(text@, key, line as int),
            line > index ==> begin <= key,
        decreases text.len() - begin,
    {
        let stop: usize = find_line_break(text, begin);
        proof {
            lemma_line_starts(text@, line as int);
            lemma_line_break(text@, begin as int);
            lemma_line_starts(text@, line + 1);
            assert(line_start(text@, line + 1) == stop + 1);
            assert(first_line_past(text@, key, line as int) == if key < stop + 1 {
                line as int
            } else {
                first_line_past(text@, key, line + 1)
            });
        }
        let within: bool = offset <= stop || (reaching && offset - 1 == stop);
        if within {
            return Some((line, begin));
        }
        if stop == text.len() {
            return None;
        }
        begin = stop + 1;
        line = line + 1;
    }
    proof {
        lemma_line_starts(text@, line as int);
    }
    None
}

/// The range of positions that the byte range from `start` to `end` of
/// `text` is resolved to.
///
/// The start is on the line that takes it, at its distance from the first
/// byte of that line. The end is looked for from that line on, and is on the
/// first line that it lies on or directly after. So the end of a range that
/// reaches up to the first byte of a later line is on the line before, one
/// past its ending, while a range without bytes is resolved to one position,
/// start and end alike. The end of a text that ends with a line feed is on
/// the last line, one past its ending, as a start too. What no line takes is
/// line 0, character 0.
///
/// The result depends on the bytes of `text` and on the two offsets alone:
/// the same range of the same text is resolved to the same positions, however
/// often it is asked for.
pub fn resolve(text: &str, start: usize, end: usize) -> (r: Range)
    ensures
        r.start@ == resolved_start(text.spec_bytes(), start as int),
        r.end@ == resolved_end(text.spec_bytes(), start as int, end as int),
{
    let bytes = text.as_bytes();
    let nowhere = Position { line: 0, character: 0 };
    let (first, line, begin) = match find_line(bytes, start, false, 0, 0) {
        Some((line, begin)) => (Position { line, character: start - begin }, line, begin),
        None => match find_line(bytes, start, true, 0, 0) {
            Some((line, begin)) => (Position { line, character: start - begin }, line, begin),
            None => (nowhere, 0, 0),
        },
    };
    let last = match find_line(bytes, end, true, begin, line) {
        Some((line, begin)) => if begin <= end {
            Position { line, character: end - begin }
        } else {
            nowhere
        },
        None => nowhere,
    };
    Range { start: first, end: last }
}

} // verus!
