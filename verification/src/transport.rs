//! Framing of messages on a byte stream.
//!
//! A message travels as a frame: the header line `Content-Length: <n>`, an
//! empty line, and then the `n` bytes of the body. Lines end with a carriage
//! return and a line feed. A reader goes by the line feeds alone and takes any
//! white space around a header's value, so it reads frames whose lines end
//! with a bare line feed too.

use crate::decimal::{
    decimal_digits,
    is_digit,
    lemma_decimal_digits_shape,
    lemma_unsigned_value_of_decimal,
    parse_unsigned,
    push_decimal,
    unsigned_value,
};
use crate::scan::{
    find_line_break,
    lemma_line_break,
    lemma_line_break_at,
    lemma_trimmed_core,
    lemma_trimmed_spaces,
    line_break,
    trim_bounds,
    trimmed,
};
use vstd::prelude::*;
use vstd::slice::{slice_subrange, slice_to_vec};

verus! {

/// The name of the header that gives the length of a body, with its colon:
/// `Content-Length:`.
pub const LENGTH_HEADER: [u8; 15] = [
    67,
    111,
    110,
    116,
    101,
    110,
    116,
    45,
    76,
    101,
    110,
    103,
    116,
    104,
    58,
];

/// What one line of a frame's header says.
#[derive(Clone, Copy, Debug, PartialEq, Eq, Structural)]
pub enum Header {
    /// The empty line that ends the header.
    End,
    /// The length of the body.
    Length(usize),
    /// A length header whose value is no number that fits a `usize`.
    Corrupt,
    /// Any other line.
    Other,
}

/// Where a reader stands between two lines of a header.
#[derive(Clone, Copy, Debug, PartialEq, Eq, Structural)]
pub enum ReaderState {
    /// Within a header, with the length that it has given so far.
    Header { length: usize },
    /// After a corrupt length, looking for the next length header.
    Resync,
}

/// What a reader reads next.
#[derive(Clone, Copy, Debug, PartialEq, Eq, Structural)]
pub enum ReadStep {
    /// The next line.
    Line,
    /// A body of this many bytes, and after it the first line of a header.
    Body(usize),
}

/// One message as it was read from a byte text.
#[derive(Clone, Debug, PartialEq, Eq)]
pub struct Frame {
    /// The body of the message.
    pub body: Vec<u8>,
    /// The offset in the text of the byte after the body.
    pub next: usize,
}

/// Whether `line` begins with the name of the length header.
pub open spec fn names_length(line: Seq<u8>) -> bool {
    line.len() >= LENGTH_HEADER@.len() && line.subrange(0, LENGTH_HEADER@.len() as int)
        == LENGTH_HEADER@
}

/// What the header line `line` says. A line of white space alone ends the
/// header. A line that begins with `Content-Length:` gives the length: after
/// the colon, and between any white space, an unsigned decimal number. The
/// name of the header is matched byte by byte, and nothing may stand before
/// it.
pub open spec fn header_of(line: Seq<u8>) -> Header {
    if trimmed(line).len() == 0 {
        Header::End
    } else if names_length(line) {
        match unsigned_value(trimmed(line.skip(LENGTH_HEADER@.len() as int))) {
            Some(n) => Header::Length(n),
            None => Header::Corrupt,
        }
    } else {
        Header::Other
    }
}

/// The state in which a reader begins: within a header that has given no
/// length yet, which stands for a body of no bytes.
pub open spec fn start_state() -> ReaderState {
    ReaderState::Header { length: 0 }
}

/// The state of a reader after a header line, and what it reads next.
///
/// Within a header, a length replaces the one before, the empty line asks for
/// the body, and any other line is passed over. A corrupt length spoils the
/// frame, whose own length nobody knows then: the reader passes over every
/// line until one gives a length, and takes that line for the beginning of
/// the next header.
pub open spec fn after_header(state: ReaderState, header: Header) -> (ReaderState, ReadStep) {
    match state {
        ReaderState::Header { length } => match header {
            Header::End => (start_state(), ReadStep::Body(length)),
            Header::Length(n) => (ReaderState::Header { length: n }, ReadStep::Line),
            Header::Corrupt => (ReaderState::Resync, ReadStep::Line),
            Header::Other => (state, ReadStep::Line),
        },
        ReaderState::Resync => match header {
            Header::Length(n) => (ReaderState::Header { length: n }, ReadStep::Line),
            _ => (ReaderState::Resync, ReadStep::Line),
        },
    }
}

/// The offset after the line of `input` that begins at `from`: after its
/// line feed, or the end of `input` where no line feed follows.
pub open spec fn line_end(input: Seq<u8>, from: int) -> int {
    let stop = line_break(input, from);
    if stop < input.len() {
        stop + 1
    } else {
        input.len() as int
    }
}

/// The body of the next message of `input` for a reader that stands at offset
/// `from` in `state`: the offset of its first byte, and the offset after its
/// last. `None` where `input` ends before the header does, or before the body
/// is complete.
pub open spec fn next_frame(input: Seq<u8>, from: int, state: ReaderState) -> Option<(int, int)>
    decreases input.len() - from,
{
    if from < 0 || from >= input.len() {
        None
    } else {
        let end = line_end(input, from);
        let (then, step) = after_header(state, header_of(input.subrange(from, end)));
        match step {
            ReadStep::Body(n) => if end + n <= input.len() {
                Some((end, end + n))
            } else {
                None
            },
            ReadStep::Line => if from < end {
                next_frame(input, end, then)
            } else {
                None
            },
        }
    }
}

/// The frame of a message with the body `body`.
pub open spec fn framed(body: Seq<u8>) -> Seq<u8> {
    LENGTH_HEADER@ + seq![32u8] + decimal_digits(body.len()) + seq![13u8, 10u8, 13u8, 10u8] + body
}

/// A message that is read lies after the place where the reader stood, and
/// within the input.
pub proof fn lemma_next_frame_advances(input: Seq<u8>, from: int, state: ReaderState)
    ensures
        match next_frame(input, from, state) {
            Some((first, next)) => from < first <= next <= input.len(),
            None => true,
        },
    decreases input.len() - from,
{
    if 0 <= from < input.len() {
        lemma_line_break(input, from);
        let end = line_end(input, from);
        let (then, step) = after_header(state, header_of(input.subrange(from, end)));
        if step == ReadStep::Line {
            lemma_next_frame_advances(input, end, then);
        }
    }
}

/// The header line that `write_message` writes for a body of `length` bytes
/// gives that length.
pub proof fn lemma_length_line(length: usize)
    ensures
        header_of(
            LENGTH_HEADER@ + seq![32u8] + decimal_digits(length as nat) + seq![13u8, 10u8],
        ) == Header::Length(length),
{
    let digits = decimal_digits(length as nat);
    let line = LENGTH_HEADER@ + seq![32u8] + digits + seq![13u8, 10u8];
    lemma_decimal_digits_shape(length as nat);
    lemma_unsigned_value_of_decimal(length);
    assert(is_digit(digits.first()) && is_digit(digits.last()));
    assert(line =~= Seq::<u8>::empty() + (LENGTH_HEADER@ + seq![32u8] + digits) + seq![
        13u8,
        10u8,
    ]);
    lemma_trimmed_core(
        Seq::<u8>::empty(),
        LENGTH_HEADER@ + seq![32u8] + digits,
        seq![13u8, 10u8],
    );
    assert(line.subrange(0, LENGTH_HEADER@.len() as int) =~= LENGTH_HEADER@);
    assert(line.skip(LENGTH_HEADER@.len() as int) =~= seq![32u8] + digits + seq![13u8, 10u8]);
    lemma_trimmed_core(seq![32u8], digits, seq![13u8, 10u8]);
}

/// A line of a carriage return and a line feed ends a header.
pub proof fn lemma_empty_line()
    ensures
        header_of(seq![13u8, 10u8]) == Header::End,
{
    lemma_trimmed_spaces(seq![13u8, 10u8]);
}

/// What is written is read back: a reader that begins at the first byte of a
/// frame written for `body` reads a message whose body is `body`, with the
/// length that the header states, and stands after the frame then, whatever
/// came before the frame and whatever follows it. So frames that are written
/// one after another are read one after another.
pub proof fn lemma_frame_round_trip(before: Seq<u8>, body: Seq<u8>, rest: Seq<u8>)
    requires
        body.len() <= usize::MAX,
    ensures
        framed(body).len() > body.len(),
        next_frame(before + framed(body) + rest, before.len() as int, start_state()) == Some(
            (
                before.len() + framed(body).len() - body.len(),
                (before.len() + framed(body).len()) as int,
            ),
        ),
        (before + framed(body) + rest).subrange(
            before.len() + framed(body).len() - body.len(),
            (before.len() + framed(body).len()) as int,
        ) == body,
{
    let length = body.len() as usize;
    let digits = decimal_digits(body.len());
    let input = before + framed(body) + rest;
    let first = LENGTH_HEADER@ + seq![32u8] + digits + seq![13u8, 10u8];
    let from: int = before.len() as int;
    let begin: int = from + first.len();
    let second: int = begin + 2;
    lemma_decimal_digits_shape(body.len());
    lemma_length_line(length);
    lemma_empty_line();
    assert forall|j: int| from <= j < begin implies input[j] == first[j - from] by {}
    assert forall|j: int| from <= j < begin - 1 implies input[j] != 10 by {
        let k = j - from;
        if k >= LENGTH_HEADER@.len() + 1 && k < first.len() - 2 {
            assert(first[k] == digits[k - LENGTH_HEADER@.len() - 1]);
            assert(is_digit(digits[k - LENGTH_HEADER@.len() - 1]));
        }
    }
    lemma_line_break_at(input, from, begin - 1);
    assert(line_end(input, from) == begin);
    assert(input.subrange(from, begin) =~= first);
    assert(after_header(start_state(), Header::Length(length)) == (
        ReaderState::Header { length },
        ReadStep::Line,
    ));
    assert(next_frame(input, from, start_state()) == next_frame(
        input,
        begin,
        ReaderState::Header { length },
    ));
    assert(input[begin] == 13);
    assert(input[begin + 1] == 10);
    lemma_line_break_at(input, begin, begin + 1);
    assert(line_end(input, begin) == second);
    assert(input.subrange(begin, second) =~= seq![13u8, 10u8]);
    assert(input.subrange(second, second + body.len()) =~= body);
}

/// Appends `bytes` to `out`.
fn push_all(out: &mut Vec<u8>, bytes: &[u8])
    ensures
        final(out)@ == old(out)@ + bytes@,
{
    let mut i: usize = 0;
    while i < bytes.len()
        invariant
            i <= bytes.len(),
            out@ == old(out)@ + bytes@.take(i as int),
        decreases bytes.len() - i,
    {
        out.push(bytes[i]);
        proof {
            assert(bytes@.take(i + 1) =~= bytes@.take(i as int).push(bytes@[i as int]));
        }
        i += 1;
    }
    proof {
        assert(bytes@.take(i as int) =~= bytes@);
    }
}

/// Writes the frame of a message with the body `body` to the end of `out`:
/// the header states the length of `body` in bytes.
pub fn write_message(out: &mut Vec<u8>, body: &[u8])
    ensures
        final(out)@ == old(out)@ + framed(body@),
{
    push_all(out, LENGTH_HEADER.as_slice());
    out.push(32u8);
    push_decimal(out, body.len());
    out.push(13u8);
    out.push(10u8);
    out.push(13u8);
    out.push(10u8);
    push_all(out, body);
    proof {
        assert(final(out)@ =~= old(out)@ + framed(body@));
    }
}

/// Whether `line` begins with the name of the length header.
fn begins_with_length_name(line: &[u8]) -> (r: bool)
    ensures
        r == names_length(line@),
{
    if line.len() < LENGTH_HEADER.len() {
        return false;
    }
    let mut i: usize = 0;
    while i < LENGTH_HEADER.len()
        invariant
            i <= LENGTH_HEADER@.len() <= line@.len(),
            forall|j: int| 0 <= j < i ==> line@[j] == LENGTH_HEADER@[j],
        decreases LENGTH_HEADER@.len() - i,
    {
        if line[i] != LENGTH_HEADER[i] {
            assert(line@.subrange(0, LENGTH_HEADER@.len() as int)[i as int] != LENGTH_HEADER@[i as int]);
            return false;
        }
        i += 1;
    }
    assert(line@.subrange(0, LENGTH_HEADER@.len() as int) =~= LENGTH_HEADER@);
    true
}

/// Says what the header line `line` is.
pub fn classify_header(line: &[u8]) -> (r: Header)
    ensures
        r == header_of(line@),
{
    let (from, to) = trim_bounds(line);
    if from == to {
        return Header::End;
    }
    if !begins_with_length_name(line) {
        return Header::Other;
    }
    let value = slice_subrange(line, LENGTH_HEADER.len(), line.len());
    assert(value@ =~= line@.skip(LENGTH_HEADER@.len() as int));
    let (first, last) = trim_bounds(value);
    match parse_unsigned(slice_subrange(value, first, last)) {
        Some(n) => Header::Length(n),
        None => Header::Corrupt,
    }
}

impl ReaderState {
    /// The state in which a reader begins.
    pub fn start() -> (r: ReaderState)
        ensures
            r == start_state(),
    {
        ReaderState::Header { length: 0 }
    }

    /// Takes the header line `line`, which holds all bytes up to and including
    /// the next line feed of the stream, or up to the end of the stream. Gives
    /// the state after the line, and what to read next.
    pub fn after_line(self, line: &[u8]) -> (r: (ReaderState, ReadStep))
        ensures
            r == after_header(self, header_of(line@)),
    {
        let header = classify_header(line);
        match self {
            ReaderState::Header { length } => match header {
                Header::End => (ReaderState::Header { length: 0 }, ReadStep::Body(length)),
                Header::Length(n) => (ReaderState::Header { length: n }, ReadStep::Line),
                Header::Corrupt => (ReaderState::Resync, ReadStep::Line),
                Header::Other => (self, ReadStep::Line),
            },
            ReaderState::Resync => match header {
                Header::Length(n) => (ReaderState::Header { length: n }, ReadStep::Line),
                _ => (ReaderState::Resync, ReadStep::Line),
            },
        }
    }
}

/// Reads the next message of `input` from offset `from` on, as a reader does
/// that begins a header there. `None` stands for the end of the stream: the
/// input ends before the header does, or before the body is complete.
pub fn read_message(input: &[u8], from: usize) -> (r: Option<Frame>)
    ensures
        match r {
            Some(frame) => {
                &&& from + frame.body@.len() < frame.next <= input@.len()
                &&& next_frame(input@, from as int, start_state()) == Some(
                    (frame.next - frame.body@.len(), frame.next as int),
                )
                &&& frame.body@ == input@.subrange(
                    frame.next - frame.body@.len(),
                    frame.next as int,
                )
            },
            None => next_frame(input@, from as int, start_state()) is None,
        },
{
    let mut state = ReaderState::start();
    let mut pos: usize = from;
    proof {
        lemma_next_frame_advances(input@, from as int, start_state());
    }
    while pos < input.len()
        invariant
            from <= pos,
            next_frame(input@, from as int, start_state()) == next_frame(input@, pos as int, state),
        decreases input.len() - pos,
    {
        let stop = find_line_break(input, pos);
        proof {
            lemma_line_break(input@, pos as int);
        }
        let end: usize = if stop < input.len() {
            stop + 1
        } else {
            stop
        };
        let (then, step) = state.after_line(slice_subrange(input, pos, end));
        match step {
            ReadStep::Body(n) => {
                if n > input.len() - end {
                    return None;
                }
                let body = slice_to_vec(slice_subrange(input, end, end + n));
                return Some(Frame { body, next: end + n });
            },
            ReadStep::Line => {
                state = then;
                pos = end;
            },
        }
    }
    None
}

} // verus!
