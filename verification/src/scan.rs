//! Scanning of byte texts: line feeds and white space.

use vstd::prelude::*;

verus! {

/// The index of the first line feed of `text` at or after `pos`, or the
/// length of `text` where there is none.
pub open spec fn line_break(text: Seq<u8>, pos: int) -> int
    decreases text.len() - pos,
{
    if pos < 0 || pos >= text.len() {
        text.len() as int
    } else if text[pos] == 10 {
        pos
    } else {
        line_break(text, pos + 1)
    }
}

/// Whether `b` is one of the white space characters of one byte: a space, a
/// tab, a line feed, a vertical tab, a form feed or a carriage return.
pub open spec fn is_space(b: u8) -> bool {
    b == 32 || 9 <= b <= 13
}

/// Whether the two bytes are the UTF-8 form of a white space character:
/// U+0085 or U+00A0.
pub open spec fn is_space_of_two(a: u8, b: u8) -> bool {
    a == 0xC2 && (b == 0x85 || b == 0xA0)
}

/// Whether the three bytes are the UTF-8 form of a white space character:
/// U+1680, U+2000 to U+200A, U+2028, U+2029, U+202F, U+205F or U+3000.
pub open spec fn is_space_of_three(a: u8, b: u8, c: u8) -> bool {
    ||| a == 0xE1 && b == 0x9A && c == 0x80
    ||| a == 0xE2 && b == 0x80 && (0x80 <= c <= 0x8A || c == 0xA8 || c == 0xA9 || c == 0xAF)
    ||| a == 0xE2 && b == 0x81 && c == 0x9F
    ||| a == 0xE3 && b == 0x80 && c == 0x80
}

/// The number of bytes of the white space character that `s` begins with, 0
/// where it begins with none.
pub open spec fn space_at_start(s: Seq<u8>) -> int {
    if s.len() >= 1 && is_space(s[0]) {
        1
    } else if s.len() >= 2 && is_space_of_two(s[0], s[1]) {
        2
    } else if s.len() >= 3 && is_space_of_three(s[0], s[1], s[2]) {
        3
    } else {
        0
    }
}

/// The number of bytes of the white space character that `s` ends with, 0
/// where it ends with none.
pub open spec fn space_at_end(s: Seq<u8>) -> int {
    let n = s.len() as int;
    if n >= 1 && is_space(s[n - 1]) {
        1
    } else if n >= 2 && is_space_of_two(s[n - 2], s[n - 1]) {
        2
    } else if n >= 3 && is_space_of_three(s[n - 3], s[n - 2], s[n - 1]) {
        3
    } else {
        0
    }
}

/// `s` without the white space at its beginning.
pub open spec fn trimmed_start(s: Seq<u8>) -> Seq<u8>
    decreases s.len(),
{
    let width = space_at_start(s);
    if width > 0 {
        trimmed_start(s.skip(width))
    } else {
        s
    }
}

/// `s` without the white space at its end.
pub open spec fn trimmed_end(s: Seq<u8>) -> Seq<u8>
    decreases s.len(),
{
    let width = space_at_end(s);
    if width > 0 {
        trimmed_end(s.take(s.len() - width))
    } else {
        s
    }
}

/// `s` without the white space at its beginning and at its end. White space
/// is what Unicode calls so, in UTF-8.
pub open spec fn trimmed(s: Seq<u8>) -> Seq<u8> {
    trimmed_end(trimmed_start(s))
}

/// Whether `b` alone is a character that is no white space: a byte below 128
/// that is no white space.
pub open spec fn is_plain(b: u8) -> bool {
    b < 128 && !is_space(b)
}

/// Where `line_break` lies: at or after `pos`, with no line feed before it
/// and a line feed at it unless it is the end of the text.
pub proof fn lemma_line_break(text: Seq<u8>, pos: int)
    requires
        0 <= pos <= text.len(),
    ensures
        pos <= line_break(text, pos) <= text.len(),
        forall|j: int| pos <= j < line_break(text, pos) ==> text[j] != 10,
        line_break(text, pos) < text.len() ==> text[line_break(text, pos)] == 10,
    decreases text.len() - pos,
{
    if pos < text.len() && text[pos] != 10 {
        lemma_line_break(text, pos + 1);
    }
}

/// The first line feed at or after `pos` is at `stop` where none lies before
/// `stop` and `stop` holds one or is the end of the text.
pub proof fn lemma_line_break_at(text: Seq<u8>, pos: int, stop: int)
    requires
        0 <= pos <= stop <= text.len(),
        forall|j: int| pos <= j < stop ==> text[j] != 10,
        stop < text.len() ==> text[stop] == 10,
    ensures
        line_break(text, pos) == stop,
    decreases stop - pos,
{
    if pos < stop {
        lemma_line_break_at(text, pos + 1, stop);
    }
}

/// White space characters of one byte before a text that begins with a plain
/// byte are its white space at the beginning.
pub proof fn lemma_trimmed_start(before: Seq<u8>, rest: Seq<u8>)
    requires
        forall|j: int| 0 <= j < before.len() ==> is_space(#[trigger] before[j]),
        rest.len() > 0,
        is_plain(rest.first()),
    ensures
        trimmed_start(before + rest) == rest,
    decreases before.len(),
{
    let s = before + rest;
    if before.len() == 0 {
        assert(s =~= rest);
    } else {
        assert(s[0] == before[0]);
        assert(s.skip(1) =~= before.skip(1) + rest);
        lemma_trimmed_start(before.skip(1), rest);
    }
}

/// White space characters of one byte after a text that ends with a plain
/// byte are its white space at the end.
pub proof fn lemma_trimmed_end(rest: Seq<u8>, after: Seq<u8>)
    requires
        forall|j: int| 0 <= j < after.len() ==> is_space(#[trigger] after[j]),
        rest.len() > 0,
        is_plain(rest.last()),
    ensures
        trimmed_end(rest + after) == rest,
    decreases after.len(),
{
    let s = rest + after;
    if after.len() == 0 {
        assert(s =~= rest);
    } else {
        assert(s[s.len() - 1] == after.last());
        assert(s.take(s.len() - 1) =~= rest + after.drop_last());
        lemma_trimmed_end(rest, after.drop_last());
    }
}

/// A text between white space characters of one byte, where the text begins
/// and ends with a plain byte, is what is left when the whole is trimmed.
pub proof fn lemma_trimmed_core(before: Seq<u8>, core: Seq<u8>, after: Seq<u8>)
    requires
        forall|j: int| 0 <= j < before.len() ==> is_space(#[trigger] before[j]),
        forall|j: int| 0 <= j < after.len() ==> is_space(#[trigger] after[j]),
        core.len() > 0,
        is_plain(core.first()),
        is_plain(core.last()),
    ensures
        trimmed(before + core + after) == core,
{
    assert(before + core + after =~= before + (core + after));
    lemma_trimmed_start(before, core + after);
    lemma_trimmed_end(core, after);
}

/// A text of white space characters of one byte alone is trimmed to nothing.
pub proof fn lemma_trimmed_spaces(spaces: Seq<u8>)
    requires
        forall|j: int| 0 <= j < spaces.len() ==> is_space(#[trigger] spaces[j]),
    ensures
        trimmed(spaces).len() == 0,
    decreases spaces.len(),
{
    if spaces.len() > 0 {
        lemma_trimmed_spaces(spaces.skip(1));
    }
}

/// The index of the first line feed of `text` at or after `pos`, or the
/// length of `text` where there is none.
pub fn find_line_break(text: &[u8], pos: usize) -> (stop: usize)
    requires
        pos <= text.len(),
    ensures
        stop == line_break(text@, pos as int),
{
    let mut stop: usize = pos;
    while stop < text.len() && text[stop] != 10u8
        invariant
            pos <= stop <= text.len(),
            forall|j: int| pos <= j < stop ==> text@[j] != 10,
        decreases text.len() - stop,
    {
        stop += 1;
    }
    proof {
        lemma_line_break_at(text@, pos as int, stop as int);
    }
    stop
}

/// The number of bytes of the white space character that `s` holds from
/// `from` on, before `to`; 0 where there is none.
fn space_width_at(s: &[u8], from: usize, to: usize) -> (width: usize)
    requires
        from <= to <= s.len(),
    ensures
        width == space_at_start(s@.subrange(from as int, to as int)),
        from + width <= to,
{
    let ghost part = s@.subrange(from as int, to as int);
    let left: usize = to - from;
    if left >= 1 {
        let a: u8 = s[from];
        assert(part[0] == a);
        if a == 32u8 || (9u8 <= a && a <= 13u8) {
            return 1;
        }
        if left >= 2 {
            let b: u8 = s[from + 1];
            assert(part[1] == b);
            if a == 0xC2u8 && (b == 0x85u8 || b == 0xA0u8) {
                return 2;
            }
            if left >= 3 {
                let c: u8 = s[from + 2];
                assert(part[2] == c);
                if is_three_byte_space(a, b, c) {
                    return 3;
                }
            }
        }
    }
    0
}

/// The number of bytes of the white space character that `s` holds up to
/// `to`, from `from` on; 0 where there is none.
fn space_width_before(s: &[u8], from: usize, to: usize) -> (width: usize)
    requires
        from <= to <= s.len(),
    ensures
        width == space_at_end(s@.subrange(from as int, to as int)),
        from + width <= to,
{
    let ghost part = s@.subrange(from as int, to as int);
    let left: usize = to - from;
    if left >= 1 {
        let c: u8 = s[to - 1];
        assert(part[left - 1] == c);
        if c == 32u8 || (9u8 <= c && c <= 13u8) {
            return 1;
        }
        if left >= 2 {
            let b: u8 = s[to - 2];
            assert(part[left - 2] == b);
            if b == 0xC2u8 && (c == 0x85u8 || c == 0xA0u8) {
                return 2;
            }
            if left >= 3 {
                let a: u8 = s[to - 3];
                assert(part[left - 3] == a);
                if is_three_byte_space(a, b, c) {
                    return 3;
                }
            }
        }
    }
    0
}

/// Whether the three bytes are the UTF-8 form of a white space character.
fn is_three_byte_space(a: u8, b: u8, c: u8) -> (r: bool)
    ensures
        r == is_space_of_three(a, b, c),
{
    (a == 0xE1u8 && b == 0x9Au8 && c == 0x80u8) || (a == 0xE2u8 && b == 0x80u8 && ((0x80u8 <= c
        && c <= 0x8Au8) || c == 0xA8u8 || c == 0xA9u8 || c == 0xAFu8)) || (a == 0xE2u8 && b
        == 0x81u8 && c == 0x9Fu8) || (a == 0xE3u8 && b == 0x80u8 && c == 0x80u8)
}

/// The bounds of `s` without the white space at its beginning and at its
/// end: the trimmed text is `s` from the first bound up to the second.
pub fn trim_bounds(s: &[u8]) -> (r: (usize, usize))
    ensures
        r.0 <= r.1 <= s.len(),
        s@.subrange(r.0 as int, r.1 as int) == trimmed(s@),
{
    let mut from: usize = 0;
    proof {
        assert(s@.subrange(0, s.len() as int) =~= s@);
    }
    loop
        invariant
            from <= s.len(),
            trimmed_start(s@) == trimmed_start(s@.subrange(from as int, s.len() as int)),
        ensures
            from <= s.len(),
            trimmed_start(s@) == s@.subrange(from as int, s.len() as int),
        decreases s.len() - from,
    {
        let width = space_width_at(s, from, s.len());
        if width == 0 {
            break;
        }
        proof {
            assert(s@.subrange(from as int, s.len() as int).skip(width as int) =~= s@.subrange(
                from + width,
                s.len() as int,
            ));
        }
        from += width;
    }
    let mut to: usize = s.len();
    loop
        invariant
            from <= to <= s.len(),
            trimmed(s@) == trimmed_end(s@.subrange(from as int, to as int)),
        ensures
            from <= to <= s.len(),
            trimmed(s@) == s@.subrange(from as int, to as int),
        decreases to - from,
    {
        let width = space_width_before(s, from, to);
        if width == 0 {
            break;
        }
        proof {
            assert(s@.subrange(from as int, to as int).take(to - from - width) =~= s@.subrange(
                from as int,
                to - width,
            ));
        }
        to -= width;
    }
    (from, to)
}

} // verus!
