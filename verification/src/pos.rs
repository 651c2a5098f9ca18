//! Source positions.
//!
//! Every token carries the position of its first character, so that
//! diagnostics can point at the exact place in the source text and tools can
//! map tree nodes back to source ranges.

use vstd::prelude::*;

verus! {

/// A position in the source text: 1-based line and column (both counted in
/// characters), and the 0-based byte offset of the character.
#[derive(Debug, Clone, Copy, PartialEq, Eq)]
pub struct Position {
    pub line: usize,
    pub col: usize,
    pub offset: usize,
}

/// The number of bytes the UTF-8 encoding of `c` takes.
pub open spec fn utf8_len(c: char) -> int {
    if (c as u32) < 0x80 {
        1
    } else if (c as u32) < 0x800 {
        2
    } else if (c as u32) < 0x10000 {
        3
    } else {
        4
    }
}

/// The byte offset of the character at index `i` of `s`: the sum of the
/// UTF-8 lengths of the characters before it.
pub open spec fn byte_offset_at(s: Seq<char>, i: int) -> int
    decreases i,
{
    if i <= 0 {
        0
    } else {
        byte_offset_at(s, i - 1) + utf8_len(s[i - 1])
    }
}

/// The 1-based line number of the character at index `i` of `s`: one more
/// than the number of newlines before it.
pub open spec fn line_at(s: Seq<char>, i: int) -> int
    decreases i,
{
    if i <= 0 {
        1
    } else {
        line_at(s, i - 1) + if s[i - 1] == '\n' {
            1int
        } else {
            0int
        }
    }
}

/// The 1-based column of the character at index `i` of `s`: columns restart
/// at 1 after every newline.
pub open spec fn col_at(s: Seq<char>, i: int) -> int
    decreases i,
{
    if i <= 0 {
        1
    } else if s[i - 1] == '\n' {
        1
    } else {
        col_at(s, i - 1) + 1
    }
}

/// `p` is the position of the character at index `i` of `s`.
pub open spec fn pos_matches(s: Seq<char>, i: int, p: Position) -> bool {
    &&& p.line as int == line_at(s, i)
    &&& p.col as int == col_at(s, i)
    &&& p.offset as int == byte_offset_at(s, i)
}

pub proof fn lemma_byte_offset_mono(s: Seq<char>, i: int, j: int)
    requires
        i <= j,
    ensures
        byte_offset_at(s, i) <= byte_offset_at(s, j),
    decreases j - i,
{
    if i < j {
        lemma_byte_offset_mono(s, i, j - 1);
    }
}

/// Byte offsets of distinct characters are distinct: every character takes
/// at least one byte.
pub proof fn lemma_byte_offset_strict_mono(s: Seq<char>, i: int, j: int)
    requires
        0 <= i < j,
    ensures
        byte_offset_at(s, i) < byte_offset_at(s, j),
    decreases j - i,
{
    if i < j - 1 {
        lemma_byte_offset_strict_mono(s, i, j - 1);
    }
}

pub proof fn lemma_byte_offset_at_least(s: Seq<char>, i: int)
    requires
        0 <= i,
    ensures
        i <= byte_offset_at(s, i),
    decreases i,
{
    if i > 0 {
        lemma_byte_offset_at_least(s, i - 1);
    }
}

pub proof fn lemma_line_col_bounds(s: Seq<char>, i: int)
    requires
        0 <= i,
    ensures
        1 <= line_at(s, i) <= i + 1,
        1 <= col_at(s, i) <= i + 1,
    decreases i,
{
    if i > 0 {
        lemma_line_col_bounds(s, i - 1);
    }
}

impl Position {
    /// The position of the very first character of any text.
    pub fn start() -> (p: Position)
        ensures
            p.line == 1,
            p.col == 1,
            p.offset == 0,
    {
        Position { line: 1, col: 1, offset: 0 }
    }
}

/// The UTF-8 length of a character, computed from its scalar value as the
/// encoding defines it.
pub fn char_utf8_len(c: char) -> (n: usize)
    ensures
        n as int == utf8_len(c),
{
    let u = c as u32;
    if u < 0x80 {
        1
    } else if u < 0x800 {
        2
    } else if u < 0x10000 {
        3
    } else {
        4
    }
}

} // verus!
