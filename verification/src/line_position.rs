//! Mapping of character offsets to 1-based line/column positions, used to
//! surface parse diagnostics in human-readable form.

use vstd::prelude::*;
use vstd::string::StrSliceExecFns;

verus! {

/// A 1-based line/column position inside a text.
#[derive(Debug, Clone, PartialEq)]
pub struct LinePosition {
    /// Line number (counting from 1)
    pub line: usize,
    /// Column number (counting from 1)
    pub col: usize,
}

/// Number of newline characters strictly before `end`.
pub open spec fn newline_count(s: Seq<char>, end: int) -> int
    decreases end,
{
    if end <= 0 {
        0
    } else {
        newline_count(s, end - 1) + if s[end - 1] == '\n' {
            1int
        } else {
            0int
        }
    }
}

/// Offset of the first character of the line that contains offset `end`:
/// zero, or the position right after the last newline before `end`.
pub open spec fn line_start(s: Seq<char>, end: int) -> int
    decreases end,
{
    if end <= 0 {
        0
    } else if s[end - 1] == '\n' {
        end
    } else {
        line_start(s, end - 1)
    }
}

pub proof fn lemma_line_start_bounds(s: Seq<char>, end: int)
    requires
        0 <= end,
    ensures
        0 <= line_start(s, end) <= end,
    decreases end,
{
    if end > 0 && s[end - 1] != '\n' {
        lemma_line_start_bounds(s, end - 1);
    }
}

pub proof fn lemma_newline_count_bounds(s: Seq<char>, end: int)
    requires
        0 <= end,
    ensures
        0 <= newline_count(s, end) <= end,
    decreases end,
{
    if end > 0 {
        lemma_newline_count_bounds(s, end - 1);
    }
}

impl LinePosition {
    /// Locates a character offset within a text as a 1-based line and column,
    /// or `None` when the offset lies at or past the end of the text.
    pub fn from_offset(text: &str, offset: usize) -> (r: Option<LinePosition>)
        ensures
            match r {
                None => offset >= text@.len(),
                Some(p) => {
                    &&& offset < text@.len()
                    &&& p.line == 1 + newline_count(text@, offset as int)
                    &&& p.col == offset - line_start(text@, offset as int) + 1
                },
            },
    {
        let n = text.unicode_len();
        if offset >= n {
            return None;
        }
        let mut line: usize = 1;
        let mut start: usize = 0;
        let mut i: usize = 0;
        while i < offset
            invariant
                0 <= i <= offset < n == text@.len(),
                line == 1 + newline_count(text@, i as int),
                start == line_start(text@, i as int),
                start <= i,
                line <= i + 1,
            decreases offset - i,
        {
            proof {
                lemma_line_start_bounds(text@, i + 1);
            }
            if text.get_char(i) == '\n' {
                line = line + 1;
                start = i + 1;
            }
            i = i + 1;
        }
        Some(LinePosition { line, col: offset - start + 1 })
    }

    /// Builds a position from its line and column.
    pub fn new(line: usize, col: usize) -> (r: Self)
        ensures
            r.line == line,
            r.col == col,
    {
        Self { line, col }
    }
}

} // verus!
