use vstd::prelude::*;

verus! {

/// A range of character positions in the configuration text,
/// `lo` inclusive to `hi` exclusive.
#[derive(Debug, Clone, Copy, PartialEq, Eq, Structural)]
pub struct Span {
    pub lo: usize,
    pub hi: usize,
}

/// How many line breaks stand before position `pos`.
pub open spec fn count_newlines(s: Seq<char>, pos: int) -> int
    decreases pos,
{
    if pos <= 0 {
        0
    } else {
        count_newlines(s, pos - 1) + if 0 <= pos - 1 < s.len() && s[pos - 1] == '\n' {
            1int
        } else {
            0int
        }
    }
}

/// The position where the line holding `pos` begins.
pub open spec fn line_start(s: Seq<char>, pos: int) -> int
    decreases pos,
{
    if pos <= 0 {
        0
    } else if 0 <= pos - 1 < s.len() && s[pos - 1] == '\n' {
        pos
    } else {
        line_start(s, pos - 1)
    }
}

pub proof fn lemma_line_start_bounds(s: Seq<char>, pos: int)
    requires
        0 <= pos,
    ensures
        0 <= line_start(s, pos) <= pos,
    decreases pos,
{
    if pos > 0 && !(0 <= pos - 1 < s.len() && s[pos - 1] == '\n') {
        lemma_line_start_bounds(s, pos - 1);
    }
}

/// The one-based line of position `pos`.
pub open spec fn line_of(s: Seq<char>, pos: int) -> int {
    count_newlines(s, pos) + 1
}

/// The one-based column of position `pos` within its line.
pub open spec fn col_of(s: Seq<char>, pos: int) -> int {
    pos - line_start(s, pos) + 1
}

/// The one-based line and column of position `pos` in the text.
pub fn line_col(v: &Vec<char>, pos: usize) -> (r: (usize, usize))
    requires
        pos <= v.len(),
        v.len() < usize::MAX,
    ensures
        r.0 == line_of(v@, pos as int),
        r.1 == col_of(v@, pos as int),
{
    let mut line: usize = 1;
    let mut start: usize = 0;
    let mut i: usize = 0;
    while i < pos
        invariant
            i <= pos <= v.len(),
            v.len() < usize::MAX,
            line == count_newlines(v@, i as int) + 1,
            line <= i + 1,
            start == line_start(v@, i as int),
            start <= i,
        decreases pos - i,
    {
        if v[i] == '\n' {
            line = line + 1;
            start = i + 1;
        }
        i = i + 1;
    }
    (line, pos - start + 1)
}

} // verus!
