use vstd::prelude::*;

verus! {

/// A source span: the lines and columns that a token or an expression covers
/// in the input text.
#[derive(Clone, Copy, Debug, PartialEq, Eq, Structural)]
pub struct Loc {
    pub line_start: usize,
    pub line_end: usize,
    pub col_start: usize,
    pub col_end: usize,
}

impl Loc {
    /// The span of a region that lies on a single line.
    pub open spec fn single_line(line: usize, col_start: usize, col_end: usize) -> Loc {
        Loc { line_start: line, line_end: line, col_start, col_end }
    }

    /// A span lying on one line, from `col_start` up to (but not including) `col_end`.
    pub fn new(line: usize, col_start: usize, col_end: usize) -> (loc: Loc)
        ensures
            loc == Loc::single_line(line, col_start, col_end),
    {
        Loc { line_start: line, line_end: line, col_start, col_end }
    }

    /// The span running from the start of `self` to the end of `rhs`.
    pub open spec fn spec_merge(self, rhs: Loc) -> Loc {
        Loc {
            line_start: self.line_start,
            line_end: rhs.line_end,
            col_start: self.col_start,
            col_end: rhs.col_end,
        }
    }

    /// Merge two spans in textual order: the result covers everything from the
    /// start of `self` to the end of `rhs`. Always merge left-to-right.
    pub fn merge(self, rhs: Loc) -> (loc: Loc)
        ensures
            loc == self.spec_merge(rhs),
    {
        Loc {
            line_start: self.line_start,
            line_end: rhs.line_end,
            col_start: self.col_start,
            col_end: rhs.col_end,
        }
    }
}

/// Merging spans is associative: when a node covers three regions, grouping
/// the merges does not matter, only their textual order does.
pub proof fn lemma_merge_associative(a: Loc, b: Loc, c: Loc)
    ensures
        a.spec_merge(b).spec_merge(c) == a.spec_merge(b.spec_merge(c)),
{
}

} // verus!
