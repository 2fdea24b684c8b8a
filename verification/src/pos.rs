//! Positions in the source text.

use vstd::prelude::*;
use vstd::std_specs::ops::AddSpecImpl;

verus! {

/// The place of one character: line and column, both counted from zero.
#[derive(Clone, Copy, Debug, PartialEq, Eq, Structural, PartialOrd, Ord, Hash)]
pub struct CharPos {
    pub line: usize,
    pub column: usize,
}

/// A half-open range of characters, from `start` up to but not including `end`.
#[derive(Clone, Copy, Debug, PartialEq, Eq, Structural, Hash)]
pub struct Pos {
    pub start: CharPos,
    pub end: CharPos,
}

impl CharPos {
    pub fn new(line: usize, column: usize) -> (result: CharPos)
        ensures
            result.line == line,
            result.column == column,
    {
        CharPos { line, column }
    }

    /// Lexicographic order on (line, column): `self` is not after `other`.
    pub open spec fn not_after(self, other: CharPos) -> bool {
        self.line < other.line || (self.line == other.line && self.column <= other.column)
    }

    pub fn into_inner(self) -> (result: (usize, usize))
        ensures
            result.0 == self.line,
            result.1 == self.column,
    {
        (self.line, self.column)
    }
}

impl Pos {
    /// A range is well formed when it does not end before it starts.
    pub open spec fn well_formed(self) -> bool {
        self.start.not_after(self.end)
    }

    pub fn new(start: CharPos, end: CharPos) -> (result: Pos)
        ensures
            result.start == start,
            result.end == end,
            result.well_formed() == start.not_after(end),
    {
        Pos { start, end }
    }

    /// The smallest range that starts where `self` starts and ends where
    /// `other` ends.
    pub open spec fn join(self, other: Pos) -> Pos {
        Pos { start: self.start, end: other.end }
    }

    /// The two ends, each as (line, column); the second is the exclusive end.
    pub fn into_inner(self) -> (result: ((usize, usize), (usize, usize)))
        ensures
            result.0 == (self.start.line, self.start.column),
            result.1 == (self.end.line, self.end.column),
    {
        (self.start.into_inner(), self.end.into_inner())
    }
}

/// Joining two well-formed ranges of which the first ends no later than the
/// second starts gives a well-formed range.
pub proof fn lemma_join_well_formed(left: Pos, right: Pos)
    requires
        left.well_formed(),
        right.well_formed(),
        left.end.not_after(right.start),
    ensures
        left.join(right).well_formed(),
{
}

impl core::ops::Add<Pos> for Pos {
    type Output = Pos;

    fn add(self, other: Pos) -> (result: Pos) {
        Pos::new(self.start, other.end)
    }
}

impl AddSpecImpl<Pos> for Pos {
    open spec fn obeys_add_spec() -> bool {
        true
    }

    open spec fn add_req(self, other: Pos) -> bool {
        true
    }

    open spec fn add_spec(self, other: Pos) -> Pos {
        self.join(other)
    }
}

impl core::ops::Add<Option<Pos>> for Pos {
    type Output = Pos;

    fn add(self, right: Option<Pos>) -> (result: Pos) {
        match right {
            Some(right) => self + right,
            None => self,
        }
    }
}

impl AddSpecImpl<Option<Pos>> for Pos {
    open spec fn obeys_add_spec() -> bool {
        true
    }

    open spec fn add_req(self, right: Option<Pos>) -> bool {
        true
    }

    open spec fn add_spec(self, right: Option<Pos>) -> Pos {
        match right {
            Some(right) => self.join(right),
            None => self,
        }
    }
}

impl core::ops::Add<Pos> for Option<Pos> {
    type Output = Pos;

    fn add(self, right: Pos) -> (result: Pos) {
        match self {
            Some(left) => left + right,
            None => right,
        }
    }
}

impl AddSpecImpl<Pos> for Option<Pos> {
    open spec fn obeys_add_spec() -> bool {
        true
    }

    open spec fn add_req(self, right: Pos) -> bool {
        true
    }

    open spec fn add_spec(self, right: Pos) -> Pos {
        match self {
            Some(left) => left.join(right),
            None => right,
        }
    }
}

} // verus!
