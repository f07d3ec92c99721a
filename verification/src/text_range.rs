//! Byte ranges over a document's text.

use vstd::prelude::*;

verus! {

/// The smaller of two offsets.
pub open spec fn umin(a: u32, b: u32) -> u32 {
    if a <= b { a } else { b }
}

/// The larger of two offsets.
pub open spec fn umax(a: u32, b: u32) -> u32 {
    if a >= b { a } else { b }
}

/// A half-open byte range `[start, end)` over a document's text.
#[derive(Clone, Copy, PartialEq, Eq, Structural, Debug, Hash)]
pub struct TextRange {
    pub start: u32,
    pub end: u32,
}

impl TextRange {
    /// Well-formed: the range does not end before it starts.
    pub open spec fn wf(self) -> bool {
        self.start <= self.end
    }

    pub open spec fn spec_len(self) -> int {
        self.end - self.start
    }

    /// Whether `other` lies entirely inside `self`.
    pub open spec fn spec_contains_range(self, other: TextRange) -> bool {
        self.start <= other.start && other.end <= self.end
    }

    /// Whether the two ranges overlap or touch; mirrors `intersect` returning a value.
    pub open spec fn spec_intersects(self, other: TextRange) -> bool {
        umax(self.start, other.start) <= umin(self.end, other.end)
    }

    /// The common sub-range; meaningful only when `spec_intersects` holds.
    pub open spec fn spec_intersection(self, other: TextRange) -> TextRange {
        TextRange { start: umax(self.start, other.start), end: umin(self.end, other.end) }
    }

    /// The same range moved right by `offset`.
    pub open spec fn spec_shift(self, offset: u32) -> TextRange {
        TextRange { start: (self.start + offset) as u32, end: (self.end + offset) as u32 }
    }

    pub fn new(start: u32, end: u32) -> (r: TextRange)
        requires
            start <= end,
        ensures
            r == (TextRange { start, end }),
            r.wf(),
    {
        TextRange { start, end }
    }

    pub fn len(&self) -> (r: u32)
        requires
            self.wf(),
        ensures
            r == self.spec_len(),
    {
        self.end - self.start
    }

    pub fn is_empty(&self) -> (r: bool)
        requires
            self.wf(),
        ensures
            r == (self.spec_len() == 0),
    {
        self.start == self.end
    }

    pub fn contains_range(&self, other: &TextRange) -> (r: bool)
        ensures
            r == self.spec_contains_range(*other),
    {
        self.start <= other.start && other.end <= self.end
    }

    /// The overlap of two ranges, or `None` when they neither overlap nor touch.
    pub fn intersect(&self, other: &TextRange) -> (r: Option<TextRange>)
        ensures
            r is Some <==> self.spec_intersects(*other),
            r is Some ==> r->0 == self.spec_intersection(*other) && r->0.wf(),
    {
        let start: u32 = if self.start >= other.start { self.start } else { other.start };
        let end: u32 = if self.end <= other.end { self.end } else { other.end };
        if start <= end {
            Some(TextRange { start, end })
        } else {
            None
        }
    }

    /// The same range expressed `offset` bytes further right.
    pub fn shift(&self, offset: u32) -> (r: TextRange)
        requires
            self.wf(),
            self.end + offset <= u32::MAX,
        ensures
            r == self.spec_shift(offset),
            r.wf(),
    {
        TextRange { start: self.start + offset, end: self.end + offset }
    }
}

} // verus!
