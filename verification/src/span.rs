//! Half-open byte intervals into a transcript.

use vstd::prelude::*;

verus! {

/// The span from `start` to `end`, for offsets that fit in `usize`.
pub open spec fn span(start: int, end: int) -> Span {
    Span { start: start as usize, end: end as usize }
}

/// A half-open interval `[start, end)` of byte offsets into a transcript.
#[derive(Clone, Copy, Debug, PartialEq, Eq, Structural)]
pub struct Span {
    pub start: usize,
    pub end: usize,
}

impl Span {
    /// The offsets covered by the span.
    pub open spec fn indices(self) -> Set<int> {
        Set::new(|i: int| self.start <= i < self.end)
    }

    /// The span is ordered and lies inside a buffer of `len` bytes.
    pub open spec fn within(self, len: int) -> bool {
        self.start <= self.end <= len
    }

    /// The bytes of `s` that the span covers.
    pub open spec fn of(self, s: Seq<u8>) -> Seq<u8> {
        s.subrange(self.start as int, self.end as int)
    }

    pub fn new(start: usize, end: usize) -> (span: Span)
        ensures
            span.start == start,
            span.end == end,
    {
        Span { start, end }
    }

    /// Number of bytes covered; zero when the bounds are out of order.
    pub fn len(&self) -> (n: usize)
        ensures
            n == if self.start <= self.end { self.end - self.start } else { 0 },
    {
        if self.start <= self.end {
            self.end - self.start
        } else {
            0
        }
    }

    pub fn is_empty(&self) -> (b: bool)
        ensures
            b == (self.end <= self.start),
    {
        self.end <= self.start
    }

    pub fn contains(&self, offset: usize) -> (b: bool)
        ensures
            b == self.indices().contains(offset as int),
    {
        self.start <= offset && offset < self.end
    }
}

} // verus!
