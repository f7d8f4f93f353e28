//! Byte ranges of a source file.
use vstd::prelude::*;

verus! {

/// The bytes from `start` up to, not including, `end`. A span is both where an
/// error is and where to edit; an insertion point is a span of no width.
#[derive(Clone, Copy, PartialEq, Eq, Structural, Debug)]
pub struct Span {
    pub start: usize,
    pub end: usize,
}

impl Span {
    /// The insertion point at an offset.
    pub open spec fn point(offset: usize) -> Span {
        Span { start: offset, end: offset }
    }

    /// The insertion point at an offset.
    pub fn at(offset: usize) -> (r: Span)
        ensures
            r == Span::point(offset),
    {
        Span { start: offset, end: offset }
    }
}

} // verus!
