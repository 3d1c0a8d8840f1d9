//! Half-open byte ranges `[start, end)` into the original source.

use vstd::prelude::*;

verus! {

/// A half-open byte range `[start, end)` in original (input) coordinates.
#[derive(Debug, Clone, Copy, PartialEq, Eq, Structural)]
pub struct Span {
    pub start: u32,
    pub end: u32,
}

impl Span {
    pub fn new(start: u32, end: u32) -> (s: Span)
        ensures
            s.start == start,
            s.end == end,
    {
        Span { start, end }
    }
}

} // verus!
