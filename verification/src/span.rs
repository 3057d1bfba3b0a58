//! Source spans.

use vstd::prelude::*;

verus! {

/// A half-open byte range `lo..hi` of the source.
#[derive(Clone, Copy, Debug, PartialEq, Eq, Structural)]
pub struct Span {
    pub lo: usize,
    pub hi: usize,
}

impl Span {
    pub fn new(lo: usize, hi: usize) -> (r: Span)
        ensures
            r == (Span { lo, hi }),
    {
        Span { lo, hi }
    }
}

/// Whether `off` lies in `span`, both ends included.
pub open spec fn span_contains(span: Span, off: int) -> bool {
    span.lo <= off <= span.hi
}

} // verus!
