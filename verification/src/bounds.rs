//! Normalization of flexible range specifications (inclusive, exclusive or
//! unbounded endpoints) into the canonical closed interval that the range
//! query works on.

use vstd::prelude::*;

verus! {

/// One endpoint of a flexible range specification.
#[derive(Clone, Copy, Debug, PartialEq, Eq, Structural)]
pub enum IndexBound {
    /// The endpoint itself belongs to the range.
    Included(usize),
    /// The index next to the endpoint belongs to the range, the endpoint
    /// itself does not.
    Excluded(usize),
    /// The range extends to the domain default on this side.
    Unbounded,
}

/// The canonical inclusive left endpoint of a range starting at `b`, where
/// `min` is the domain default for an unbounded start.
pub open spec fn spec_start_inclusive(b: IndexBound, min: int) -> int {
    match b {
        IndexBound::Included(v) => v as int,
        IndexBound::Excluded(v) => v as int + 1,
        IndexBound::Unbounded => min,
    }
}

/// The canonical inclusive right endpoint of a range ending at `b`, where
/// `max` is the domain default for an unbounded end.
pub open spec fn spec_end_inclusive(b: IndexBound, max: int) -> int {
    match b {
        IndexBound::Included(v) => v as int,
        IndexBound::Excluded(v) => v as int - 1,
        IndexBound::Unbounded => max,
    }
}

/// Converts a flexible range specification into the canonical closed
/// interval `[start, end]`, with `min` and `max` the domain defaults for
/// unbounded ends. The canonical endpoints must lie inside the `usize`
/// domain: an exclusive start of `usize::MAX` or an exclusive end of `0`
/// has no canonical form.
pub fn bounds_to_inclusive(start: IndexBound, end: IndexBound, min: usize, max: usize) -> (result: (
    usize,
    usize,
))
    requires
        spec_start_inclusive(start, min as int) <= usize::MAX,
        spec_end_inclusive(end, max as int) >= 0,
    ensures
        result.0 == spec_start_inclusive(start, min as int),
        result.1 == spec_end_inclusive(end, max as int),
{
    let s: usize = match start {
        IndexBound::Included(v) => v,
        IndexBound::Excluded(v) => v + 1,
        IndexBound::Unbounded => min,
    };
    let e: usize = match end {
        IndexBound::Included(v) => v,
        IndexBound::Excluded(v) => v - 1,
        IndexBound::Unbounded => max,
    };
    (s, e)
}

} // verus!
