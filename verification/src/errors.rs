//! Failure kinds reported by the checked entry points.

use vstd::prelude::*;

verus! {

/// Error of a checked single-element operation (`try_get`, `try_set`).
#[derive(Clone, Copy, Debug, PartialEq, Eq, Structural)]
pub enum SegtreeAccessError {
    /// The index lies outside `[0, len)`.
    IndexOutOfBounds,
}

/// Error of a checked range query (`try_query`).
#[derive(Clone, Copy, Debug, PartialEq, Eq, Structural)]
pub enum SegtreeRangeError {
    /// The right endpoint lies outside `[0, len)`.
    RangeOutOfBounds,
    /// The interval is inverted: its left endpoint exceeds its right one.
    InvalidRange,
}

} // verus!
