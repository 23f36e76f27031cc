use vstd::prelude::*;

verus! {

/// The errors that propagate out of this crate.
///
/// Only structurally fatal problems are surfaced as values of this type;
/// missing optional context (an unregistered window, an empty scratch slot,
/// a failed pointer query) degrades gracefully instead.
#[derive(Clone, Copy, Debug, PartialEq, Eq, Structural)]
pub enum Error {
    /// A widget's internal record was already borrowed in a way that is
    /// incompatible with the requested access.
    BorrowConflict,
    /// A signed platform coordinate or size does not fit the unsigned
    /// internal representation.
    NumericConversion,
}

} // verus!
