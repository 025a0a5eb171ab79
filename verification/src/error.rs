use vstd::prelude::*;

verus! {

/// Why an operation on the territory was refused.
#[derive(Clone, Copy, Debug, PartialEq, Eq, Hash, Structural)]
pub enum LandError {
    /// Invalid country dimensions, or a rectangle without area.
    InvalidDimensions,
    /// Land coordinates out of bounds.
    OutOfBounds,
    /// Land is already occupied.
    LandOccupied,
    /// Not the land owner.
    NotOwner,
    /// Invalid plot dimensions.
    InvalidPlot,
    /// Calculation error: a sum or product of unit counts left its range.
    CalculationError,
    /// Invalid split parameters.
    InvalidSplit,
    /// Plots are not adjacent.
    PlotsNotAdjacent,
    /// Plot is not contiguous.
    NonContiguousPlot,
    /// Invalid payment amount.
    InvalidPayment,
    /// Insufficient funds.
    InsufficientFunds,
    /// Invalid region.
    InvalidRegion,
    /// Plot is already listed.
    AlreadyListed,
    /// Plot is not listed.
    NotListed,
    /// Invalid price.
    InvalidPrice,
}

} // verus!
