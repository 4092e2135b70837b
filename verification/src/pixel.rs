//! Pixel state of a single screen cell, and the error kinds of the core.

use vstd::prelude::*;

verus! {

/// Whether a complex point is believed to remain bounded under iteration
/// of the escape-time test.
#[derive(Copy, Clone, Debug, PartialEq, Eq, Structural)]
pub enum Classification {
    /// The orbit stayed bounded within the iteration budget.
    Inside,
    /// The orbit escaped (its squared norm exceeded the escape radius).
    Outside,
}

/// State of one cell of the screen buffer.
///
/// A cell is either stale — its classification must be (re)computed before
/// the frame may be shown — or it carries a computed classification.
#[derive(Copy, Clone, Debug, PartialEq, Eq, Structural)]
pub enum Pixel {
    /// Classification unknown; the cell must be recomputed before display.
    Recompute,
    /// A computed, trustworthy classification.
    Value(Classification),
}

/// Error kinds of the core.
#[derive(Copy, Clone, Debug, PartialEq, Eq, Structural)]
pub enum CoreError {
    /// A coordinate lay outside the buffer or viewport extent.
    OutOfBounds,
    /// A render worker terminated abnormally.
    WorkerFailure,
    /// A frame was assembled while some cell was still `Recompute`.
    IncompleteFrame,
}

} // verus!
