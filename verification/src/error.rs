//! The failures that decoding can report.

use vstd::prelude::*;

verus! {

/// Why a lookup or a decode did not produce a value.
#[derive(Clone, Copy, Debug, PartialEq, Eq, Structural)]
pub enum MulError {
    /// The index entry marks the record as absent.
    NotFound,
    /// The bytes end before the value does.
    Truncated,
    /// A declared width or height lies outside the accepted range.
    MalformedDimensions,
    /// The payload contradicts its own header.
    InvariantViolation,
    /// An animation frame with no area cannot be drawn.
    UnsupportedFrame,
    /// An id or a coordinate lies outside what the reader serves.
    OutOfBounds,
}

} // verus!
