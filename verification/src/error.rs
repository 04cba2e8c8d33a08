//! Why a request was refused.

use vstd::prelude::*;

verus! {

/// The ways in which carving can be refused. Nothing is changed when one of
/// these comes back.
#[derive(Clone, Copy, Debug, PartialEq, Eq, Structural)]
pub enum ResizeError {
    /// The request would make the image wider.
    OnlyDownsizing,
    /// The request would change the height.
    OnlyHorizontal,
    /// There are fewer than two columns, or no rows, to search for a seam.
    TooNarrow,
    /// Two buffers that must cover the same pixels differ in size.
    SizeMismatch,
    /// A seam does not name one column of every row of the image.
    SeamOutOfBounds,
}

} // verus!
