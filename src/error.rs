use vstd::prelude::*;

verus! {

/// The ways a request against an array file can fail.
#[derive(Clone, Copy, Debug, PartialEq, Eq, Structural)]
pub enum OmError {
    /// A path names no variable of the tree.
    NotFound,
    /// A count of ranges, axes or chunk extents does not match the dimensions.
    ShapeMismatch,
    /// A range leaves its dimension, or is empty.
    OutOfBounds,
    /// A range token or path segment cannot be read.
    Malformed,
    /// The file backend failed to open, read or write.
    Io,
    /// The element type is not handled by the tool.
    Unsupported,
}

} // verus!
