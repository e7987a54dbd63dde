//! Error kinds of the coordinate systems and the tree container.

use vstd::prelude::*;

verus! {

/// Error kind for the coordinate systems: a checked constructor or an
/// explicit validation found a component out of range.
#[derive(Debug, Clone, Copy, PartialEq, Eq, Structural)]
pub enum CoordinateError {
    /// An invalid `depth` was provided.
    Depth,
    /// An invalid `index` was provided.
    Index,
    /// An invalid `position` was provided.
    Position,
}

/// Error kind for tree construction.
#[derive(Debug, Clone, Copy, PartialEq, Eq, Structural)]
pub enum TreeError {
    /// The provided node sequence holds more nodes than the tree can store.
    InvalidNodesLength,
}

} // verus!
