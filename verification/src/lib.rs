//! A fixed-topology, non-sparse octree stored as one flat array.
//!
//! A cubic volume whose side is a power of two is recursively halved into
//! nested sub-cubes down to single cells, and every node of every layer is
//! kept contiguously in one flat sequence, finest layer first.  Cells are
//! addressed through four interchangeable coordinate systems: an absolute
//! linear index ([`NodeIndex`]), an absolute 3D position ([`NodePosition`]),
//! a per-layer linear index ([`LayerIndex`]) and a per-layer 3D position
//! ([`LayerPosition`]).  The [`Tree`] container offers cell access,
//! parent/child navigation and a bottom-up reduction pass over this packing.
//!
//! # Validity policy
//!
//! Bounds and alignment are not checked at run time: every constructor and
//! accessor states its demands in its contract, and verification holds every
//! call site to them, in every build.  The coordinate types carry a type
//! invariant, so a constructed value always holds valid components.
//! Boundary-facing callers with untrusted input validate it first through
//! the `is_valid*` predicates or [`NodeIndex::new_checked`], which never
//! fail fast.  Coordinates carry the biggest row size of their shape as
//! data, and the contracts demand matching shapes wherever two values meet,
//! so coordinates of different shapes cannot be mixed.

mod absolute_position;
mod error;
mod laws;
mod layer_iter;
mod layer_position;
mod node;
mod shape;
mod tree;

pub use absolute_position::{abs_coord_valid, valid_node_position, NodeIndex, NodePosition};
pub use error::{CoordinateError, TreeError};
pub use laws::{
    lemma_abs_position_round_trip, lemma_boundary_rejection, lemma_depth_monotonicity,
    lemma_index_position_round_trip, lemma_index_round_trip, lemma_parent_child_inverse,
    lemma_position_round_trip,
};
pub use layer_iter::LayerIter;
pub use layer_position::{LayerIndex, LayerPosition};
pub use node::{Node, NodesRaw};
pub use tree::{
    child_abs_index, child_anchor_index, children_values, lemma_child_abs_index,
    parent_abs_index, Tree, TreeInterface,
};
pub use shape::{
    cum_size, cum_size_of, depth_of, flat_index_of, flat_x, flat_y, flat_z, is_supported_row_size,
    layer_size_at, layer_size_of, max_depth_index, row_size_at, row_size_of, total_size,
    total_size_of, tree_depth, valid_row_size, MAX_ROW_SIZE,
};
