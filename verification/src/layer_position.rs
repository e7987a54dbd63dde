//! Layer-local coordinates: [`LayerIndex`] and [`LayerPosition`].
//!
//! Both address a cell relative to its own layer: the index restarts from 0
//! in each layer, and the position is measured in that layer's own row size.

use crate::absolute_position::{NodeIndex, NodePosition};
use crate::shape::{
    cum_size, cum_size_of, depth_of, flat_index_of, flat_x, flat_y, flat_z, layer_size_at,
    layer_size_of, lemma_depth_of_bounds, lemma_flat_index_decompose, lemma_flat_index_inverse,
    lemma_row_size_mul, lemma_row_size_unfold, lemma_scale_of_depth, max_depth_index, row_size_at,
    row_size_of, tree_depth, valid_row_size,
};
use vstd::arithmetic::div_mod::lemma_multiply_divide_lt;
use vstd::arithmetic::mul::lemma_mul_is_commutative;
use vstd::arithmetic::power2::pow2;
use vstd::prelude::*;

verus! {

/// In-layer linear index of a cell of a tree shape.
///
/// Compared to [`NodeIndex`](crate::NodeIndex) the index restarts from 0 in
/// each layer.  A value always holds valid data: the depth is within the
/// shape and the index is below the layer's cell count.
#[derive(Debug, Clone, Copy, PartialEq, Eq, Structural)]
pub struct LayerIndex {
    /// In-layer index.
    pub(crate) index: usize,
    /// Layer depth: 0 is the finest (biggest) layer, the deepest has size 1.
    pub(crate) depth: usize,
    /// Biggest row size of the associated tree shape.
    pub(crate) row: usize,
}

impl LayerIndex {
    /// Well-formedness: the depth is within the shape and the index is below
    /// the layer's cell count.  Every constructed value satisfies it.
    #[verifier::type_invariant]
    pub open spec fn wf(self) -> bool {
        &&& valid_row_size(self.row_spec())
        &&& self.depth_spec() <= max_depth_index(self.row_spec())
        &&& self.index_spec() < layer_size_at(self.row_spec(), self.depth_spec())
    }

    /// The in-layer index, as a mathematical value.
    pub closed spec fn index_spec(self) -> nat {
        self.index as nat
    }

    /// The depth, as a mathematical value.
    pub closed spec fn depth_spec(self) -> nat {
        self.depth as nat
    }

    /// The biggest row size of the associated shape, as a mathematical value.
    pub closed spec fn row_spec(self) -> nat {
        self.row as nat
    }

    /// Creates a new [`LayerIndex`] for the shape with the given biggest row
    /// size.  The components must be valid; a boundary-facing caller
    /// validates them first with [`LayerIndex::is_valid_index_depth`].
    pub fn new(index: usize, depth: usize, biggest_row: usize) -> (r: Self)
        requires
            valid_row_size(biggest_row as nat),
            depth as nat <= max_depth_index(biggest_row as nat),
            (index as nat) < layer_size_at(biggest_row as nat, depth as nat),
        ensures
            r.index_spec() == index,
            r.depth_spec() == depth,
            r.row_spec() == biggest_row,
    {
        Self { index, depth, row: biggest_row }
    }

    /// Returns `true` exactly when `depth` is within the shape and `index`
    /// is below the cell count of the layer at `depth`.
    pub fn is_valid_index_depth(index: usize, depth: usize, biggest_row: usize) -> (r: bool)
        requires
            valid_row_size(biggest_row as nat),
        ensures
            r == (depth as nat <= max_depth_index(biggest_row as nat) && (index as nat)
                < layer_size_at(biggest_row as nat, depth as nat)),
    {
        let md = tree_depth(biggest_row);
        if depth > md {
            return false;
        }
        let ls = layer_size_of(biggest_row, depth);
        index < ls
    }

    /// Returns `true`: every constructed value holds valid components.
    pub fn is_valid(self) -> (r: bool)
        ensures
            r,
    {
        proof {
            use_type_invariant(&self);
        }
        Self::is_valid_index_depth(self.index, self.depth, self.row)
    }

    /// Returns the depth.
    pub fn depth(self) -> (r: usize)
        ensures
            r == self.depth_spec(),
    {
        self.depth
    }

    /// Returns the in-layer index and the depth, in this order.
    pub fn get_raw(self) -> (r: (usize, usize))
        ensures
            r.0 == self.index_spec(),
            r.1 == self.depth_spec(),
    {
        (self.index, self.depth)
    }

    /// Returns the biggest row size of the associated tree shape.
    pub fn biggest_row(self) -> (r: usize)
        ensures
            r == self.row_spec(),
    {
        self.row
    }

    /// Converts a [`LayerPosition`] to the in-layer index of the same cell,
    /// row-major with `x` varying fastest.
    pub fn from_layer_position(value: LayerPosition) -> (r: Self)
        ensures
            r.row_spec() == value.row_spec(),
            r.depth_spec() == value.depth_spec(),
            r.index_spec() == flat_index_of(
                row_size_at(value.row_spec(), value.depth_spec()),
                value.x_spec(),
                value.y_spec(),
                value.z_spec(),
            ),
    {
        proof {
            use_type_invariant(&value);
            lemma_row_size_mul(value.row as nat, value.depth as nat);
            lemma_flat_index_inverse(
                row_size_at(value.row as nat, value.depth as nat),
                value.x as nat,
                value.y as nat,
                value.z as nat,
            );
        }
        let rs = row_size_of(value.row, value.depth);
        proof {
            let rsn = rs as nat;
            assert(value.y * rsn <= rsn * rsn && value.z * (rsn * rsn) <= rsn * rsn * rsn && rsn
                * rsn <= 0x100000 && rsn * rsn * rsn <= 0x40000000) by (nonlinear_arith)
                requires
                    value.y < rsn,
                    value.z < rsn,
                    1 <= rsn <= 1024,
            {}
        }
        let index = value.x + value.y * rs + value.z * (rs * rs);
        Self { index, depth: value.depth, row: value.row }
    }

    /// Converts a [`NodeIndex`] to the in-layer index of the same cell by
    /// subtracting the cumulative size of all shallower layers.
    pub fn from_node_index(value: NodeIndex) -> (r: Self)
        ensures
            r.row_spec() == value.row_spec(),
            r.depth_spec() == depth_of(value.row_spec(), value.index_spec()),
            r.index_spec() + cum_size(value.row_spec(), r.depth_spec()) == value.index_spec(),
    {
        proof {
            use_type_invariant(&value);
            lemma_depth_of_bounds(value.row_spec(), value.index_spec());
        }
        let row = value.biggest_row();
        let index = value.raw();
        let depth = value.depth();
        let below = cum_size_of(row, depth);
        proof {
            let d = depth as nat;
            assert(cum_size(row as nat, (d + 1) as nat) == cum_size(row as nat, d)
                + layer_size_at(row as nat, d));
        }
        Self { index: index - below, depth, row }
    }

    /// Converts a [`NodePosition`] to the in-layer index of the same cell,
    /// through the layer position.
    pub fn from_node_position(value: NodePosition) -> (r: Self)
        ensures
            r.row_spec() == value.row_spec(),
            r.depth_spec() == value.depth_spec(),
            r.index_spec() == flat_index_of(
                row_size_at(value.row_spec(), value.depth_spec()),
                value.x_spec() / pow2(value.depth_spec()),
                value.y_spec() / pow2(value.depth_spec()),
                value.z_spec() / pow2(value.depth_spec()),
            ),
    {
        Self::from_layer_position(LayerPosition::from_node_position(value))
    }
}

/// Position of a cell within its own layer.
///
/// Compared to [`NodePosition`](crate::NodePosition) the coordinates are in
/// units of the layer's own row size: the deeper the layer, the fewer cells
/// it has and the smaller the coordinates are.  A value always holds valid
/// data: the depth is within the shape and each coordinate is below the
/// layer's row size.
#[derive(Debug, Clone, Copy, PartialEq, Eq, Structural)]
pub struct LayerPosition {
    /// Cells from the layer origin along the `x` axis.
    pub(crate) x: usize,
    /// Cells from the layer origin along the `y` axis.
    pub(crate) y: usize,
    /// Cells from the layer origin along the `z` axis.
    pub(crate) z: usize,
    /// Layer depth: 0 is the finest (biggest) layer, the deepest has size 1.
    pub(crate) depth: usize,
    /// Biggest row size of the associated tree shape.
    pub(crate) row: usize,
}

impl LayerPosition {
    /// Well-formedness: the depth is within the shape and each coordinate is
    /// below the layer's row size.  Every constructed value satisfies it.
    #[verifier::type_invariant]
    pub open spec fn wf(self) -> bool {
        &&& valid_row_size(self.row_spec())
        &&& self.depth_spec() <= max_depth_index(self.row_spec())
        &&& self.x_spec() < row_size_at(self.row_spec(), self.depth_spec())
        &&& self.y_spec() < row_size_at(self.row_spec(), self.depth_spec())
        &&& self.z_spec() < row_size_at(self.row_spec(), self.depth_spec())
    }

    /// The `x` coordinate, as a mathematical value.
    pub closed spec fn x_spec(self) -> nat {
        self.x as nat
    }

    /// The `y` coordinate, as a mathematical value.
    pub closed spec fn y_spec(self) -> nat {
        self.y as nat
    }

    /// The `z` coordinate, as a mathematical value.
    pub closed spec fn z_spec(self) -> nat {
        self.z as nat
    }

    /// The depth, as a mathematical value.
    pub closed spec fn depth_spec(self) -> nat {
        self.depth as nat
    }

    /// The biggest row size of the associated shape, as a mathematical value.
    pub closed spec fn row_spec(self) -> nat {
        self.row as nat
    }

    /// Creates a new [`LayerPosition`] for the shape with the given biggest
    /// row size.  The components must be valid; a boundary-facing caller
    /// validates them first with [`LayerPosition::is_valid_position`].
    pub fn new(x: usize, y: usize, z: usize, depth: usize, biggest_row: usize) -> (r: Self)
        requires
            valid_row_size(biggest_row as nat),
            depth as nat <= max_depth_index(biggest_row as nat),
            (x as nat) < row_size_at(biggest_row as nat, depth as nat),
            (y as nat) < row_size_at(biggest_row as nat, depth as nat),
            (z as nat) < row_size_at(biggest_row as nat, depth as nat),
        ensures
            r.x_spec() == x,
            r.y_spec() == y,
            r.z_spec() == z,
            r.depth_spec() == depth,
            r.row_spec() == biggest_row,
    {
        Self { x, y, z, depth, row: biggest_row }
    }

    /// Returns `true` exactly when `depth` is within the shape and each of
    /// `x`, `y`, `z` is below the row size of the layer at `depth`.
    pub fn is_valid_position(x: usize, y: usize, z: usize, depth: usize, biggest_row: usize) -> (r:
        bool)
        requires
            valid_row_size(biggest_row as nat),
        ensures
            r == ({
                let rs = row_size_at(biggest_row as nat, depth as nat);
                depth as nat <= max_depth_index(biggest_row as nat) && (x as nat) < rs && (y as nat)
                    < rs && (z as nat) < rs
            }),
    {
        let md = tree_depth(biggest_row);
        if depth > md {
            return false;
        }
        let rs = row_size_of(biggest_row, depth);
        x < rs && y < rs && z < rs
    }

    /// Returns `true`: every constructed value holds valid components.
    pub fn is_valid(self) -> (r: bool)
        ensures
            r,
    {
        proof {
            use_type_invariant(&self);
        }
        Self::is_valid_position(self.x, self.y, self.z, self.depth, self.row)
    }

    /// Returns `x`, `y`, `z` and the depth, in this order.
    pub fn get_raw(self) -> (r: (usize, usize, usize, usize))
        ensures
            r.0 == self.x_spec(),
            r.1 == self.y_spec(),
            r.2 == self.z_spec(),
            r.3 == self.depth_spec(),
    {
        (self.x, self.y, self.z, self.depth)
    }

    /// Converts a [`LayerIndex`] to the layer position of the same cell by
    /// decomposing the row-major index.
    pub fn from_layer_index(value: LayerIndex) -> (r: Self)
        ensures
            r.row_spec() == value.row_spec(),
            r.depth_spec() == value.depth_spec(),
            r.x_spec() == flat_x(
                row_size_at(value.row_spec(), value.depth_spec()),
                value.index_spec(),
            ),
            r.y_spec() == flat_y(
                row_size_at(value.row_spec(), value.depth_spec()),
                value.index_spec(),
            ),
            r.z_spec() == flat_z(
                row_size_at(value.row_spec(), value.depth_spec()),
                value.index_spec(),
            ),
    {
        proof {
            use_type_invariant(&value);
            lemma_row_size_mul(value.row as nat, value.depth as nat);
            lemma_flat_index_decompose(
                row_size_at(value.row as nat, value.depth as nat),
                value.index as nat,
            );
        }
        let rs = row_size_of(value.row, value.depth);
        proof {
            assert(rs * rs >= 1 && rs * rs <= 0x100000) by (nonlinear_arith)
                requires
                    1 <= rs <= 1024,
            {}
        }
        let x = value.index % rs;
        let y = (value.index / rs) % rs;
        let z = value.index / (rs * rs);
        Self { x, y, z, depth: value.depth, row: value.row }
    }

    /// Returns the biggest row size of the associated tree shape.
    pub fn biggest_row(self) -> (r: usize)
        ensures
            r == self.row_spec(),
    {
        self.row
    }

    /// Converts a [`NodePosition`] to the layer position of the same cell
    /// by scaling each coordinate down from finest-grid units.
    pub fn from_node_position(value: NodePosition) -> (r: Self)
        ensures
            r.row_spec() == value.row_spec(),
            r.depth_spec() == value.depth_spec(),
            r.x_spec() == value.x_spec() / pow2(value.depth_spec()),
            r.y_spec() == value.y_spec() / pow2(value.depth_spec()),
            r.z_spec() == value.z_spec() / pow2(value.depth_spec()),
    {
        proof {
            use_type_invariant(&value);
            lemma_scale_of_depth(value.row_spec(), value.depth_spec());
        }
        let row = value.biggest_row();
        let depth = value.depth();
        let (x, y, z) = value.coords();
        let rs = row_size_of(row, depth);
        let divisor = row / rs;
        proof {
            let p = pow2(value.depth_spec());
            lemma_mul_is_commutative(rs as int, p as int);
            lemma_multiply_divide_lt(x as int, p as int, rs as int);
            lemma_multiply_divide_lt(y as int, p as int, rs as int);
            lemma_multiply_divide_lt(z as int, p as int, rs as int);
        }
        Self { x: x / divisor, y: y / divisor, z: z / divisor, depth, row }
    }

    /// Converts a [`NodeIndex`] to the layer position of the same cell,
    /// through the in-layer index.
    pub fn from_node_index(value: NodeIndex) -> (r: Self)
        ensures
            r.row_spec() == value.row_spec(),
            r.depth_spec() == depth_of(value.row_spec(), value.index_spec()),
            ({
                let row = value.row_spec();
                let d = depth_of(row, value.index_spec());
                let li = (value.index_spec() - cum_size(row, d)) as nat;
                let rs = row_size_at(row, d);
                &&& r.x_spec() == flat_x(rs, li)
                &&& r.y_spec() == flat_y(rs, li)
                &&& r.z_spec() == flat_z(rs, li)
            }),
    {
        Self::from_layer_index(LayerIndex::from_node_index(value))
    }

    /// Returns the position of this cell's parent, one layer deeper, or
    /// `None` when the cell already lies in the deepest layer.
    ///
    /// A parent covers twice this cell's span along each axis, so each
    /// coordinate halves.
    pub fn parrent_position(self) -> (r: Option<Self>)
        ensures
            r is Some <==> self.depth_spec() < max_depth_index(self.row_spec()),
            r is Some ==> {
                let p = r->0;
                &&& p.row_spec() == self.row_spec()
                &&& p.depth_spec() == self.depth_spec() + 1
                &&& p.x_spec() == self.x_spec() / 2
                &&& p.y_spec() == self.y_spec() / 2
                &&& p.z_spec() == self.z_spec() / 2
            },
    {
        proof {
            use_type_invariant(&self);
        }
        let md = tree_depth(self.row);
        if self.depth >= md {
            return None;
        }
        proof {
            lemma_row_size_unfold(self.row as nat, self.depth as nat);
        }
        Some(
            Self {
                x: self.x / 2,
                y: self.y / 2,
                z: self.z / 2,
                depth: self.depth + 1,
                row: self.row,
            },
        )
    }
}

} // verus!
