//! Absolute coordinates: [`NodeIndex`] and [`NodePosition`].
//!
//! A [`NodeIndex`] addresses a cell directly in the flat storage of a
//! [`Tree`](crate::Tree); a [`NodePosition`] addresses it spatially, in
//! units of the finest grid, together with its layer depth.

use crate::layer_position::{LayerIndex, LayerPosition};
use crate::shape::{
    cum_size, cum_size_of, depth_of, flat_index_of, layer_size_of, lemma_align_halves,
    lemma_cum_size_mono, lemma_cum_size_strict, lemma_depth_of_bounds, lemma_depth_of_unique,
    lemma_scale_of_depth, lemma_scale_round_trip, lemma_total_size_fits, max_depth_index,
    row_size_at, row_size_of, total_size, total_size_of, tree_depth, valid_row_size,
};
use vstd::arithmetic::power2::pow2;
use vstd::prelude::*;

verus! {

/// A coordinate of an absolute position is valid at `depth` when it is a
/// multiple of `2^depth` and below the biggest row size.
pub open spec fn abs_coord_valid(row: nat, coord: nat, depth: nat) -> bool {
    coord % pow2(depth) == 0 && coord < row
}

/// A full absolute position is valid when `depth` is within the shape and
/// each of its coordinates is valid at that depth.
pub open spec fn valid_node_position(row: nat, x: nat, y: nat, z: nat, depth: nat) -> bool {
    &&& depth <= max_depth_index(row)
    &&& abs_coord_valid(row, x, depth)
    &&& abs_coord_valid(row, y, depth)
    &&& abs_coord_valid(row, z, depth)
}

/// Absolute index of a cell inside the flat storage of a
/// [`Tree`](crate::Tree).
///
/// A value always holds valid data: the index is below the total cell count
/// of its shape.
#[derive(Debug, Clone, Copy, PartialEq, Eq, Structural)]
pub struct NodeIndex {
    /// Index into the flat storage.
    pub(crate) index: usize,
    /// Biggest row size of the associated tree shape.
    pub(crate) row: usize,
}

impl NodeIndex {
    /// Well-formedness: the index is below the total cell count of the
    /// shape.  Every constructed value satisfies it.
    #[verifier::type_invariant]
    pub open spec fn wf(self) -> bool {
        &&& valid_row_size(self.row_spec())
        &&& self.index_spec() < total_size(self.row_spec())
    }

    /// The index, as a mathematical value.
    pub closed spec fn index_spec(self) -> nat {
        self.index as nat
    }

    /// The biggest row size of the associated shape, as a mathematical value.
    pub closed spec fn row_spec(self) -> nat {
        self.row as nat
    }

    /// Creates a new [`NodeIndex`] for the shape with the given biggest row
    /// size.  The index must be valid; a boundary-facing caller uses
    /// [`NodeIndex::new_checked`] instead.
    pub fn new(index: usize, biggest_row: usize) -> (r: Self)
        requires
            valid_row_size(biggest_row as nat),
            (index as nat) < total_size(biggest_row as nat),
        ensures
            r.index_spec() == index,
            r.row_spec() == biggest_row,
    {
        Self { index, row: biggest_row }
    }

    /// Creates a new [`NodeIndex`] if the provided `index` is valid for the
    /// shape, otherwise returns `Err`.
    #[allow(clippy::result_unit_err)]
    pub fn new_checked(index: usize, biggest_row: usize) -> (r: Result<Self, ()>)
        requires
            valid_row_size(biggest_row as nat),
        ensures
            r is Ok <==> (index as nat) < total_size(biggest_row as nat),
            r is Ok ==> r->Ok_0.index_spec() == index && r->Ok_0.row_spec() == biggest_row,
    {
        if !Self::is_valid_index(index, biggest_row) {
            return Err(());
        }
        Ok(Self { index, row: biggest_row })
    }

    /// Returns `true` exactly when `index` is below the total cell count of
    /// the shape with the given biggest row size.
    pub fn is_valid_index(index: usize, biggest_row: usize) -> (r: bool)
        requires
            valid_row_size(biggest_row as nat),
        ensures
            r == ((index as nat) < total_size(biggest_row as nat)),
    {
        let total = total_size_of(biggest_row);
        index < total
    }

    /// Returns `true`: every constructed value holds a valid index.
    pub fn is_valid(self) -> (r: bool)
        ensures
            r,
    {
        proof {
            use_type_invariant(&self);
        }
        Self::is_valid_index(self.index, self.row)
    }

    /// Replaces the stored index with `index` and returns the index
    /// previously stored.
    pub fn set(&mut self, index: usize) -> (r: usize)
        requires
            (index as nat) < total_size(old(self).row_spec()),
        ensures
            final(self).row_spec() == old(self).row_spec(),
            final(self).index_spec() == index,
            r == old(self).index_spec(),
    {
        proof {
            use_type_invariant(&*self);
        }
        let prev = self.index;
        self.index = index;
        prev
    }

    /// Calculates the depth of the layer this index falls in, by scanning
    /// the cumulative layer sizes of the shape.
    pub fn depth(self) -> (r: usize)
        ensures
            r as nat == depth_of(self.row_spec(), self.index_spec()),
    {
        proof {
            use_type_invariant(&self);
            lemma_depth_of_bounds(self.row as nat, self.index as nat);
            assert(cum_size(self.row as nat, 0nat) == 0);
        }
        let md = tree_depth(self.row);
        let mut d: usize = 0;
        let mut next: usize = layer_size_of(self.row, 0);
        while self.index >= next
            invariant
                valid_row_size(self.row as nat),
                (self.index as nat) < total_size(self.row as nat),
                md as nat == max_depth_index(self.row as nat),
                d <= md,
                cum_size(self.row as nat, d as nat) <= self.index as nat,
                next as nat == cum_size(self.row as nat, (d + 1) as nat),
            decreases md - d,
        {
            proof {
                if d + 1 > md {
                    lemma_cum_size_mono(self.row as nat, (md + 1) as nat, (d + 1) as nat);
                }
                lemma_cum_size_mono(
                    self.row as nat,
                    (d + 2) as nat,
                    (max_depth_index(self.row as nat) + 1) as nat,
                );
                lemma_total_size_fits(self.row as nat);
            }
            let ls = layer_size_of(self.row, d + 1);
            next = next + ls;
            d = d + 1;
        }
        proof {
            lemma_depth_of_unique(self.row as nat, self.index as nat, d as nat);
        }
        d
    }

    /// Returns the index as a plain `usize`.
    pub fn raw(self) -> (r: usize)
        ensures
            r == self.index_spec(),
    {
        self.index
    }

    /// Returns the biggest row size of the associated tree shape.
    pub fn biggest_row(self) -> (r: usize)
        ensures
            r == self.row_spec(),
    {
        self.row
    }

    /// Returns the index moved forward by `rhs` cells.  The result must
    /// still be a valid index of the shape.
    pub fn add(self, rhs: usize) -> (r: Self)
        requires
            self.index_spec() + rhs < total_size(self.row_spec()),
        ensures
            r.row_spec() == self.row_spec(),
            r.index_spec() == self.index_spec() + rhs,
    {
        proof {
            use_type_invariant(&self);
            lemma_total_size_fits(self.row as nat);
        }
        Self { index: self.index + rhs, row: self.row }
    }

    /// Returns the index moved back by `rhs` cells, which must not step
    /// before the first cell.
    pub fn sub(self, rhs: usize) -> (r: Self)
        requires
            rhs <= self.index_spec(),
        ensures
            r.row_spec() == self.row_spec(),
            r.index_spec() == self.index_spec() - rhs,
    {
        proof {
            use_type_invariant(&self);
        }
        Self { index: self.index - rhs, row: self.row }
    }

    /// Returns the index moved forward by another index of the same shape,
    /// taken as an offset.  The result must still be a valid index.
    pub fn add_index(self, rhs: Self) -> (r: Self)
        requires
            self.row_spec() == rhs.row_spec(),
            self.index_spec() + rhs.index_spec() < total_size(self.row_spec()),
        ensures
            r.row_spec() == self.row_spec(),
            r.index_spec() == self.index_spec() + rhs.index_spec(),
    {
        self.add(rhs.raw())
    }

    /// Returns the index moved back by another index of the same shape,
    /// taken as an offset, which must not step before the first cell.
    pub fn sub_index(self, rhs: Self) -> (r: Self)
        requires
            self.row_spec() == rhs.row_spec(),
            rhs.index_spec() <= self.index_spec(),
        ensures
            r.row_spec() == self.row_spec(),
            r.index_spec() == self.index_spec() - rhs.index_spec(),
    {
        self.sub(rhs.raw())
    }

    /// Converts a [`LayerIndex`] to the absolute index of the same cell by
    /// adding the cumulative size of all shallower layers.
    pub fn from_layer_index(value: LayerIndex) -> (r: Self)
        ensures
            r.row_spec() == value.row_spec(),
            r.index_spec() == cum_size(value.row_spec(), value.depth_spec())
                + value.index_spec(),
    {
        proof {
            use_type_invariant(&value);
            lemma_cum_size_strict(
                value.row_spec(),
                value.depth_spec(),
                (value.depth_spec() + 1) as nat,
            );
            lemma_cum_size_mono(
                value.row_spec(),
                (value.depth_spec() + 1) as nat,
                (max_depth_index(value.row_spec()) + 1) as nat,
            );
            lemma_total_size_fits(value.row_spec());
        }
        let row = value.biggest_row();
        let (index, depth) = value.get_raw();
        let below = cum_size_of(row, depth);
        Self { index: below + index, row }
    }

    /// Converts a [`LayerPosition`] to the absolute index of the same cell,
    /// through the in-layer index.
    pub fn from_layer_position(value: LayerPosition) -> (r: Self)
        ensures
            r.row_spec() == value.row_spec(),
            r.index_spec() == cum_size(value.row_spec(), value.depth_spec()) + flat_index_of(
                row_size_at(value.row_spec(), value.depth_spec()),
                value.x_spec(),
                value.y_spec(),
                value.z_spec(),
            ),
    {
        Self::from_layer_index(LayerIndex::from_layer_position(value))
    }

    /// Converts a [`NodePosition`] to the absolute index of the same cell,
    /// through the layer position.
    pub fn from_node_position(value: NodePosition) -> (r: Self)
        ensures
            r.row_spec() == value.row_spec(),
            r.index_spec() == cum_size(value.row_spec(), value.depth_spec()) + flat_index_of(
                row_size_at(value.row_spec(), value.depth_spec()),
                value.x_spec() / pow2(value.depth_spec()),
                value.y_spec() / pow2(value.depth_spec()),
                value.z_spec() / pow2(value.depth_spec()),
            ),
    {
        Self::from_layer_position(LayerPosition::from_node_position(value))
    }
}

/// Absolute position of a cell of a [`Tree`](crate::Tree).
///
/// The position is measured from the volume origin (its bottom front left
/// corner) in units of the finest grid, no matter the depth; a cell at depth
/// `d` covers a cube of side `2^d` such units, so its coordinates are
/// multiples of `2^d`.  A value always holds valid data.
#[derive(Debug, Clone, Copy, PartialEq, Eq, Structural)]
pub struct NodePosition {
    /// Cells from the volume origin along the `x` axis, in finest-grid units.
    pub(crate) x: usize,
    /// Cells from the volume origin along the `y` axis, in finest-grid units.
    pub(crate) y: usize,
    /// Cells from the volume origin along the `z` axis, in finest-grid units.
    pub(crate) z: usize,
    /// Layer depth: 0 is the finest (biggest) layer, the deepest has size 1.
    pub(crate) depth: usize,
    /// Biggest row size of the associated tree shape.
    pub(crate) row: usize,
}

impl NodePosition {
    /// Well-formedness: the depth is within the shape and each coordinate is
    /// an aligned finest-grid offset.  Every constructed value satisfies it.
    #[verifier::type_invariant]
    pub open spec fn wf(self) -> bool {
        &&& valid_row_size(self.row_spec())
        &&& valid_node_position(
            self.row_spec(),
            self.x_spec(),
            self.y_spec(),
            self.z_spec(),
            self.depth_spec(),
        )
    }

    /// The `x` coordinate, as a mathematical value.
    pub closed spec fn x_spec(self) -> nat {
        self.x as nat
    }

    /// The `y` coordinate, as a mathematical value.
    pub closed spec fn y_spec(self) -> nat {
        self.y as nat
    }

    /// The `z` coordinate, as a mathematical value.
    pub closed spec fn z_spec(self) -> nat {
        self.z as nat
    }

    /// The depth, as a mathematical value.
    pub closed spec fn depth_spec(self) -> nat {
        self.depth as nat
    }

    /// The biggest row size of the associated shape, as a mathematical value.
    pub closed spec fn row_spec(self) -> nat {
        self.row as nat
    }

    /// Creates a new [`NodePosition`] for the shape with the given biggest
    /// row size.  The components must be valid; a boundary-facing caller
    /// validates them first with [`NodePosition::is_valid_position`].
    pub fn new(x: usize, y: usize, z: usize, depth: usize, biggest_row: usize) -> (r: Self)
        requires
            valid_row_size(biggest_row as nat),
            valid_node_position(biggest_row as nat, x as nat, y as nat, z as nat, depth as nat),
        ensures
            r.x_spec() == x,
            r.y_spec() == y,
            r.z_spec() == z,
            r.depth_spec() == depth,
            r.row_spec() == biggest_row,
    {
        Self { x, y, z, depth, row: biggest_row }
    }

    /// Returns `true` exactly when `depth` is within the shape and each of
    /// `x`, `y`, `z` is a multiple of `2^depth` below the biggest row size.
    pub fn is_valid_position(x: usize, y: usize, z: usize, depth: usize, biggest_row: usize) -> (r:
        bool)
        requires
            valid_row_size(biggest_row as nat),
        ensures
            r == valid_node_position(
                biggest_row as nat,
                x as nat,
                y as nat,
                z as nat,
                depth as nat,
            ),
    {
        let md = tree_depth(biggest_row);
        if depth > md {
            return false;
        }
        let rs = row_size_of(biggest_row, depth);
        proof {
            lemma_scale_of_depth(biggest_row as nat, depth as nat);
        }
        let divisor = biggest_row / rs;
        x % divisor == 0 && x < biggest_row && y % divisor == 0 && y < biggest_row && z % divisor
            == 0 && z < biggest_row
    }

    /// Returns `true`: every constructed value holds valid components.
    pub fn is_valid(self) -> (r: bool)
        ensures
            r,
    {
        proof {
            use_type_invariant(&self);
        }
        Self::is_valid_position(self.x, self.y, self.z, self.depth, self.row)
    }

    /// Returns the `x`, `y` and `z` coordinates, in this order.
    pub fn coords(self) -> (r: (usize, usize, usize))
        ensures
            r.0 == self.x_spec(),
            r.1 == self.y_spec(),
            r.2 == self.z_spec(),
    {
        (self.x, self.y, self.z)
    }

    /// Returns the depth.
    pub fn depth(self) -> (r: usize)
        ensures
            r == self.depth_spec(),
    {
        self.depth
    }

    /// Returns the biggest row size of the associated tree shape.
    pub fn biggest_row(self) -> (r: usize)
        ensures
            r == self.row_spec(),
    {
        self.row
    }

    /// Returns the position of the child in the bottom front left corner of
    /// this cell, one layer finer, or `None` for a cell of the finest layer.
    pub fn child_position(self) -> (r: Option<Self>)
        ensures
            r is Some <==> self.depth_spec() > 0,
            r is Some ==> {
                let c = r->0;
                &&& c.row_spec() == self.row_spec()
                &&& c.depth_spec() == self.depth_spec() - 1
                &&& c.x_spec() == self.x_spec()
                &&& c.y_spec() == self.y_spec()
                &&& c.z_spec() == self.z_spec()
            },
    {
        proof {
            use_type_invariant(&self);
        }
        if self.depth == 0 {
            return None;
        }
        proof {
            lemma_align_halves(self.x as nat, self.depth as nat);
            lemma_align_halves(self.y as nat, self.depth as nat);
            lemma_align_halves(self.z as nat, self.depth as nat);
        }
        Some(Self { x: self.x, y: self.y, z: self.z, depth: self.depth - 1, row: self.row })
    }

    /// Converts a [`LayerPosition`] to the absolute position of the same
    /// cell by scaling each coordinate up to finest-grid units.
    pub fn from_layer_position(value: LayerPosition) -> (r: Self)
        ensures
            r.row_spec() == value.row_spec(),
            r.depth_spec() == value.depth_spec(),
            r.x_spec() == value.x_spec() * pow2(value.depth_spec()),
            r.y_spec() == value.y_spec() * pow2(value.depth_spec()),
            r.z_spec() == value.z_spec() * pow2(value.depth_spec()),
    {
        proof {
            use_type_invariant(&value);
            lemma_scale_of_depth(value.row_spec(), value.depth_spec());
        }
        let row = value.biggest_row();
        let (x, y, z, depth) = value.get_raw();
        let rs = row_size_of(row, depth);
        let multiplier = row / rs;
        proof {
            let m = pow2(value.depth_spec());
            let rsn = rs as nat;
            assert(x * m <= row - m && y * m <= row - m && z * m <= row - m) by (nonlinear_arith)
                requires
                    x < rsn,
                    y < rsn,
                    z < rsn,
                    m >= 1,
                    rsn * m == row,
            {}
            lemma_scale_round_trip(x as nat, m);
            lemma_scale_round_trip(y as nat, m);
            lemma_scale_round_trip(z as nat, m);
        }
        Self { x: x * multiplier, y: y * multiplier, z: z * multiplier, depth, row }
    }

    /// Converts a [`LayerIndex`] to the absolute position of the same cell,
    /// through the layer position.
    pub fn from_layer_index(value: LayerIndex) -> (r: Self)
        ensures
            r.row_spec() == value.row_spec(),
            r.depth_spec() == value.depth_spec(),
            r.x_spec() == crate::shape::flat_x(
                row_size_at(value.row_spec(), value.depth_spec()),
                value.index_spec(),
            ) * pow2(value.depth_spec()),
            r.y_spec() == crate::shape::flat_y(
                row_size_at(value.row_spec(), value.depth_spec()),
                value.index_spec(),
            ) * pow2(value.depth_spec()),
            r.z_spec() == crate::shape::flat_z(
                row_size_at(value.row_spec(), value.depth_spec()),
                value.index_spec(),
            ) * pow2(value.depth_spec()),
    {
        Self::from_layer_position(LayerPosition::from_layer_index(value))
    }

    /// Converts a [`NodeIndex`] to the absolute position of the same cell,
    /// through the layer position.
    pub fn from_node_index(value: NodeIndex) -> (r: Self)
        ensures
            r.row_spec() == value.row_spec(),
            r.depth_spec() == depth_of(value.row_spec(), value.index_spec()),
            ({
                let row = value.row_spec();
                let d = depth_of(row, value.index_spec());
                let li = (value.index_spec() - cum_size(row, d)) as nat;
                let rs = row_size_at(row, d);
                &&& r.x_spec() == crate::shape::flat_x(rs, li) * pow2(d)
                &&& r.y_spec() == crate::shape::flat_y(rs, li) * pow2(d)
                &&& r.z_spec() == crate::shape::flat_z(rs, li) * pow2(d)
            }),
    {
        Self::from_layer_position(LayerPosition::from_node_index(value))
    }
}

} // verus!
