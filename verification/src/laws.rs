//! General laws of the coordinate systems, stated and proved once over the
//! same mathematical model that the public contracts use.

use crate::shape::{
    cum_size, depth_of, flat_index_of, flat_x, flat_y, flat_z, layer_size_at,
    lemma_cum_size_strict, lemma_depth_of_bounds, lemma_depth_of_monotone, lemma_depth_of_unique,
    lemma_flat_index_decompose, lemma_flat_index_inverse, lemma_layer_size_pos,
    lemma_row_size_mul, lemma_row_size_unfold, lemma_scale_exact,
    lemma_scale_of_depth, lemma_scale_round_trip, max_depth_index, row_size_at, total_size,
    valid_row_size,
};
use crate::absolute_position::{abs_coord_valid, valid_node_position};
use crate::tree::{child_abs_index, lemma_child_abs_index, parent_abs_index};
use vstd::arithmetic::div_mod::lemma_multiply_divide_lt;
use vstd::arithmetic::power2::pow2;
use vstd::prelude::*;

verus! {

/// Round trip through the in-layer index: converting a valid absolute index
/// to its layer index (its offset from the start of its layer) and back
/// returns the index unchanged, and the layer index is in range.
pub proof fn lemma_index_round_trip(row: nat, i: nat)
    requires
        valid_row_size(row),
        i < total_size(row),
    ensures
        ((i - cum_size(row, depth_of(row, i))) as nat) < layer_size_at(row, depth_of(row, i)),
        cum_size(row, depth_of(row, i)) + ((i - cum_size(row, depth_of(row, i))) as nat) == i,
{
    lemma_depth_of_bounds(row, i);
}

/// Round trip through the layer position: converting a valid absolute index
/// to its layer position (decomposed row-major coordinates) and composing
/// them back returns the index unchanged.
pub proof fn lemma_index_position_round_trip(row: nat, i: nat)
    requires
        valid_row_size(row),
        i < total_size(row),
    ensures
        ({
            let d = depth_of(row, i);
            let li = (i - cum_size(row, d)) as nat;
            let rs = row_size_at(row, d);
            cum_size(row, d) + flat_index_of(rs, flat_x(rs, li), flat_y(rs, li), flat_z(rs, li))
                == i
        }),
{
    let d = depth_of(row, i);
    lemma_depth_of_bounds(row, i);
    lemma_row_size_mul(row, d);
    lemma_flat_index_decompose(row_size_at(row, d), (i - cum_size(row, d)) as nat);
}

/// Round trip through the absolute position: scaling a valid layer
/// coordinate up to finest-grid units gives a valid absolute coordinate,
/// and scaling it back down returns the original coordinate.
pub proof fn lemma_position_round_trip(row: nat, c: nat, d: nat)
    requires
        valid_row_size(row),
        d <= max_depth_index(row),
        c < row_size_at(row, d),
    ensures
        abs_coord_valid(row, c * pow2(d), d),
        (c * pow2(d)) / pow2(d) == c,
{
    lemma_scale_of_depth(row, d);
    lemma_scale_round_trip(c, pow2(d));
    let rs = row_size_at(row, d);
    let m = pow2(d);
    assert(c * m < row) by (nonlinear_arith)
        requires
            c < rs,
            m >= 1,
            rs * m == row,
    {}
}

/// Round trip the other way: scaling a valid absolute coordinate down to
/// layer units gives a valid layer coordinate, and scaling it back up
/// returns the original coordinate.
pub proof fn lemma_abs_position_round_trip(row: nat, c: nat, d: nat)
    requires
        valid_row_size(row),
        d <= max_depth_index(row),
        abs_coord_valid(row, c, d),
    ensures
        c / pow2(d) < row_size_at(row, d),
        (c / pow2(d)) * pow2(d) == c,
{
    lemma_scale_of_depth(row, d);
    lemma_scale_exact(c, pow2(d));
    let rs = row_size_at(row, d);
    let m = pow2(d);
    assert(c < m * rs) by (nonlinear_arith)
        requires
            c < row,
            rs * m == row,
    {}
    lemma_multiply_divide_lt(c as int, m as int, rs as int);
}

/// Depth of absolute indices: index 0 lies at depth 0, the depth never
/// decreases as the index grows, and each layer starts exactly at the
/// cumulative size of all shallower layers.
pub proof fn lemma_depth_monotonicity(row: nat, i: nat, j: nat, d: nat)
    requires
        valid_row_size(row),
        i <= j,
        j < total_size(row),
        d <= max_depth_index(row),
    ensures
        depth_of(row, 0) == 0,
        depth_of(row, i) <= depth_of(row, j),
        depth_of(row, cum_size(row, d)) == d,
{
    lemma_layer_size_pos(row, 0);
    lemma_depth_of_monotone(row, i, j);
    lemma_cum_size_strict(row, d, (d + 1) as nat);
    lemma_depth_of_unique(row, cum_size(row, d), d);
}

/// Parent/child inverse: for any cell with depth above the finest layer, the
/// parent of each of its 8 children is the cell itself, on every shape.
pub proof fn lemma_parent_child_inverse(row: nat, i: nat, k: nat)
    requires
        valid_row_size(row),
        i < total_size(row),
        depth_of(row, i) > 0,
        k < 8,
    ensures
        depth_of(row, child_abs_index(row, i, k)) == depth_of(row, i) - 1,
        parent_abs_index(row, child_abs_index(row, i, k)) == i,
{
    let d = depth_of(row, i);
    let dc = (d - 1) as nat;
    let li = (i - cum_size(row, d)) as nat;
    let rs = row_size_at(row, d);
    let rsc = row_size_at(row, dc);
    let c = child_abs_index(row, i, k);
    lemma_depth_of_bounds(row, i);
    lemma_row_size_mul(row, d);
    lemma_flat_index_decompose(rs, li);
    lemma_child_abs_index(row, i);
    let fx = flat_x(rs, li);
    let fy = flat_y(rs, li);
    let fz = flat_z(rs, li);
    assert(2nat * 2nat == 4nat) by (nonlinear_arith);
    assert(flat_x(2, k) <= 1);
    assert(flat_y(2, k) <= 1);
    assert(flat_z(2, k) == k / 4nat);
    assert(flat_z(2, k) <= 1);
    let cx = 2 * fx + flat_x(2, k);
    let cy = 2 * fy + flat_y(2, k);
    let cz = 2 * fz + flat_z(2, k);
    lemma_row_size_unfold(row, dc);
    lemma_flat_index_inverse(rsc, cx, cy, cz);
    assert(c - cum_size(row, dc) == flat_index_of(rsc, cx, cy, cz));
    assert(cx / 2 == fx && cy / 2 == fy && cz / 2 == fz);
}

/// Boundary rejection: a position with a coordinate that is not a multiple
/// of `2^depth`, or not below the biggest row size, or with a depth past the
/// deepest layer, is not a valid absolute position — so the checked
/// validator refuses it, and the constructors' contracts leave it out.
pub proof fn lemma_boundary_rejection(row: nat, x: nat, y: nat, z: nat, depth: nat)
    ensures
        x % pow2(depth) != 0 ==> !valid_node_position(row, x, y, z, depth),
        y % pow2(depth) != 0 ==> !valid_node_position(row, x, y, z, depth),
        z % pow2(depth) != 0 ==> !valid_node_position(row, x, y, z, depth),
        x >= row ==> !valid_node_position(row, x, y, z, depth),
        y >= row ==> !valid_node_position(row, x, y, z, depth),
        z >= row ==> !valid_node_position(row, x, y, z, depth),
        depth > max_depth_index(row) ==> !valid_node_position(row, x, y, z, depth),
{
}

} // verus!
