//! Size parameters of one tree shape, and the index arithmetic behind the
//! coordinate systems.
//!
//! A shape is identified by its biggest row size `row`: the number of cells
//! along one axis of the finest layer (depth `0`).  Each deeper layer halves
//! the row size until the single root cell of row size `1`.  Layers are packed
//! finest first, so a cell is located by the cumulative size of the shallower
//! layers plus its in-layer index.

use vstd::arithmetic::div_mod::{
    lemma_div_denominator, lemma_fundamental_div_mod, lemma_fundamental_div_mod_converse_div,
    lemma_fundamental_div_mod_converse_mod, lemma_mod_multiples_basic, lemma_multiply_divide_lt,
};
use vstd::arithmetic::mul::{lemma_mul_is_commutative, lemma_mul_upper_bound};
use vstd::arithmetic::power2::{is_pow2, lemma2_to64, lemma_pow2_pos, lemma_pow2_unfold, pow2};
use vstd::prelude::*;

verus! {

/// Largest accepted row size.  This is a machine limit: it keeps every cell
/// count of a shape, in particular [`total_size`], well inside `usize` range
/// on every platform.
pub const MAX_ROW_SIZE: usize = 1024;

/// A biggest row size is valid when it is a power of two no larger than
/// [`MAX_ROW_SIZE`].
pub open spec fn valid_row_size(row: nat) -> bool {
    is_pow2(row as int) && row <= MAX_ROW_SIZE
}

/// Index of the deepest layer of a shape with biggest row size `row`
/// (the number of layers minus one; `log2(row)` for a power of two).
pub open spec fn max_depth_index(row: nat) -> nat
    decreases row,
{
    if row <= 1 {
        0
    } else {
        1 + max_depth_index(row / 2)
    }
}

/// Row size of the layer at depth `d`: the biggest row size halved `d` times.
pub open spec fn row_size_at(row: nat, d: nat) -> nat
    decreases d,
{
    if d == 0 {
        row
    } else {
        row_size_at(row / 2, (d - 1) as nat)
    }
}

/// Number of cells of the layer at depth `d`: the cube of its row size.
pub open spec fn layer_size_at(row: nat, d: nat) -> nat {
    let rs = row_size_at(row, d);
    rs * rs * rs
}

/// Total number of cells of the layers shallower than depth `d`, which is
/// also the absolute index where the layer at depth `d` starts.
pub open spec fn cum_size(row: nat, d: nat) -> nat
    decreases d,
{
    if d == 0 {
        0
    } else {
        cum_size(row, (d - 1) as nat) + layer_size_at(row, (d - 1) as nat)
    }
}

/// Total number of cells of a shape: the sum of all its layer sizes.
pub open spec fn total_size(row: nat) -> nat {
    cum_size(row, max_depth_index(row) + 1)
}

/// Depth of the layer that the absolute index `i` falls in: the smallest `d`
/// with `i < cum_size(row, d + 1)`.
pub open spec fn depth_of(row: nat, i: nat) -> nat
    decreases row,
{
    if row <= 1 {
        0
    } else if i < row * row * row {
        0
    } else {
        1 + depth_of(row / 2, (i - row * row * row) as nat)
    }
}

/// Row-major in-layer index of the cell at layer position `(x, y, z)` in a
/// layer of row size `rs`: `x` varies fastest, then `y`, then `z`.
pub open spec fn flat_index_of(rs: nat, x: nat, y: nat, z: nat) -> nat {
    x + y * rs + z * (rs * rs)
}

/// `x` coordinate of the in-layer index `li` in a layer of row size `rs`.
pub open spec fn flat_x(rs: nat, li: nat) -> nat {
    li % rs
}

/// `y` coordinate of the in-layer index `li` in a layer of row size `rs`.
pub open spec fn flat_y(rs: nat, li: nat) -> nat {
    (li / rs) % rs
}

/// `z` coordinate of the in-layer index `li` in a layer of row size `rs`.
pub open spec fn flat_z(rs: nat, li: nat) -> nat {
    li / (rs * rs)
}

/// A valid row size is positive; one of at least 2 is even, halves into a
/// valid row size, and has one layer more than its half.
pub proof fn lemma_valid_row_unfold(row: nat)
    requires
        valid_row_size(row),
    ensures
        row >= 1,
        row == 1 ==> max_depth_index(row) == 0,
        row >= 2 ==> row % 2 == 0,
        row >= 2 ==> valid_row_size(row / 2),
        row >= 2 ==> max_depth_index(row) == 1 + max_depth_index(row / 2),
{
    reveal(is_pow2);
}

/// The deepest layer's index is no larger than the row size itself.
pub proof fn lemma_max_depth_le(row: nat)
    ensures
        max_depth_index(row) <= row,
    decreases row,
{
    if row >= 2 {
        lemma_max_depth_le(row / 2);
    }
}

/// The row size at depth `d` times `2^d` gives back the biggest row size.
pub proof fn lemma_row_size_mul(row: nat, d: nat)
    requires
        valid_row_size(row),
        d <= max_depth_index(row),
    ensures
        1 <= row_size_at(row, d),
        row_size_at(row, d) <= row,
        row_size_at(row, d) * pow2(d) == row,
        valid_row_size(row_size_at(row, d)),
    decreases d,
{
    lemma_valid_row_unfold(row);
    if d == 0 {
        lemma2_to64();
    } else {
        lemma_row_size_mul(row / 2, (d - 1) as nat);
        lemma_pow2_unfold(d);
        let rs = row_size_at(row, d);
        let p = pow2((d - 1) as nat);
        assert(rs * pow2(d) == row) by (nonlinear_arith)
            requires
                rs * p == row / 2,
                pow2(d) == 2 * p,
                row % 2 == 0,
                row == 2 * (row / 2) + row % 2,
        {}
    }
}

/// Above the deepest layer every row size is even and twice the next one.
pub proof fn lemma_row_size_unfold(row: nat, d: nat)
    requires
        valid_row_size(row),
        d < max_depth_index(row),
    ensures
        row_size_at(row, d) >= 2,
        row_size_at(row, d) % 2 == 0,
        row_size_at(row, d) == 2 * row_size_at(row, (d + 1) as nat),
    decreases d,
{
    lemma_valid_row_unfold(row);
    if d == 0 {
        assert(row_size_at(row, 1nat) == row_size_at(row / 2, 0nat));
    } else {
        lemma_row_size_unfold(row / 2, (d - 1) as nat);
        assert(row_size_at(row, (d + 1) as nat) == row_size_at(row / 2, d));
    }
}

/// The deepest layer has row size 1.
pub proof fn lemma_row_size_at_max(row: nat)
    requires
        valid_row_size(row),
    ensures
        row_size_at(row, max_depth_index(row)) == 1,
    decreases row,
{
    lemma_valid_row_unfold(row);
    if row >= 2 {
        lemma_row_size_at_max(row / 2);
    }
}

/// Every layer of a valid shape holds at least one cell.
pub proof fn lemma_layer_size_pos(row: nat, d: nat)
    requires
        valid_row_size(row),
        d <= max_depth_index(row),
    ensures
        layer_size_at(row, d) >= 1,
{
    lemma_row_size_mul(row, d);
    let rs = row_size_at(row, d);
    assert(rs * rs * rs >= 1) by (nonlinear_arith)
        requires
            rs >= 1,
    {}
}

/// Cumulative sizes never decrease with depth.
pub proof fn lemma_cum_size_mono(row: nat, d1: nat, d2: nat)
    requires
        d1 <= d2,
    ensures
        cum_size(row, d1) <= cum_size(row, d2),
    decreases d2,
{
    if d1 < d2 {
        lemma_cum_size_mono(row, d1, (d2 - 1) as nat);
    }
}

/// Cumulative sizes grow strictly while the depth stays within the shape.
pub proof fn lemma_cum_size_strict(row: nat, d1: nat, d2: nat)
    requires
        valid_row_size(row),
        d1 < d2,
        d1 <= max_depth_index(row),
    ensures
        cum_size(row, d1) < cum_size(row, d2),
{
    lemma_layer_size_pos(row, d1);
    lemma_cum_size_mono(row, (d1 + 1) as nat, d2);
}

/// Dropping the finest layer of a shape leaves the cumulative sizes of the
/// halved shape, shifted by one layer.
pub proof fn lemma_cum_size_shift(row: nat, d: nat)
    requires
        row >= 2,
        d >= 1,
    ensures
        cum_size(row, d) == row * row * row + cum_size(row / 2, (d - 1) as nat),
    decreases d,
{
    if d == 1 {
        assert(cum_size(row, 0nat) == 0);
        assert(cum_size(row / 2, 0nat) == 0);
        assert(row_size_at(row, 0nat) == row);
    } else {
        lemma_cum_size_shift(row, (d - 1) as nat);
        assert(row_size_at(row, (d - 1) as nat) == row_size_at(row / 2, (d - 2) as nat));
    }
}

/// The total size of a shape is its finest layer plus the total size of the
/// shape with half the row size.
pub proof fn lemma_total_size_step(row: nat)
    requires
        valid_row_size(row),
        row >= 2,
    ensures
        total_size(row) == row * row * row + total_size(row / 2),
{
    lemma_valid_row_unfold(row);
    lemma_cum_size_shift(row, (max_depth_index(row) + 1) as nat);
}

/// The total size of a valid shape lies between its finest layer size and
/// twice that size.
pub proof fn lemma_total_size_bounds(row: nat)
    requires
        valid_row_size(row),
    ensures
        1 <= total_size(row),
        row * row * row <= total_size(row),
        total_size(row) <= 2 * (row * row * row),
    decreases row,
{
    lemma_valid_row_unfold(row);
    if row == 1 {
        assert(cum_size(1nat, 0nat) == 0);
        assert(layer_size_at(1nat, 0nat) == 1);
        assert(max_depth_index(1nat) == 0);
        assert(total_size(1nat) == 1);
    } else {
        lemma_total_size_step(row);
        lemma_total_size_bounds(row / 2);
        let h = row / 2;
        assert(2 * (h * h * h) * 4 <= row * row * row) by (nonlinear_arith)
            requires
                row == 2 * h,
                h >= 1,
        {}
    }
}

/// The total size of a valid shape fits comfortably in `usize`.
pub proof fn lemma_total_size_fits(row: nat)
    requires
        valid_row_size(row),
    ensures
        total_size(row) <= 0x8000_0000,
        total_size(row) <= usize::MAX,
{
    lemma_total_size_bounds(row);
    lemma_mul_upper_bound(row as int, 1024, row as int, 1024);
    lemma_mul_upper_bound((row * row) as int, 1048576int, row as int, 1024);
}

/// The depth of a valid absolute index names the layer whose index range
/// contains it.
pub proof fn lemma_depth_of_bounds(row: nat, i: nat)
    requires
        valid_row_size(row),
        i < total_size(row),
    ensures
        depth_of(row, i) <= max_depth_index(row),
        cum_size(row, depth_of(row, i)) <= i,
        i < cum_size(row, (depth_of(row, i) + 1) as nat),
    decreases row,
{
    lemma_valid_row_unfold(row);
    if row == 1 {
        assert(cum_size(1nat, 0nat) == 0);
        assert(layer_size_at(1nat, 0nat) == 1);
        assert(max_depth_index(1nat) == 0);
        assert(total_size(1nat) == 1);
    } else if i < row * row * row {
        assert(cum_size(row, 0nat) == 0);
        assert(cum_size(row, 1nat) == layer_size_at(row, 0nat));
    } else {
        lemma_total_size_step(row);
        let rest = (i - row * row * row) as nat;
        lemma_depth_of_bounds(row / 2, rest);
        let d = depth_of(row, i);
        lemma_cum_size_shift(row, d);
        lemma_cum_size_shift(row, (d + 1) as nat);
    }
}

/// The layer index ranges are disjoint: an index inside the range of layer
/// `d` has depth `d`, and is in particular a valid absolute index.
pub proof fn lemma_depth_of_unique(row: nat, i: nat, d: nat)
    requires
        valid_row_size(row),
        d <= max_depth_index(row),
        cum_size(row, d) <= i,
        i < cum_size(row, (d + 1) as nat),
    ensures
        depth_of(row, i) == d,
        i < total_size(row),
{
    lemma_cum_size_mono(row, (d + 1) as nat, (max_depth_index(row) + 1) as nat);
    lemma_depth_of_bounds(row, i);
    let d0 = depth_of(row, i);
    if d0 < d {
        lemma_cum_size_mono(row, (d0 + 1) as nat, d);
    } else if d0 > d {
        lemma_cum_size_mono(row, (d + 1) as nat, d0);
    }
}

/// Depth never decreases as the absolute index grows.
pub proof fn lemma_depth_of_monotone(row: nat, i: nat, j: nat)
    requires
        i <= j,
    ensures
        depth_of(row, i) <= depth_of(row, j),
    decreases row,
{
    if row >= 2 && i >= row * row * row {
        lemma_depth_of_monotone(
            row / 2,
            (i - row * row * row) as nat,
            (j - row * row * row) as nat,
        );
    }
}

/// Layer coordinates below the row size give an in-layer index below the
/// layer size, and the decomposition reads the coordinates back.
pub proof fn lemma_flat_index_inverse(rs: nat, x: nat, y: nat, z: nat)
    requires
        x < rs,
        y < rs,
        z < rs,
    ensures
        flat_index_of(rs, x, y, z) < rs * rs * rs,
        flat_x(rs, flat_index_of(rs, x, y, z)) == x,
        flat_y(rs, flat_index_of(rs, x, y, z)) == y,
        flat_z(rs, flat_index_of(rs, x, y, z)) == z,
{
    let li = flat_index_of(rs, x, y, z);
    assert(li == (y + z * rs) * rs + x && li == z * (rs * rs) + (x + y * rs) && x + y * rs < rs
        * rs && y + z * rs < rs * rs && li < rs * rs * rs) by (nonlinear_arith)
        requires
            x < rs,
            y < rs,
            z < rs,
            li == x + y * rs + z * (rs * rs),
    {}
    lemma_fundamental_div_mod_converse_mod(li as int, rs as int, (y + z * rs) as int, x as int);
    lemma_fundamental_div_mod_converse_div(li as int, rs as int, (y + z * rs) as int, x as int);
    lemma_fundamental_div_mod_converse_mod(
        (y + z * rs) as int,
        rs as int,
        z as int,
        y as int,
    );
    lemma_fundamental_div_mod_converse_div(
        li as int,
        (rs * rs) as int,
        z as int,
        (x + y * rs) as int,
    );
}

/// An in-layer index below the layer size decomposes into coordinates below
/// the row size, and composing them gives the index back.
pub proof fn lemma_flat_index_decompose(rs: nat, li: nat)
    requires
        rs >= 1,
        li < rs * rs * rs,
    ensures
        flat_x(rs, li) < rs,
        flat_y(rs, li) < rs,
        flat_z(rs, li) < rs,
        flat_index_of(rs, flat_x(rs, li), flat_y(rs, li), flat_z(rs, li)) == li,
{
    let x = flat_x(rs, li);
    let y = flat_y(rs, li);
    let z = flat_z(rs, li);
    lemma_fundamental_div_mod(li as int, rs as int);
    lemma_fundamental_div_mod((li / rs) as int, rs as int);
    assert(rs * rs > 0) by (nonlinear_arith)
        requires
            rs >= 1,
    {}
    lemma_div_denominator(li as int, rs as int, rs as int);
    lemma_multiply_divide_lt(li as int, (rs * rs) as int, rs as int);
    assert(x + y * rs + z * (rs * rs) == li) by (nonlinear_arith)
        requires
            rs >= 1,
            x == li % rs,
            y == (li / rs) % rs,
            z == (li / rs) / rs,
            li == rs * (li / rs) + li % rs,
            li / rs == rs * ((li / rs) / rs) + (li / rs) % rs,
    {}
}

/// Scaling a coordinate up by a positive multiplier and back down returns it,
/// and the scaled coordinate is a multiple of the multiplier.
pub proof fn lemma_scale_round_trip(x: nat, m: nat)
    requires
        m >= 1,
    ensures
        (x * m) % m == 0,
        (x * m) / m == x,
{
    lemma_mod_multiples_basic(x as int, m as int);
    lemma_fundamental_div_mod_converse_div((x * m) as int, m as int, x as int, 0);
}

/// A coordinate that is a multiple of the scale divides back exactly.
pub proof fn lemma_scale_exact(x: nat, m: nat)
    requires
        m >= 1,
        x % m == 0,
    ensures
        (x / m) * m == x,
{
    lemma_fundamental_div_mod(x as int, m as int);
    lemma_mul_is_commutative((x / m) as int, m as int);
}

/// A coordinate aligned to `2^d` is also aligned to `2^(d-1)`.
pub proof fn lemma_align_halves(c: nat, d: nat)
    requires
        d >= 1,
        c % pow2(d) == 0,
    ensures
        c % pow2((d - 1) as nat) == 0,
{
    lemma_pow2_unfold(d);
    lemma_pow2_pos(d);
    lemma_pow2_pos((d - 1) as nat);
    lemma_fundamental_div_mod(c as int, pow2(d) as int);
    let q = c as int / pow2(d) as int;
    assert(c as int == (2 * q) * pow2((d - 1) as nat) as int) by (nonlinear_arith)
        requires
            c as int == pow2(d) as int * q + 0,
            pow2(d) == 2 * pow2((d - 1) as nat),
    {}
    lemma_mod_multiples_basic(2 * q, pow2((d - 1) as nat) as int);
}

/// The scale between absolute and layer coordinates at depth `d` is `2^d`:
/// the biggest row size divided by the row size at `d`.
pub proof fn lemma_scale_of_depth(row: nat, d: nat)
    requires
        valid_row_size(row),
        d <= max_depth_index(row),
    ensures
        pow2(d) >= 1,
        pow2(d) <= row,
        row_size_at(row, d) * pow2(d) == row,
        row / row_size_at(row, d) == pow2(d),
{
    lemma_row_size_mul(row, d);
    lemma_pow2_pos(d);
    lemma_mul_is_commutative(row_size_at(row, d) as int, pow2(d) as int);
    lemma_scale_round_trip(pow2(d), row_size_at(row, d));
    lemma_mul_upper_bound(1, row_size_at(row, d) as int, pow2(d) as int, pow2(d) as int);
}

/// Scaling a coordinate by `2^d` and dividing by `2^(d-1)` doubles it.
pub proof fn lemma_double_scale(x: nat, d: nat)
    requires
        d >= 1,
    ensures
        (x * pow2(d)) / pow2((d - 1) as nat) == 2 * x,
{
    lemma_pow2_unfold(d);
    lemma_pow2_pos((d - 1) as nat);
    let p = pow2((d - 1) as nat);
    assert(x * pow2(d) == (2 * x) * p) by (nonlinear_arith)
        requires
            pow2(d) == 2 * p,
    {}
    lemma_scale_round_trip(2 * x, p);
}

/// Returns `true` exactly when `row_size` is a biggest row size the library
/// supports: a power of two no larger than [`MAX_ROW_SIZE`].  Boundary-facing
/// callers validate an untrusted shape parameter with this before
/// constructing coordinates or trees for it.
pub fn is_supported_row_size(row_size: usize) -> (r: bool)
    ensures
        r == valid_row_size(row_size as nat),
{
    if row_size < 1 || row_size > MAX_ROW_SIZE {
        proof {
            reveal(is_pow2);
        }
        return false;
    }
    let mut rs: usize = row_size;
    while rs >= 2
        invariant
            rs >= 1,
            is_pow2(row_size as int) <==> is_pow2(rs as int),
        decreases rs,
    {
        proof {
            reveal(is_pow2);
        }
        if rs % 2 != 0 {
            return false;
        }
        rs = rs / 2;
    }
    proof {
        reveal(is_pow2);
    }
    true
}

/// Number of layers below the shallowest: `log2` of the row size, computed by
/// repeated halving.  The layer count of the shape is one more than this.
pub fn tree_depth(row_size: usize) -> (depth: usize)
    requires
        valid_row_size(row_size as nat),
    ensures
        depth as nat == max_depth_index(row_size as nat),
{
    proof {
        lemma_max_depth_le(row_size as nat);
        lemma_valid_row_unfold(row_size as nat);
    }
    let mut depth: usize = 0;
    let mut rs: usize = row_size;
    while rs / 2 != 0
        invariant
            valid_row_size(rs as nat),
            rs >= 1,
            depth + max_depth_index(rs as nat) == max_depth_index(row_size as nat),
            max_depth_index(row_size as nat) <= row_size,
        decreases rs,
    {
        proof {
            lemma_valid_row_unfold(rs as nat);
        }
        depth = depth + 1;
        rs = rs / 2;
    }
    depth
}

/// Row size of the layer at `depth`, computed by repeated halving.
pub fn row_size_of(row_size: usize, depth: usize) -> (rs: usize)
    requires
        valid_row_size(row_size as nat),
        depth as nat <= max_depth_index(row_size as nat),
    ensures
        rs as nat == row_size_at(row_size as nat, depth as nat),
{
    let mut rs: usize = row_size;
    let mut k: usize = 0;
    while k < depth
        invariant
            k <= depth,
            depth as nat <= max_depth_index(row_size as nat),
            valid_row_size(row_size as nat),
            rs as nat == row_size_at(row_size as nat, k as nat),
        decreases depth - k,
    {
        proof {
            lemma_row_size_unfold(row_size as nat, k as nat);
            lemma_row_size_mul(row_size as nat, k as nat);
        }
        rs = rs / 2;
        k = k + 1;
    }
    rs
}

/// Cell count of the layer at `depth`: the cube of its row size.
pub fn layer_size_of(row_size: usize, depth: usize) -> (ls: usize)
    requires
        valid_row_size(row_size as nat),
        depth as nat <= max_depth_index(row_size as nat),
    ensures
        ls as nat == layer_size_at(row_size as nat, depth as nat),
{
    let rs = row_size_of(row_size, depth);
    proof {
        lemma_row_size_mul(row_size as nat, depth as nat);
        lemma_mul_upper_bound(rs as int, 1024, rs as int, 1024);
        lemma_mul_upper_bound((rs as int) * (rs as int), 1048576int, rs as int, 1024);
    }
    rs * rs * rs
}

/// Absolute index where the layer at `depth` starts: the cumulative size of
/// all shallower layers.
pub fn cum_size_of(row_size: usize, depth: usize) -> (c: usize)
    requires
        valid_row_size(row_size as nat),
        depth as nat <= max_depth_index(row_size as nat) + 1,
    ensures
        c as nat == cum_size(row_size as nat, depth as nat),
{
    let mut acc: usize = 0;
    let mut k: usize = 0;
    while k < depth
        invariant
            k <= depth,
            depth as nat <= max_depth_index(row_size as nat) + 1,
            valid_row_size(row_size as nat),
            acc as nat == cum_size(row_size as nat, k as nat),
        decreases depth - k,
    {
        let ls = layer_size_of(row_size, k);
        proof {
            lemma_cum_size_mono(row_size as nat, (k + 1) as nat, (max_depth_index(
                row_size as nat,
            ) + 1) as nat);
            lemma_total_size_fits(row_size as nat);
        }
        acc = acc + ls;
        k = k + 1;
    }
    acc
}

/// Total cell count of the shape with the given biggest row size.
pub fn total_size_of(row_size: usize) -> (t: usize)
    requires
        valid_row_size(row_size as nat),
    ensures
        t as nat == total_size(row_size as nat),
{
    proof {
        lemma_max_depth_le(row_size as nat);
    }
    let depth = tree_depth(row_size);
    cum_size_of(row_size, depth + 1)
}

} // verus!
