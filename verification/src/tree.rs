//! The flat, non-sparse octree container [`Tree`] and its shape interface
//! [`TreeInterface`].

use crate::absolute_position::{NodeIndex, NodePosition};
use crate::layer_position::LayerPosition;
use crate::node::{Node, NodesRaw};
use crate::shape::{
    cum_size, cum_size_of, depth_of, flat_index_of, flat_x, flat_y, flat_z, layer_size_at,
    layer_size_of, lemma_cum_size_mono, lemma_depth_of_bounds, lemma_depth_of_unique, lemma_layer_size_pos, lemma_max_depth_le,
    lemma_double_scale, lemma_flat_index_decompose, lemma_flat_index_inverse,
    lemma_row_size_mul, lemma_row_size_unfold, lemma_total_size_fits, lemma_total_size_step,
    lemma_valid_row_unfold, max_depth_index, row_size_at, row_size_of, total_size, total_size_of,
    tree_depth, valid_row_size,
};
use vstd::prelude::*;
use vstd::slice::slice_subrange;

verus! {

/// Absolute index of the parent of the cell at absolute index `i`: the cell
/// one layer deeper whose cube contains it, so each layer coordinate halves.
pub open spec fn parent_abs_index(row: nat, i: nat) -> nat {
    let d = depth_of(row, i);
    let dp = (d + 1) as nat;
    let li = (i - cum_size(row, d)) as nat;
    let rs = row_size_at(row, d);
    let rsp = row_size_at(row, dp);
    cum_size(row, dp) + flat_index_of(
        rsp,
        flat_x(rs, li) / 2,
        flat_y(rs, li) / 2,
        flat_z(rs, li) / 2,
    )
}

/// Absolute index of the bottom front left child of the cell at absolute
/// index `i`: the same spatial corner one layer finer, where every layer
/// coordinate doubles.
pub open spec fn child_anchor_index(row: nat, i: nat) -> nat {
    let d = depth_of(row, i);
    let dc = (d - 1) as nat;
    let li = (i - cum_size(row, d)) as nat;
    let rs = row_size_at(row, d);
    let rsc = row_size_at(row, dc);
    cum_size(row, dc) + flat_index_of(
        rsc,
        2 * flat_x(rs, li),
        2 * flat_y(rs, li),
        2 * flat_z(rs, li),
    )
}

/// Absolute index of the `k`-th child (0 to 7) of the cell at absolute index
/// `i`.  Children leave the anchor by offsets of 0 or 1 per axis, with `x`
/// varying fastest, then `y`, then `z`.
pub open spec fn child_abs_index(row: nat, i: nat, k: nat) -> nat {
    let dc = (depth_of(row, i) - 1) as nat;
    let rsc = row_size_at(row, dc);
    child_anchor_index(row, i) + flat_x(2, k) + flat_y(2, k) * rsc + flat_z(2, k) * (rsc * rsc)
}

/// The values of the 8 children of the cell at absolute index `i`, in child
/// order, read from the cell sequence `s`.
pub open spec fn children_values<T>(s: Seq<Node<T>>, row: nat, i: nat) -> Seq<Node<T>> {
    Seq::new(8, |k: int| s[child_abs_index(row, i, k as nat) as int])
}

/// The children of a cell lie in the next finer layer, wholly before their
/// parent's layer, and decompose into doubled layer coordinates plus an
/// offset of 0 or 1 per axis.
pub proof fn lemma_child_abs_index(row: nat, i: nat)
    requires
        valid_row_size(row),
        i < total_size(row),
        depth_of(row, i) > 0,
    ensures
        forall|k: nat|
            k < 8 ==> #[trigger] child_abs_index(row, i, k) < cum_size(row, depth_of(row, i)),
        forall|k: nat|
            k < 8 ==> depth_of(row, #[trigger] child_abs_index(row, i, k)) == depth_of(row, i)
                - 1,
        forall|k: nat|
            k < 8 ==> #[trigger] child_abs_index(row, i, k) == cum_size(
                row,
                (depth_of(row, i) - 1) as nat,
            ) + flat_index_of(
                row_size_at(row, (depth_of(row, i) - 1) as nat),
                2 * flat_x(row_size_at(row, depth_of(row, i)), (i - cum_size(
                    row,
                    depth_of(row, i),
                )) as nat) + flat_x(2, k),
                2 * flat_y(row_size_at(row, depth_of(row, i)), (i - cum_size(
                    row,
                    depth_of(row, i),
                )) as nat) + flat_y(2, k),
                2 * flat_z(row_size_at(row, depth_of(row, i)), (i - cum_size(
                    row,
                    depth_of(row, i),
                )) as nat) + flat_z(2, k),
            ),
{
    let d = depth_of(row, i);
    let dc = (d - 1) as nat;
    let li = (i - cum_size(row, d)) as nat;
    let rs = row_size_at(row, d);
    let rsc = row_size_at(row, dc);
    lemma_depth_of_bounds(row, i);
    lemma_row_size_mul(row, d);
    assert(cum_size(row, (dc + 1) as nat) == cum_size(row, dc) + layer_size_at(row, dc));
    assert(li < layer_size_at(row, d));
    lemma_flat_index_decompose(rs, li);
    let fx = flat_x(rs, li);
    let fy = flat_y(rs, li);
    let fz = flat_z(rs, li);
    lemma_row_size_unfold(row, dc);
    assert forall|k: nat| k < 8 implies {
        &&& #[trigger] child_abs_index(row, i, k) < cum_size(row, d)
        &&& depth_of(row, child_abs_index(row, i, k)) == dc
        &&& child_abs_index(row, i, k) == cum_size(row, dc) + flat_index_of(
            rsc,
            2 * fx + flat_x(2, k),
            2 * fy + flat_y(2, k),
            2 * fz + flat_z(2, k),
        )
    } by {
        let ox = flat_x(2, k);
        let oy = flat_y(2, k);
        let oz = flat_z(2, k);
        assert(ox <= 1 && oy <= 1 && oz <= 1);
        lemma_flat_index_inverse(rsc, 2 * fx + ox, 2 * fy + oy, 2 * fz + oz);
        assert((2 * fx + ox) + (2 * fy + oy) * rsc + (2 * fz + oz) * (rsc * rsc) == (2 * fx + 2
            * fy * rsc + 2 * fz * (rsc * rsc)) + (ox + oy * rsc + oz * (rsc * rsc)))
            by (nonlinear_arith) {}
        assert(child_abs_index(row, i, k) < cum_size(row, (dc + 1) as nat));
        lemma_depth_of_unique(row, child_abs_index(row, i, k), dc);
    }
}

/// Stores data in a non-sparse octree.
///
/// Every node of every layer is kept in one flat sequence, finest layer
/// first, which gives constant-time cell access while still exposing the
/// spatial structure through index arithmetic.
#[derive(Debug, Clone, PartialEq)]
pub struct Tree<T> {
    /// Flat storage, one node per cell, in absolute index order.
    nodes: Vec<Node<T>>,
    /// Biggest row size of the tree's shape.
    row: usize,
}

impl<T> View for Tree<T> {
    type V = Seq<Node<T>>;

    closed spec fn view(&self) -> Seq<Node<T>> {
        self.nodes@
    }
}

impl<T> Tree<T> {
    /// The biggest row size of the tree's shape, as a mathematical value.
    pub closed spec fn row_spec(self) -> nat {
        self.row as nat
    }

    /// Well-formedness: the shape is valid and the storage holds exactly one
    /// node per cell of the shape.
    pub open spec fn wf(self) -> bool {
        &&& valid_row_size(self.row_spec())
        &&& self@.len() == total_size(self.row_spec())
    }

    /// Returns the biggest row size of the tree's shape.
    pub fn biggest_row(&self) -> (r: usize)
        ensures
            r == self.row_spec(),
    {
        self.row
    }

    /// Creates a new tree of the shape with the given biggest row size, with
    /// every cell [`Empty`](Node::Empty).
    pub fn new(biggest_row: usize) -> (r: Self)
        requires
            valid_row_size(biggest_row as nat),
        ensures
            r.wf(),
            r.row_spec() == biggest_row,
            forall|i: int| 0 <= i < r@.len() ==> r@[i] is Empty,
    {
        let total = total_size_of(biggest_row);
        let mut nodes: Vec<Node<T>> = Vec::new();
        while nodes.len() < total
            invariant
                nodes@.len() <= total,
                forall|i: int| 0 <= i < nodes@.len() ==> nodes@[i] is Empty,
            decreases total - nodes@.len(),
        {
            nodes.push(Node::Empty);
        }
        Self { nodes, row: biggest_row }
    }

    /// Creates a new tree directly from a node sequence that already holds
    /// exactly one node per cell.
    pub fn from_nodes(nodes: Vec<Node<T>>, biggest_row: usize) -> (r: Self)
        requires
            valid_row_size(biggest_row as nat),
            nodes@.len() == total_size(biggest_row as nat),
        ensures
            r.wf(),
            r.row_spec() == biggest_row,
            r@ == nodes@,
    {
        Self { nodes, row: biggest_row }
    }

    /// Creates a new tree from a staging buffer: the staged nodes fill the
    /// front of the storage and any shortfall is padded with
    /// [`Empty`](Node::Empty).
    pub fn from_nodes_raw(raw: NodesRaw<T>) -> (r: Self)
        requires
            raw.wf(),
        ensures
            r.wf(),
            r.row_spec() == raw.row_spec(),
            r@.len() == total_size(raw.row_spec()),
            forall|i: int| 0 <= i < raw@.len() ==> r@[i] == raw@[i],
            forall|i: int| raw@.len() <= i < r@.len() ==> r@[i] is Empty,
    {
        let row = raw.biggest_row();
        let total = total_size_of(row);
        let ghost staged = raw@;
        let mut nodes = raw.into_vec();
        while nodes.len() < total
            invariant
                staged.len() <= nodes@.len() <= total,
                forall|i: int| 0 <= i < staged.len() ==> nodes@[i] == staged[i],
                forall|i: int| staged.len() <= i < nodes@.len() ==> nodes@[i] is Empty,
            decreases total - nodes@.len(),
        {
            nodes.push(Node::Empty);
        }
        Self { nodes, row }
    }

    /// Returns a reference to the node at `position`.
    pub fn get(&self, position: NodeIndex) -> (r: &Node<T>)
        requires
            self.wf(),
            position.row_spec() == self.row_spec(),
        ensures
            *r == self@[position.index_spec() as int],
    {
        proof {
            use_type_invariant(&position);
        }
        let i = position.raw();
        &self.nodes[i]
    }

    /// Returns a mutable reference to the node at `position`.
    pub fn get_mut(&mut self, position: NodeIndex) -> (r: &mut Node<T>)
        requires
            old(self).wf(),
            position.row_spec() == old(self).row_spec(),
        ensures
            *r == old(self)@[position.index_spec() as int],
            final(self)@ == old(self)@.update(position.index_spec() as int, *final(r)),
            final(self).row_spec() == old(self).row_spec(),
            final(self).wf(),
    {
        proof {
            use_type_invariant(&position);
        }
        let i = position.raw();
        &mut self.nodes[i]
    }

    /// Replaces the node at `position` with the provided one and returns the
    /// node previously stored there.
    pub fn set(&mut self, position: NodeIndex, node: Node<T>) -> (r: Node<T>)
        requires
            old(self).wf(),
            position.row_spec() == old(self).row_spec(),
        ensures
            final(self).wf(),
            final(self).row_spec() == old(self).row_spec(),
            final(self)@ == old(self)@.update(position.index_spec() as int, node),
            r == old(self)@[position.index_spec() as int],
    {
        proof {
            use_type_invariant(&position);
        }
        let mut node = node;
        let i = position.raw();
        core::mem::swap(&mut self.nodes[i], &mut node);
        node
    }

    /// Returns the absolute index of the parent of the cell at `position`,
    /// or `None` when that cell lies in the deepest layer.
    pub fn parrent_index(&self, position: NodeIndex) -> (r: Option<NodeIndex>)
        requires
            position.row_spec() == self.row_spec(),
        ensures
            r is Some <==> depth_of(self.row_spec(), position.index_spec()) < max_depth_index(
                self.row_spec(),
            ),
            r is Some ==> r->0.row_spec() == self.row_spec() && r->0.index_spec()
                == parent_abs_index(self.row_spec(), position.index_spec()),
    {
        let lp = LayerPosition::from_node_index(position);
        match lp.parrent_position() {
            None => None,
            Some(pp) => Some(NodeIndex::from_layer_position(pp)),
        }
    }

    /// Returns a reference to the parent node of the cell at `position`, or
    /// `None` when that cell lies in the deepest layer.
    pub fn parrent(&self, position: NodeIndex) -> (r: Option<&Node<T>>)
        requires
            self.wf(),
            position.row_spec() == self.row_spec(),
        ensures
            r is Some <==> depth_of(self.row_spec(), position.index_spec()) < max_depth_index(
                self.row_spec(),
            ),
            r is Some ==> *r->0 == self@[parent_abs_index(
                self.row_spec(),
                position.index_spec(),
            ) as int],
    {
        match self.parrent_index(position) {
            None => None,
            Some(pi) => Some(self.get(pi)),
        }
    }

    /// Returns a reference to the parent node of the cell at `position`
    /// through an exclusive tree borrow, or `None` when that cell lies in
    /// the deepest layer.  The tree itself is left unchanged.
    pub fn parrent_mut(&mut self, position: NodeIndex) -> (r: Option<&Node<T>>)
        requires
            old(self).wf(),
            position.row_spec() == old(self).row_spec(),
        ensures
            *final(self) == *old(self),
            r is Some <==> depth_of(old(self).row_spec(), position.index_spec())
                < max_depth_index(old(self).row_spec()),
            r is Some ==> *r->0 == old(self)@[parent_abs_index(
                old(self).row_spec(),
                position.index_spec(),
            ) as int],
    {
        match self.parrent_index(position) {
            None => None,
            Some(pi) => Some(self.get(pi)),
        }
    }

    /// Returns the absolute indices of the 8 children of the cell at
    /// `position`, in child order (`x` fastest, then `y`, then `z`), or
    /// `None` when that cell lies in the finest layer.
    pub fn children_indices(&self, position: NodeIndex) -> (r: Option<[NodeIndex; 8]>)
        requires
            position.row_spec() == self.row_spec(),
        ensures
            r is Some <==> depth_of(self.row_spec(), position.index_spec()) > 0,
            r is Some ==> forall|k: int|
                0 <= k < 8 ==> (#[trigger] r->0[k]).row_spec() == self.row_spec()
                    && r->0[k].index_spec() == child_abs_index(
                    self.row_spec(),
                    position.index_spec(),
                    k as nat,
                ),
    {
        proof {
            use_type_invariant(&position);
        }
        let np = NodePosition::from_node_index(position);
        let anchor_np = match np.child_position() {
            None => {
                return None;
            },
            Some(a) => a,
        };
        let anchor = NodeIndex::from_node_position(anchor_np);
        let row = position.biggest_row();
        let dc = anchor_np.depth();
        let ghost rown = row as nat;
        let ghost i = position.index_spec();
        let ghost d = depth_of(rown, i);
        proof {
            lemma_depth_of_bounds(rown, i);
            lemma_child_abs_index(rown, i);
            lemma_double_scale(flat_x(row_size_at(rown, d), (i - cum_size(rown, d)) as nat), d);
            lemma_double_scale(flat_y(row_size_at(rown, d), (i - cum_size(rown, d)) as nat), d);
            lemma_double_scale(flat_z(row_size_at(rown, d), (i - cum_size(rown, d)) as nat), d);
            assert(anchor.index_spec() == child_anchor_index(rown, i));
            lemma_cum_size_mono(rown, d, (max_depth_index(rown) + 1) as nat);
            lemma_row_size_mul(rown, (d - 1) as nat);
        }
        let rsc = row_size_of(row, dc);
        proof {
            assert(rsc * rsc <= 0x100000) by (nonlinear_arith)
                requires
                    0 <= rsc <= 1024,
            {}
        }
        let sq = rsc * rsc;
        proof {
            let rscn = rsc as nat;
            assert(2nat * 2nat == 4nat) by (nonlinear_arith);
            assert(flat_y(2, 2nat) == 1 && flat_y(2, 3nat) == 1 && flat_y(2, 4nat) == 0
                && flat_y(2, 5nat) == 0 && flat_y(2, 6nat) == 1 && flat_y(2, 7nat) == 1);
            assert(flat_z(2, 2nat) == 0 && flat_z(2, 3nat) == 0 && flat_z(2, 4nat) == 1
                && flat_z(2, 5nat) == 1 && flat_z(2, 6nat) == 1 && flat_z(2, 7nat) == 1);
            assert(flat_y(2, 2nat) * rscn == rscn && flat_y(2, 3nat) * rscn == rscn && flat_y(
                2,
                4nat,
            ) * rscn == 0 && flat_y(2, 5nat) * rscn == 0 && flat_y(2, 6nat) * rscn == rscn
                && flat_y(2, 7nat) * rscn == rscn && flat_z(2, 2nat) * (rscn * rscn) == 0
                && flat_z(2, 3nat) * (rscn * rscn) == 0 && flat_z(2, 4nat) * (rscn * rscn) == rscn
                * rscn && flat_z(2, 5nat) * (rscn * rscn) == rscn * rscn && flat_z(2, 6nat) * (rscn
                * rscn) == rscn * rscn && flat_z(2, 7nat) * (rscn * rscn) == rscn * rscn)
                by (nonlinear_arith)
                requires
                    flat_y(2, 2nat) == 1,
                    flat_y(2, 3nat) == 1,
                    flat_y(2, 4nat) == 0,
                    flat_y(2, 5nat) == 0,
                    flat_y(2, 6nat) == 1,
                    flat_y(2, 7nat) == 1,
                    flat_z(2, 2nat) == 0,
                    flat_z(2, 3nat) == 0,
                    flat_z(2, 4nat) == 1,
                    flat_z(2, 5nat) == 1,
                    flat_z(2, 6nat) == 1,
                    flat_z(2, 7nat) == 1,
            {}
            assert(child_abs_index(rown, i, 0) == anchor.index_spec());
            assert(child_abs_index(rown, i, 1) == anchor.index_spec() + 1);
            assert(child_abs_index(rown, i, 2) == anchor.index_spec() + rscn);
            assert(child_abs_index(rown, i, 3) == anchor.index_spec() + rscn + 1);
            assert(child_abs_index(rown, i, 4) == anchor.index_spec() + rscn * rscn);
            assert(child_abs_index(rown, i, 5) == anchor.index_spec() + rscn * rscn + 1);
            assert(child_abs_index(rown, i, 6) == anchor.index_spec() + rscn * rscn + rscn);
            assert(child_abs_index(rown, i, 7) == anchor.index_spec() + rscn * rscn + rscn + 1);
        }
        let c0 = anchor;
        let c1 = anchor.add(1);
        let c2 = anchor.add(rsc);
        let c3 = anchor.add(rsc + 1);
        let c4 = anchor.add(sq);
        let c5 = anchor.add(sq + 1);
        let c6 = anchor.add(sq + rsc);
        let c7 = anchor.add(sq + rsc + 1);
        Some([c0, c1, c2, c3, c4, c5, c6, c7])
    }

    /// Returns copies of the 8 child nodes of the cell at `position`, in
    /// child order, or `None` when that cell lies in the finest layer.
    pub fn children(&self, position: NodeIndex) -> (r: Option<Vec<Node<T>>>) where T: Copy
        requires
            self.wf(),
            position.row_spec() == self.row_spec(),
        ensures
            r is Some <==> depth_of(self.row_spec(), position.index_spec()) > 0,
            r is Some ==> r->0@ == children_values(self@, self.row_spec(), position.index_spec()),
    {
        let idxs = match self.children_indices(position) {
            None => {
                return None;
            },
            Some(idxs) => idxs,
        };
        let ghost rown = self.row_spec();
        let ghost i = position.index_spec();
        let mut kids: Vec<Node<T>> = Vec::new();
        let mut k: usize = 0;
        while k < 8
            invariant
                self.wf(),
                position.row_spec() == self.row_spec(),
                depth_of(rown, i) > 0,
                rown == self.row_spec(),
                i == position.index_spec(),
                k <= 8,
                kids@.len() == k,
                forall|j: int|
                    0 <= j < 8 ==> (#[trigger] idxs[j]).row_spec() == rown && idxs[j].index_spec()
                        == child_abs_index(rown, i, j as nat),
                forall|j: int|
                    0 <= j < k ==> kids@[j] == self@[child_abs_index(rown, i, j as nat) as int],
            decreases 8 - k,
        {
            kids.push(*self.get(idxs[k]));
            k = k + 1;
        }
        proof {
            assert(kids@ =~= children_values(self@, rown, i));
        }
        Some(kids)
    }

    /// Builds the tree bottom up: every cell of every layer deeper than the
    /// finest is recomputed, in increasing depth order, as the combine rule's
    /// result on its 8 children (in child order).  The finest layer is the
    /// input and is never touched.
    ///
    /// After the pass, every non-finest cell holds a value that the combine
    /// rule can return for that cell's (final) children, and because each
    /// layer is finished before the next begins, those children values are
    /// themselves already final.
    pub fn build<F: Fn(Vec<Node<T>>) -> Node<T>>(&mut self, combine_rule: F) where T: Copy
        requires
            old(self).wf(),
            forall|v: Vec<Node<T>>| v@.len() == 8 ==> #[trigger] combine_rule.requires((v,)),
        ensures
            final(self).wf(),
            final(self).row_spec() == old(self).row_spec(),
            final(self)@.len() == old(self)@.len(),
            forall|i: int|
                0 <= i < final(self)@.len() && #[trigger] depth_of(old(self).row_spec(), i as nat)
                    == 0 ==> final(self)@[i] == old(self)@[i],
            forall|i: int|
                0 <= i < final(self)@.len() && #[trigger] depth_of(old(self).row_spec(), i as nat)
                    > 0 ==> exists|v: Vec<Node<T>>|
                    #[trigger] combine_rule.ensures((v,), final(self)@[i]) && v@
                        == children_values(final(self)@, old(self).row_spec(), i as nat),
    {
        let ghost rown = old(self).row_spec();
        let row = self.biggest_row();
        let md = tree_depth(row);
        let mut d: usize = 1;
        while d <= md
            invariant
                self.wf(),
                self.row_spec() == rown,
                rown == old(self).row_spec(),
                row as nat == rown,
                self@.len() == old(self)@.len(),
                md as nat == max_depth_index(rown),
                1 <= d <= md + 1,
                forall|v: Vec<Node<T>>| v@.len() == 8 ==> #[trigger] combine_rule.requires((v,)),
                forall|j: int|
                    0 <= j < self@.len() && #[trigger] depth_of(rown, j as nat) == 0 ==> self@[j]
                        == old(self)@[j],
                forall|j: int|
                    0 <= j < self@.len() && #[trigger] depth_of(rown, j as nat) >= d ==> self@[j]
                        == old(self)@[j],
                forall|j: int|
                    0 <= j < self@.len() && 0 < #[trigger] depth_of(rown, j as nat) < d ==> exists|
                        v: Vec<Node<T>>,
                    |
                        #[trigger] combine_rule.ensures((v,), self@[j]) && v@ == children_values(
                            self@,
                            rown,
                            j as nat,
                        ),
            decreases md + 1 - d,
        {
            let start = cum_size_of(row, d);
            let ls = layer_size_of(row, d);
            proof {
                lemma_max_depth_le(rown);
                lemma_total_size_fits(rown);
                assert(cum_size(rown, (d + 1) as nat) == cum_size(rown, d as nat)
                    + layer_size_at(rown, d as nat));
                lemma_cum_size_mono(rown, (d + 1) as nat, (max_depth_index(rown) + 1) as nat);
                assert forall|j: int|
                    0 <= j < self@.len() && (start as int) <= j implies #[trigger] self@[j] == old(
                    self,
                )@[j] by {
                    lemma_depth_of_bounds(rown, j as nat);
                    if depth_of(rown, j as nat) < d as nat {
                        lemma_cum_size_mono(rown, (depth_of(rown, j as nat) + 1) as nat, d as nat);
                    }
                }
                assert forall|j: int|
                    0 <= j < (start as int) && 0 < #[trigger] depth_of(rown, j as nat)
                    implies depth_of(rown, j as nat) < d as nat by {
                    lemma_depth_of_bounds(rown, j as nat);
                    if depth_of(rown, j as nat) >= d as nat {
                        lemma_cum_size_mono(rown, d as nat, depth_of(rown, j as nat));
                    }
                }
            }
            let mut li: usize = 0;
            while li < ls
                invariant
                    self.wf(),
                    self.row_spec() == rown,
                    rown == old(self).row_spec(),
                    row as nat == rown,
                    self@.len() == old(self)@.len(),
                    md as nat == max_depth_index(rown),
                    1 <= d <= md,
                    start as nat == cum_size(rown, d as nat),
                    ls as nat == layer_size_at(rown, d as nat),
                    start + ls <= self@.len(),
                    li <= ls,
                    forall|v: Vec<Node<T>>|
                        v@.len() == 8 ==> #[trigger] combine_rule.requires((v,)),
                    forall|j: int|
                        0 <= j < self@.len() && #[trigger] depth_of(rown, j as nat) == 0
                            ==> self@[j] == old(self)@[j],
                    forall|j: int|
                        start + li <= j < self@.len() ==> #[trigger] self@[j] == old(self)@[j],
                    forall|j: int|
                        0 <= j < start + li && 0 < #[trigger] depth_of(rown, j as nat) ==> exists|
                            v: Vec<Node<T>>,
                        |
                            #[trigger] combine_rule.ensures((v,), self@[j]) && v@
                                == children_values(self@, rown, j as nat),
                decreases ls - li,
            {
                proof {
                    lemma_total_size_fits(rown);
                    assert(cum_size(rown, (d + 1) as nat) == cum_size(rown, d as nat)
                        + layer_size_at(rown, d as nat));
                    lemma_cum_size_mono(rown, (d + 1) as nat, (max_depth_index(rown) + 1) as nat);
                    lemma_depth_of_unique(rown, (start + li) as nat, d as nat);
                }
                let i = start + li;
                let ni = NodeIndex::new(i, row);
                let kids = match self.children(ni) {
                    Some(kids) => kids,
                    None => {
                        proof {
                            assert(false);
                        }
                        return ;
                    },
                };
                let ghost gkids: Vec<Node<T>> = kids;
                let ghost prev = self@;
                let node = combine_rule(kids);
                let _ = self.set(ni, node);
                proof {
                    lemma_child_abs_index(rown, i as nat);
                    assert(children_values(self@, rown, i as nat) =~= children_values(
                        prev,
                        rown,
                        i as nat,
                    ));
                    assert(combine_rule.ensures((gkids,), self@[i as int]));
                    assert(gkids@ == children_values(self@, rown, i as nat));
                    assert forall|j: int|
                        0 <= j < start + li + 1 && 0 < #[trigger] depth_of(rown, j as nat)
                        implies exists|
                        v: Vec<Node<T>>,
                    |
                        #[trigger] combine_rule.ensures((v, ), self@[j]) && v@ == children_values(
                            self@,
                            rown,
                            j as nat,
                        ) by {
                        if j < start + li {
                            lemma_depth_of_bounds(rown, j as nat);
                            lemma_child_abs_index(rown, j as nat);
                            let v = choose|v: Vec<Node<T>>|
                                #[trigger] combine_rule.ensures((v, ), prev[j]) && v@
                                    == children_values(prev, rown, j as nat);
                            assert(children_values(self@, rown, j as nat) =~= children_values(
                                prev,
                                rown,
                                j as nat,
                            ));
                            assert(combine_rule.ensures((v, ), self@[j]));
                        } else {
                            assert(combine_rule.ensures((gkids, ), self@[j]));
                        }
                    }
                }
                li = li + 1;
            }
            proof {
                assert(cum_size(rown, (d + 1) as nat) == cum_size(rown, d as nat) + layer_size_at(
                    rown,
                    d as nat,
                ));
                assert forall|j: int|
                    0 <= j < self@.len() && #[trigger] depth_of(rown, j as nat) >= d + 1
                    implies self@[j] == old(self)@[j] by {
                    lemma_depth_of_bounds(rown, j as nat);
                    lemma_cum_size_mono(rown, (d + 1) as nat, depth_of(rown, j as nat));
                }
                assert forall|j: int|
                    0 <= j < self@.len() && 0 < #[trigger] depth_of(rown, j as nat) < d
                    + 1 implies exists|
                    v: Vec<Node<T>>,
                |
                    #[trigger] combine_rule.ensures((v, ), self@[j]) && v@ == children_values(
                        self@,
                        rown,
                        j as nat,
                    ) by {
                    lemma_depth_of_bounds(rown, j as nat);
                    lemma_cum_size_mono(rown, (depth_of(rown, j as nat) + 1) as nat, (d
                        + 1) as nat);
                }
            }
            d = d + 1;
        }
        proof {
            assert forall|i: int|
                0 <= i < self@.len() && 0 < #[trigger] depth_of(rown, i as nat) implies depth_of(
                rown,
                i as nat,
            ) < d as nat by {
                lemma_depth_of_bounds(rown, i as nat);
            }
        }
    }

    /// Returns the contiguous cells from `start` to `end` (inclusive), for
    /// example one or more whole layers taken from
    /// [`layer_range`](TreeInterface::layer_range).
    pub fn get_range(&self, start: NodeIndex, end: NodeIndex) -> (r: &[Node<T>])
        requires
            self.wf(),
            start.row_spec() == self.row_spec(),
            end.row_spec() == self.row_spec(),
            start.index_spec() <= end.index_spec(),
        ensures
            r@ == self@.subrange(start.index_spec() as int, end.index_spec() as int + 1),
    {
        proof {
            use_type_invariant(&start);
            use_type_invariant(&end);
            lemma_total_size_fits(self.row_spec());
        }
        slice_subrange(self.nodes.as_slice(), start.raw(), end.raw() + 1)
    }

    /// Converts a tree into one of half the biggest row size by dropping the
    /// finest layer and keeping the remaining cells unchanged.
    pub fn from_bigger(value: Tree<T>) -> (r: Tree<T>)
        requires
            value.wf(),
            value.row_spec() >= 2,
        ensures
            r.wf(),
            r.row_spec() == value.row_spec() / 2,
            r@ == value@.subrange(layer_size_at(value.row_spec(), 0) as int, value@.len() as int),
    {
        proof {
            lemma_valid_row_unfold(value.row_spec());
            lemma_total_size_step(value.row_spec());
        }
        let row = value.row;
        let ls0 = layer_size_of(row, 0);
        let mut nodes = value.nodes;
        let tail = nodes.split_off(ls0);
        Tree { nodes: tail, row: row / 2 }
    }
}

} // verus!

verus! {

/// Shape parameters shared by tree-shaped containers: the per-layer row
/// sizes, layer sizes and index ranges of the container's own shape.
pub trait TreeInterface {
    /// Biggest row size of the container's shape, as a mathematical value.
    spec fn shape_row(&self) -> nat;

    /// Returns the row size of the layer at `depth`.
    fn row_size(&self, depth: usize) -> (r: usize)
        requires
            valid_row_size(self.shape_row()),
            depth as nat <= max_depth_index(self.shape_row()),
        ensures
            r as nat == row_size_at(self.shape_row(), depth as nat),
    ;

    /// Returns the row sizes of all layers, from the finest to the deepest.
    fn rows_sizes(&self) -> (r: Vec<usize>)
        requires
            valid_row_size(self.shape_row()),
        ensures
            r@.len() == max_depth_index(self.shape_row()) + 1,
            forall|k: int|
                0 <= k < r@.len() ==> r@[k] as nat == row_size_at(self.shape_row(), k as nat),
    ;

    /// Returns the cell counts of all layers, from the finest to the
    /// deepest.
    fn layers_sizes(&self) -> (r: Vec<usize>)
        requires
            valid_row_size(self.shape_row()),
        ensures
            r@.len() == max_depth_index(self.shape_row()) + 1,
            forall|k: int|
                0 <= k < r@.len() ==> r@[k] as nat == layer_size_at(self.shape_row(), k as nat),
    ;

    /// Returns the cell count of the layer at `depth`.
    fn layer_size(&self, depth: usize) -> (r: usize)
        requires
            valid_row_size(self.shape_row()),
            depth as nat <= max_depth_index(self.shape_row()),
        ensures
            r as nat == layer_size_at(self.shape_row(), depth as nat),
    ;

    /// Returns the inclusive absolute index range of every layer, from the
    /// finest to the deepest.
    fn layers_ranges(&self) -> (r: Vec<(usize, usize)>)
        requires
            valid_row_size(self.shape_row()),
        ensures
            r@.len() == max_depth_index(self.shape_row()) + 1,
            forall|k: int|
                0 <= k < r@.len() ==> (#[trigger] r@[k]).0 as nat == cum_size(
                    self.shape_row(),
                    k as nat,
                ) && r@[k].1 as nat + 1 == cum_size(self.shape_row(), (k + 1) as nat),
    ;

    /// Returns the inclusive absolute index range of the layer at `depth`.
    fn layer_range(&self, depth: usize) -> (r: (usize, usize))
        requires
            valid_row_size(self.shape_row()),
            depth as nat <= max_depth_index(self.shape_row()),
        ensures
            r.0 as nat == cum_size(self.shape_row(), depth as nat),
            r.1 as nat + 1 == cum_size(self.shape_row(), (depth as nat + 1) as nat),
    ;
}

impl<T> TreeInterface for Tree<T> {
    open spec fn shape_row(&self) -> nat {
        self.row_spec()
    }

    fn row_size(&self, depth: usize) -> (r: usize) {
        row_size_of(self.row, depth)
    }

    fn rows_sizes(&self) -> (r: Vec<usize>) {
        let md = tree_depth(self.row);
        let mut v: Vec<usize> = Vec::new();
        let mut k: usize = 0;
        while k <= md
            invariant
                valid_row_size(self.row_spec()),
                md as nat == max_depth_index(self.row_spec()),
                k <= md + 1,
                v@.len() == k,
                forall|j: int|
                    0 <= j < k ==> v@[j] as nat == row_size_at(self.row_spec(), j as nat),
            decreases md + 1 - k,
        {
            let rs = row_size_of(self.row, k);
            v.push(rs);
            proof {
                lemma_max_depth_le(self.row_spec());
            }
            k = k + 1;
        }
        v
    }

    fn layers_sizes(&self) -> (r: Vec<usize>) {
        let md = tree_depth(self.row);
        let mut v: Vec<usize> = Vec::new();
        let mut k: usize = 0;
        while k <= md
            invariant
                valid_row_size(self.row_spec()),
                md as nat == max_depth_index(self.row_spec()),
                k <= md + 1,
                v@.len() == k,
                forall|j: int|
                    0 <= j < k ==> v@[j] as nat == layer_size_at(self.row_spec(), j as nat),
            decreases md + 1 - k,
        {
            let ls = layer_size_of(self.row, k);
            v.push(ls);
            proof {
                lemma_max_depth_le(self.row_spec());
            }
            k = k + 1;
        }
        v
    }

    fn layer_size(&self, depth: usize) -> (r: usize) {
        layer_size_of(self.row, depth)
    }

    fn layers_ranges(&self) -> (r: Vec<(usize, usize)>) {
        let md = tree_depth(self.row);
        let mut v: Vec<(usize, usize)> = Vec::new();
        let mut k: usize = 0;
        while k <= md
            invariant
                valid_row_size(self.row_spec()),
                md as nat == max_depth_index(self.row_spec()),
                k <= md + 1,
                v@.len() == k,
                forall|j: int|
                    0 <= j < k ==> (#[trigger] v@[j]).0 as nat == cum_size(
                        self.row_spec(),
                        j as nat,
                    ) && v@[j].1 as nat + 1 == cum_size(self.row_spec(), (j + 1) as nat),
            decreases md + 1 - k,
        {
            let range = self.layer_range(k);
            v.push(range);
            proof {
                lemma_max_depth_le(self.row_spec());
            }
            k = k + 1;
        }
        v
    }

    fn layer_range(&self, depth: usize) -> (r: (usize, usize)) {
        let start = cum_size_of(self.row, depth);
        let ls = layer_size_of(self.row, depth);
        proof {
            lemma_layer_size_pos(self.row_spec(), depth as nat);
            assert(cum_size(self.row_spec(), (depth as nat + 1) as nat) == cum_size(
                self.row_spec(),
                depth as nat,
            ) + layer_size_at(self.row_spec(), depth as nat));
            lemma_cum_size_mono(
                self.row_spec(),
                (depth as nat + 1) as nat,
                (max_depth_index(self.row_spec()) + 1) as nat,
            );
            lemma_total_size_fits(self.row_spec());
        }
        (start, start + ls - 1)
    }
}

} // verus!
