//! A cursor over the cells of one layer of a [`Tree`](crate::Tree).
//!
//! Layers are contiguous in the flat storage, so iterating one layer is
//! walking an absolute index range.  The cursor borrows nothing: it yields
//! [`NodeIndex`] values, and the caller reads cells through the tree's own
//! accessors.

use crate::absolute_position::NodeIndex;
use crate::shape::{
    cum_size, cum_size_of, layer_size_at, layer_size_of, lemma_cum_size_mono,
    lemma_total_size_fits, max_depth_index, total_size, valid_row_size,
};
use crate::tree::Tree;
use vstd::prelude::*;

verus! {

/// Cursor over the absolute indices of all cells of one layer, in
/// increasing index order.
#[derive(Debug, Clone, Copy, PartialEq, Eq, Structural)]
pub struct LayerIter {
    /// Absolute index of the next cell to yield.
    next: usize,
    /// First absolute index past the layer.
    end: usize,
    /// Biggest row size of the associated tree shape.
    row: usize,
}

impl LayerIter {
    /// The next absolute index, as a mathematical value.
    pub closed spec fn next_spec(self) -> nat {
        self.next as nat
    }

    /// The first absolute index past the layer, as a mathematical value.
    pub closed spec fn end_spec(self) -> nat {
        self.end as nat
    }

    /// The biggest row size of the associated shape, as a mathematical value.
    pub closed spec fn row_spec(self) -> nat {
        self.row as nat
    }

    /// Well-formedness: the remaining range lies inside the shape.
    pub open spec fn wf(self) -> bool {
        &&& valid_row_size(self.row_spec())
        &&& self.next_spec() <= self.end_spec()
        &&& self.end_spec() <= total_size(self.row_spec())
    }

    /// Creates a cursor over every cell of the layer of `tree` at `depth`.
    pub fn from_tree<T>(tree: &Tree<T>, depth: usize) -> (r: LayerIter)
        requires
            tree.wf(),
            depth as nat <= max_depth_index(tree.row_spec()),
        ensures
            r.wf(),
            r.row_spec() == tree.row_spec(),
            r.next_spec() == cum_size(tree.row_spec(), depth as nat),
            r.end_spec() == cum_size(tree.row_spec(), (depth as nat + 1) as nat),
    {
        let row = tree.biggest_row();
        let start = cum_size_of(row, depth);
        let ls = layer_size_of(row, depth);
        proof {
            assert(cum_size(row as nat, (depth as nat + 1) as nat) == cum_size(
                row as nat,
                depth as nat,
            ) + layer_size_at(row as nat, depth as nat));
            lemma_cum_size_mono(
                row as nat,
                (depth as nat + 1) as nat,
                (max_depth_index(row as nat) + 1) as nat,
            );
            lemma_total_size_fits(row as nat);
        }
        LayerIter { next: start, end: start + ls, row }
    }

    /// Yields the absolute index of the next cell of the layer, or `None`
    /// once the layer is exhausted.
    pub fn next_index(&mut self) -> (r: Option<NodeIndex>)
        requires
            old(self).wf(),
        ensures
            final(self).wf(),
            final(self).row_spec() == old(self).row_spec(),
            final(self).end_spec() == old(self).end_spec(),
            r is Some <==> old(self).next_spec() < old(self).end_spec(),
            r is Some ==> r->0.row_spec() == old(self).row_spec() && r->0.index_spec() == old(
                self,
            ).next_spec() && final(self).next_spec() == old(self).next_spec() + 1,
            r is None ==> final(self).next_spec() == old(self).next_spec(),
    {
        if self.next >= self.end {
            return None;
        }
        let i = NodeIndex::new(self.next, self.row);
        self.next = self.next + 1;
        Some(i)
    }
}

} // verus!
