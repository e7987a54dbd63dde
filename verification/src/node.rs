//! Cell contents ([`Node`]) and the staging buffer ([`NodesRaw`]) used to
//! assemble a tree's initial contents.

use crate::absolute_position::NodeIndex;
use crate::shape::{total_size, total_size_of, valid_row_size};
use vstd::prelude::*;

verus! {

/// Data stored in one cell of a [`Tree`](crate::Tree).
#[derive(Debug, Clone, Copy, PartialEq, Eq, Structural)]
pub enum Node<T> {
    /// Cell whose own data is authoritative.
    Filled(T),
    /// Cell whose descendants are a mix (some non-empty), but which itself
    /// carries no payload.
    Reduced,
    /// Cell all of whose descendants are empty.
    Empty,
}

/// Growable staging buffer for building a [`Tree`](crate::Tree) from data.
///
/// The buffer belongs to one tree shape and never holds more nodes than that
/// shape's total cell count.
#[derive(Debug, Clone, PartialEq)]
pub struct NodesRaw<T> {
    /// Staged nodes, in absolute index order.
    nodes: Vec<Node<T>>,
    /// Biggest row size of the associated tree shape.
    row: usize,
}

impl<T> View for NodesRaw<T> {
    type V = Seq<Node<T>>;

    closed spec fn view(&self) -> Seq<Node<T>> {
        self.nodes@
    }
}

impl<T> NodesRaw<T> {
    /// The biggest row size of the associated shape, as a mathematical value.
    pub closed spec fn row_spec(self) -> nat {
        self.row as nat
    }

    /// Well-formedness: the shape is valid and the buffer never exceeds the
    /// shape's total cell count.
    pub open spec fn wf(self) -> bool {
        &&& valid_row_size(self.row_spec())
        &&& self@.len() <= total_size(self.row_spec())
    }

    /// Creates a new empty buffer for the shape with the given biggest row
    /// size.
    pub fn new(biggest_row: usize) -> (r: Self)
        requires
            valid_row_size(biggest_row as nat),
        ensures
            r.wf(),
            r.row_spec() == biggest_row,
            r@ =~= Seq::<Node<T>>::empty(),
    {
        Self { nodes: Vec::new(), row: biggest_row }
    }

    /// Creates a buffer from a node sequence for the shape with the given
    /// biggest row size.  Nodes beyond the shape's total cell count are
    /// trimmed.
    pub fn from_vec(nodes: Vec<Node<T>>, biggest_row: usize) -> (r: Self)
        requires
            valid_row_size(biggest_row as nat),
        ensures
            r.wf(),
            r.row_spec() == biggest_row,
            nodes@.len() <= total_size(biggest_row as nat) ==> r@ == nodes@,
            nodes@.len() > total_size(biggest_row as nat) ==> r@ == nodes@.subrange(
                0,
                total_size(biggest_row as nat) as int,
            ),
    {
        let total = total_size_of(biggest_row);
        let mut nodes = nodes;
        if nodes.len() > total {
            nodes.truncate(total);
        }
        Self { nodes, row: biggest_row }
    }

    /// Returns the biggest row size of the associated tree shape.
    pub fn biggest_row(&self) -> (r: usize)
        ensures
            r == self.row_spec(),
    {
        self.row
    }

    /// Appends a node to the back of the buffer, which must not yet be
    /// filled.
    pub fn push(&mut self, node: Node<T>)
        requires
            old(self).wf(),
            old(self)@.len() < total_size(old(self).row_spec()),
        ensures
            final(self).wf(),
            final(self).row_spec() == old(self).row_spec(),
            final(self)@ == old(self)@.push(node),
    {
        self.nodes.push(node)
    }

    /// Returns a reference to the staged nodes.
    pub fn get(&self) -> (r: &Vec<Node<T>>)
        ensures
            r@ == self@,
    {
        &self.nodes
    }

    /// Returns `true` exactly when the buffer holds as many nodes as the
    /// shape's total cell count.
    pub fn is_filled(&self) -> (r: bool)
        requires
            self.wf(),
        ensures
            r == (self@.len() == total_size(self.row_spec())),
    {
        let total = total_size_of(self.row);
        self.nodes.len() == total
    }

    /// Returns the number of staged nodes.
    pub fn len(&self) -> (r: usize)
        ensures
            r == self@.len(),
    {
        self.nodes.len()
    }

    /// Returns `true` exactly when the buffer holds no nodes.
    pub fn is_empty(&self) -> (r: bool)
        ensures
            r == (self@.len() == 0),
    {
        self.len() == 0
    }

    /// Replaces the node at `index` with the provided one and returns the
    /// node previously stored there.
    pub fn set(&mut self, index: NodeIndex, value: Node<T>) -> (r: Node<T>)
        requires
            old(self).wf(),
            index.row_spec() == old(self).row_spec(),
            index.index_spec() < old(self)@.len(),
        ensures
            final(self).wf(),
            final(self).row_spec() == old(self).row_spec(),
            final(self)@ == old(self)@.update(index.index_spec() as int, value),
            r == old(self)@[index.index_spec() as int],
    {
        let mut value = value;
        let i = index.raw();
        core::mem::swap(&mut self.nodes[i], &mut value);
        value
    }

    /// Consumes the buffer and returns the staged nodes.
    pub fn into_vec(self) -> (r: Vec<Node<T>>)
        ensures
            r@ == self@,
    {
        self.nodes
    }
}

} // verus!
