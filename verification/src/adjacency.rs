//! Which nodes of a path are neighbours.
//!
//! Adjacency is index arithmetic: the neighbours of a node are the nodes
//! before and after it in the sequence, and on a cyclic path the two ends are
//! neighbours of each other.

use vstd::prelude::*;
use crate::node::Node;

verus! {

/// Index of the neighbour before `index` on a path of `len` nodes.
///
/// On a cyclic path of at least two nodes the first node's predecessor is the
/// last node. Paths of fewer than two nodes have no neighbours at all.
pub open spec fn prev_of(len: int, cyclic: bool, index: int) -> Option<int> {
    if 0 < index < len {
        Some(index - 1)
    } else if index == 0 && cyclic && len >= 2 {
        Some(len - 1)
    } else {
        None
    }
}

/// Index of the neighbour after `index` on a path of `len` nodes.
///
/// On a cyclic path of at least two nodes the last node's successor is the
/// first node.
pub open spec fn next_of(len: int, cyclic: bool, index: int) -> Option<int> {
    if 0 <= index && index + 1 < len {
        Some(index + 1)
    } else if index + 1 == len && cyclic && len >= 2 {
        Some(0)
    } else {
        None
    }
}

/// **Neighbourhood is mutual**: where a node has a predecessor, it is that
/// node's successor, and where it has a successor, it is that node's
/// predecessor.
pub proof fn lemma_neighbors_mutual(len: int, cyclic: bool, index: int)
    requires
        0 <= index < len,
    ensures
        prev_of(len, cyclic, index) matches Some(p) ==> 0 <= p < len && next_of(len, cyclic, p) == Some(index),
        next_of(len, cyclic, index) matches Some(q) ==> 0 <= q < len && prev_of(len, cyclic, q) == Some(index),
{
}

/// **Only the ends of an open path lack a neighbour**: on a path of at
/// least two nodes every node has a predecessor but the first of an open
/// path, and a successor but the last of an open path. On a cyclic path of
/// exactly two nodes both neighbours of a node are the other node. A path of
/// fewer than two nodes has no neighbours.
pub proof fn lemma_neighbors_exist(len: int, cyclic: bool, index: int)
    requires
        0 <= index < len,
    ensures
        len >= 2 ==> (prev_of(len, cyclic, index) is None <==> !cyclic && index == 0),
        len >= 2 ==> (next_of(len, cyclic, index) is None <==> !cyclic && index == len - 1),
        len == 2 && cyclic ==> prev_of(len, cyclic, index) == Some(1 - index) && next_of(len, cyclic, index)
            == Some(1 - index),
        len < 2 ==> prev_of(len, cyclic, index) is None && next_of(len, cyclic, index) is None,
{
}

/// The node of `nodes` at the index that `pick` gives, if it gives one.
pub open spec fn node_at<V>(nodes: Seq<Node<V>>, pick: Option<int>) -> Option<Node<V>> {
    match pick {
        Some(i) => Some(nodes[i]),
        None => None,
    }
}

/// Executable form of [`prev_of`].
pub fn prev_index(len: usize, cyclic: bool, index: usize) -> (prev: Option<usize>)
    requires
        index < len,
    ensures
        prev matches Some(p) ==> prev_of(len as int, cyclic, index as int) == Some(p as int) && p < len,
        prev is None ==> prev_of(len as int, cyclic, index as int) is None,
{
    if index > 0 {
        Some(index - 1)
    } else if cyclic && len >= 2 {
        Some(len - 1)
    } else {
        None
    }
}

/// Executable form of [`next_of`].
pub fn next_index(len: usize, cyclic: bool, index: usize) -> (next: Option<usize>)
    requires
        index < len,
    ensures
        next matches Some(p) ==> next_of(len as int, cyclic, index as int) == Some(p as int) && p < len,
        next is None ==> next_of(len as int, cyclic, index as int) is None,
{
    if index < len - 1 {
        Some(index + 1)
    } else if cyclic && len >= 2 {
        Some(0)
    } else {
        None
    }
}

} // verus!
