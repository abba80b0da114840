//! Which pairs of nodes a renderer joins by a stroke.

use vstd::prelude::*;
use crate::adjacency::prev_index;
use crate::adjacency::prev_of;

verus! {

/// The edges that end in the first `count` nodes of a path of `len` nodes,
/// each as the pair of its predecessor's index and its own, in path order.
pub open spec fn edges_upto(len: int, cyclic: bool, count: int) -> Seq<(usize, usize)>
    decreases count,
{
    if count <= 0 {
        Seq::empty()
    } else {
        match prev_of(len, cyclic, count - 1) {
            Some(p) => edges_upto(len, cyclic, count - 1).push((p as usize, (count - 1) as usize)),
            None => edges_upto(len, cyclic, count - 1),
        }
    }
}

/// The edges of a path of `len` nodes, each as the pair of the indices that
/// it joins: consecutive nodes and, on a cyclic path, the last and the first.
pub fn segments(len: usize, cyclic: bool) -> (edges: Vec<(usize, usize)>)
    ensures
        edges@ == edges_upto(len as int, cyclic, len as int),
{
    let mut edges: Vec<(usize, usize)> = Vec::new();
    let mut index: usize = 0;
    while index < len
        invariant
            index <= len,
            edges@ == edges_upto(len as int, cyclic, index as int),
        decreases len - index,
    {
        match prev_index(len, cyclic, index) {
            Some(prev) => {
                edges.push((prev, index));
            },
            None => {},
        }
        index = index + 1;
    }
    edges
}

/// **A path has as many edges as its wraparound allows**: none with fewer
/// than two nodes, one for every node if it is cyclic, one fewer if it is
/// open.
pub proof fn lemma_edge_count(len: int, cyclic: bool, count: int)
    requires
        0 <= count <= len,
    ensures
        edges_upto(len, cyclic, count).len() == if count == 0 {
            0
        } else if cyclic && len >= 2 {
            count
        } else {
            count - 1
        },
    decreases count,
{
    if count > 0 {
        lemma_edge_count(len, cyclic, count - 1);
    }
}

} // verus!
