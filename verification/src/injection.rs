//! What putting one extra node on a path yields.

use vstd::prelude::*;
use crate::adjacency::prev_of;
use crate::growth::one_zero;
use crate::growth::placed;
use crate::growth::splits;
use crate::node::Node;
use crate::node::is_zero;
use crate::order::lemma_within_insert;
use crate::order::lemma_within_self;
use crate::order::within;

verus! {

/// `after` is what putting a node on the edge that ends in node `index` may
/// make of the path `before`.
///
/// The new node goes directly before node `index`, or to the very end where
/// that edge is the closing edge of a cyclic path. A node in which no edge
/// ends leaves the path as it is.
pub open spec fn injects_at<V: Default, M: Fn(V, V) -> V>(
    midpoint: M,
    before: Seq<Node<V>>,
    cyclic: bool,
    index: int,
    after: Seq<Node<V>>,
) -> bool {
    match prev_of(before.len() as int, cyclic, index) {
        None => after == before,
        Some(p) => if index == 0 {
            &&& after.len() == before.len() + 1
            &&& splits(midpoint, before[p], before[0], after.last())
            &&& after == before.push(after.last())
        } else {
            &&& after.len() == before.len() + 1
            &&& splits(midpoint, before[p], before[index], after[index])
            &&& after == before.insert(index, after[index])
        },
    }
}

/// `after` is what a random injection may make of the path `before`.
///
/// Nothing happens to a path of fewer than three nodes, and nothing where
/// `chance` rejects the ticket drawn. Otherwise one node is put on the edge
/// that ends in some inner node: never in the first node and never in the
/// last.
pub open spec fn injects<V: Default, C: Fn(u64) -> bool, M: Fn(V, V) -> V>(
    chance: C,
    midpoint: M,
    before: Seq<Node<V>>,
    cyclic: bool,
    after: Seq<Node<V>>,
) -> bool {
    ||| {
        &&& before.len() < 3 || exists|ticket: u64| #[trigger] call_ensures(chance, (ticket,), false)
        &&& after == before
    }
    ||| {
        &&& before.len() >= 3
        &&& exists|ticket: u64| #[trigger] call_ensures(chance, (ticket,), true)
        &&& exists|index: int|
            1 <= index <= before.len() - 2 && #[trigger] injects_at(midpoint, before, cyclic, index, after)
    }
}

/// **A random injection adds at most one node, before an inner node, and
/// never touches the ends**: where the path changes, the new node stands at
/// an index from 1 to the length less 2; the first and the last node of the
/// path stay where they were; and a path of fewer than three nodes stays as
/// it was.
pub proof fn lemma_inject_spares_ends<V: Default, C: Fn(u64) -> bool, M: Fn(V, V) -> V>(
    chance: C,
    midpoint: M,
    before: Seq<Node<V>>,
    cyclic: bool,
    after: Seq<Node<V>>,
)
    requires
        injects(chance, midpoint, before, cyclic, after),
    ensures
        before.len() <= after.len() <= before.len() + 1,
        before.len() < 3 ==> after == before,
        before.len() >= 1 ==> after[0] == before[0] && after.last() == before.last(),
        after != before ==> exists|index: int|
            1 <= index <= before.len() - 2 && after == #[trigger] before.insert(index, after[index]),
{
    if after != before {
        let index = choose|index: int|
            1 <= index <= before.len() - 2 && #[trigger] injects_at(midpoint, before, cyclic, index, after);
        assert(after == before.insert(index, after[index]));
    }
}

/// **Putting a node on a given edge is a function of its inputs**: where the
/// midpoint is placed in one spot only and there is one zero vector only,
/// the path has exactly one outcome.
pub proof fn lemma_inject_at_unique<V: Default, M: Fn(V, V) -> V>(
    midpoint: M,
    before: Seq<Node<V>>,
    cyclic: bool,
    index: int,
    one: Seq<Node<V>>,
    other: Seq<Node<V>>,
)
    requires
        0 <= index < before.len(),
        placed(midpoint),
        one_zero::<V>(),
        injects_at(midpoint, before, cyclic, index, one),
        injects_at(midpoint, before, cyclic, index, other),
    ensures
        one == other,
{
    if prev_of(before.len() as int, cyclic, index) is Some {
        let at = if index == 0 {
            before.len() as int
        } else {
            index
        };
        assert(is_zero(one[at].velocity) && is_zero(other[at].velocity));
        assert(is_zero(one[at].acceleration) && is_zero(other[at].acceleration));
        assert(one[at] == other[at]);
    }
}

/// **Injection keeps every node, in order**: the nodes that a path held
/// before a random injection are all there after it, in the order they had.
pub proof fn lemma_inject_keeps_nodes<V: Default, C: Fn(u64) -> bool, M: Fn(V, V) -> V>(
    chance: C,
    midpoint: M,
    before: Seq<Node<V>>,
    cyclic: bool,
    after: Seq<Node<V>>,
)
    requires
        injects(chance, midpoint, before, cyclic, after),
    ensures
        within(before, after),
{
    lemma_within_self(before);
    if after != before {
        let index = choose|index: int|
            1 <= index <= before.len() - 2 && #[trigger] injects_at(midpoint, before, cyclic, index, after);
        lemma_within_insert(before, before, index, after[index]);
    }
}

} // verus!
