//! What one tick makes of a path: the four phases, in their fixed order.

use vstd::prelude::*;
use crate::growth::grows_to;
use crate::growth::lemma_grow_only_adds;
use crate::injection::injects;
use crate::injection::lemma_inject_spares_ends;
use crate::motion::lemma_round_spares_frozen;
use crate::motion::moves_to;
use crate::node::Node;
use crate::pruning::lemma_prune_only_removes;
use crate::pruning::prunes_to;

verus! {

/// The states that a path goes through in one tick: `before`, then `moved`
/// by a round of forces, then `grown`, then `pruned`, then `after` a random
/// injection.
pub open spec fn phases<
    V: Default,
    I,
    A: Fn(Node<V>, Node<V>, Node<V>) -> Node<V>,
    S: Fn(Node<V>, &I) -> Node<V>,
    G: Fn(Node<V>) -> Node<V>,
    C: Fn(V) -> bool,
    L: Fn(V, V) -> bool,
    T: Fn(V, V) -> bool,
    M: Fn(V, V) -> V,
    R: Fn(u64) -> bool,
>(
    align: A,
    avoid: S,
    integrate: G,
    contains: C,
    exceeds: L,
    too_short: T,
    midpoint: M,
    chance: R,
    index: &I,
    cyclic: bool,
    before: Seq<Node<V>>,
    moved: Seq<Node<V>>,
    grown: Seq<Node<V>>,
    pruned: Seq<Node<V>>,
    after: Seq<Node<V>>,
) -> bool {
    &&& moves_to(align, avoid, integrate, contains, index, before, cyclic, moved)
    &&& grows_to(exceeds, midpoint, moved, cyclic, grown)
    &&& prunes_to(too_short, grown, cyclic, pruned)
    &&& injects(chance, midpoint, pruned, cyclic, after)
}

/// `after` is what one tick may make of the path `before`: a round of
/// forces, a growth pass, a pruning pass and a random injection, in that
/// order.
pub open spec fn updates_to<
    V: Default,
    I,
    A: Fn(Node<V>, Node<V>, Node<V>) -> Node<V>,
    S: Fn(Node<V>, &I) -> Node<V>,
    G: Fn(Node<V>) -> Node<V>,
    C: Fn(V) -> bool,
    L: Fn(V, V) -> bool,
    T: Fn(V, V) -> bool,
    M: Fn(V, V) -> V,
    R: Fn(u64) -> bool,
>(
    align: A,
    avoid: S,
    integrate: G,
    contains: C,
    exceeds: L,
    too_short: T,
    midpoint: M,
    chance: R,
    index: &I,
    cyclic: bool,
    before: Seq<Node<V>>,
    after: Seq<Node<V>>,
) -> bool {
    exists|moved: Seq<Node<V>>, grown: Seq<Node<V>>, pruned: Seq<Node<V>>| #[trigger]
        phases(
            align,
            avoid,
            integrate,
            contains,
            exceeds,
            too_short,
            midpoint,
            chance,
            index,
            cyclic,
            before,
            moved,
            grown,
            pruned,
            after,
        )
}

/// **A tick changes the length of a path within bounds**: the path comes out
/// at most twice as long plus one node and at least half as long, rounded
/// down. A path that had a node keeps at least one, and an empty path stays
/// empty.
pub proof fn lemma_update_bounds<
    V: Default,
    I,
    A: Fn(Node<V>, Node<V>, Node<V>) -> Node<V>,
    S: Fn(Node<V>, &I) -> Node<V>,
    G: Fn(Node<V>) -> Node<V>,
    C: Fn(V) -> bool,
    L: Fn(V, V) -> bool,
    T: Fn(V, V) -> bool,
    M: Fn(V, V) -> V,
    R: Fn(u64) -> bool,
>(
    align: A,
    avoid: S,
    integrate: G,
    contains: C,
    exceeds: L,
    too_short: T,
    midpoint: M,
    chance: R,
    index: &I,
    cyclic: bool,
    before: Seq<Node<V>>,
    after: Seq<Node<V>>,
)
    requires
        updates_to(
            align,
            avoid,
            integrate,
            contains,
            exceeds,
            too_short,
            midpoint,
            chance,
            index,
            cyclic,
            before,
            after,
        ),
    ensures
        after.len() <= 2 * before.len() + 1,
        before.len() <= 2 * after.len() + 1,
        before.len() >= 1 ==> after.len() >= 1,
        before.len() == 0 ==> after.len() == 0,
{
    let (moved, grown, pruned) = choose|moved: Seq<Node<V>>, grown: Seq<Node<V>>, pruned: Seq<Node<V>>| #[trigger]
        phases(
            align,
            avoid,
            integrate,
            contains,
            exceeds,
            too_short,
            midpoint,
            chance,
            index,
            cyclic,
            before,
            moved,
            grown,
            pruned,
            after,
        );
    lemma_round_spares_frozen(align, avoid, integrate, contains, index, before, cyclic, moved);
    lemma_grow_only_adds(exceeds, midpoint, moved, cyclic, grown);
    lemma_prune_only_removes(too_short, grown, cyclic, pruned);
    lemma_inject_spares_ends(chance, midpoint, pruned, cyclic, after);
}

} // verus!
