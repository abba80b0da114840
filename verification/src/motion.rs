//! What one round of forces and integration makes of the nodes of a path.
//!
//! The nodes are taken in path order. A frozen node is left as it is. A free
//! node is steered towards the middle of its two path neighbours, if it has
//! both; it is pushed away from the points that the spatial index knows; it is
//! integrated; and it is frozen if it has then left the bounds. Each node
//! sees its neighbours as they are at that moment: the one before it has
//! moved already, the one after it has not.

use vstd::prelude::*;
use crate::adjacency::next_of;
use crate::adjacency::node_at;
use crate::adjacency::prev_of;
use crate::node::Node;

verus! {

/// `steered` is what alignment may make of `node`: the answer of `align`
/// where the node has both neighbours, the node itself where one is missing.
pub open spec fn aligns_to<V, A: Fn(Node<V>, Node<V>, Node<V>) -> Node<V>>(
    align: A,
    node: Node<V>,
    prev: Option<Node<V>>,
    next: Option<Node<V>>,
    steered: Node<V>,
) -> bool {
    match (prev, next) {
        (Some(p), Some(q)) => call_ensures(align, (node, p, q), steered),
        _ => steered == node,
    }
}

/// `out` is what the bounds test may make of `moved`: the node itself where
/// `contains` holds its position, the node frozen where it does not.
pub open spec fn settles_to<V, C: Fn(V) -> bool>(contains: C, moved: Node<V>, out: Node<V>) -> bool {
    ||| call_ensures(contains, (moved.position,), true) && out == moved
    ||| call_ensures(contains, (moved.position,), false) && out == moved.freeze()
}

/// The stages that lead a free `node` to `out`: aligned to `steered`, pushed
/// apart to `pushed`, integrated to `moved`, tested against the bounds.
pub open spec fn stages<
    V,
    I,
    A: Fn(Node<V>, Node<V>, Node<V>) -> Node<V>,
    S: Fn(Node<V>, &I) -> Node<V>,
    G: Fn(Node<V>) -> Node<V>,
    C: Fn(V) -> bool,
>(
    align: A,
    avoid: S,
    integrate: G,
    contains: C,
    index: &I,
    node: Node<V>,
    prev: Option<Node<V>>,
    next: Option<Node<V>>,
    steered: Node<V>,
    pushed: Node<V>,
    moved: Node<V>,
    out: Node<V>,
) -> bool {
    &&& aligns_to(align, node, prev, next, steered)
    &&& call_ensures(avoid, (steered, index), pushed)
    &&& call_ensures(integrate, (pushed,), moved)
    &&& settles_to(contains, moved, out)
}

/// `out` is what one step may make of `node` between the neighbours `prev`
/// and `next`.
pub open spec fn steps_to<
    V,
    I,
    A: Fn(Node<V>, Node<V>, Node<V>) -> Node<V>,
    S: Fn(Node<V>, &I) -> Node<V>,
    G: Fn(Node<V>) -> Node<V>,
    C: Fn(V) -> bool,
>(
    align: A,
    avoid: S,
    integrate: G,
    contains: C,
    index: &I,
    node: Node<V>,
    prev: Option<Node<V>>,
    next: Option<Node<V>>,
    out: Node<V>,
) -> bool {
    if node.fixed {
        out == node
    } else {
        exists|steered: Node<V>, pushed: Node<V>, moved: Node<V>| #[trigger]
            stages(align, avoid, integrate, contains, index, node, prev, next, steered, pushed, moved, out)
    }
}

/// `after` is what the path may look like once the first `count` nodes of
/// `before` have taken their step, in order.
pub open spec fn passes<
    V,
    I,
    A: Fn(Node<V>, Node<V>, Node<V>) -> Node<V>,
    S: Fn(Node<V>, &I) -> Node<V>,
    G: Fn(Node<V>) -> Node<V>,
    C: Fn(V) -> bool,
>(
    align: A,
    avoid: S,
    integrate: G,
    contains: C,
    index: &I,
    before: Seq<Node<V>>,
    cyclic: bool,
    count: int,
    after: Seq<Node<V>>,
) -> bool
    decreases count,
{
    if count <= 0 {
        after == before
    } else {
        let at = count - 1;
        let earlier = after.update(at, before[at]);
        &&& after.len() == before.len()
        &&& passes(align, avoid, integrate, contains, index, before, cyclic, at, earlier)
        &&& steps_to(
            align,
            avoid,
            integrate,
            contains,
            index,
            before[at],
            node_at(earlier, prev_of(before.len() as int, cyclic, at)),
            node_at(earlier, next_of(before.len() as int, cyclic, at)),
            after[at],
        )
    }
}

/// `after` is what one round may make of the path `before`: every node has
/// taken its step.
pub open spec fn moves_to<
    V,
    I,
    A: Fn(Node<V>, Node<V>, Node<V>) -> Node<V>,
    S: Fn(Node<V>, &I) -> Node<V>,
    G: Fn(Node<V>) -> Node<V>,
    C: Fn(V) -> bool,
>(
    align: A,
    avoid: S,
    integrate: G,
    contains: C,
    index: &I,
    before: Seq<Node<V>>,
    cyclic: bool,
    after: Seq<Node<V>>,
) -> bool {
    passes(align, avoid, integrate, contains, index, before, cyclic, before.len() as int, after)
}

/// While a round is under way the nodes that have not had their turn are as
/// they were, and so is every frozen node that has had it.
pub proof fn lemma_passes_frame<
    V,
    I,
    A: Fn(Node<V>, Node<V>, Node<V>) -> Node<V>,
    S: Fn(Node<V>, &I) -> Node<V>,
    G: Fn(Node<V>) -> Node<V>,
    C: Fn(V) -> bool,
>(
    align: A,
    avoid: S,
    integrate: G,
    contains: C,
    index: &I,
    before: Seq<Node<V>>,
    cyclic: bool,
    count: int,
    after: Seq<Node<V>>,
)
    requires
        0 <= count <= before.len(),
        passes(align, avoid, integrate, contains, index, before, cyclic, count, after),
    ensures
        after.len() == before.len(),
        forall|k: int| count <= k < before.len() ==> after[k] == before[k],
        forall|k: int| 0 <= k < count && before[k].fixed ==> after[k] == before[k],
    decreases count,
{
    if count > 0 {
        let at = count - 1;
        let earlier = after.update(at, before[at]);
        lemma_passes_frame(align, avoid, integrate, contains, index, before, cyclic, at, earlier);
        assert forall|k: int| count <= k < before.len() implies after[k] == before[k] by {
            assert(after[k] == earlier[k]);
        }
        assert forall|k: int| 0 <= k < count && before[k].fixed implies after[k] == before[k] by {
            if k < at {
                assert(after[k] == earlier[k]);
            }
        }
    }
}

/// **Frozen nodes stay put**: a round of forces changes neither the number of
/// nodes nor any node that was frozen when the round began. In particular a
/// frozen node stays frozen.
pub proof fn lemma_round_spares_frozen<
    V,
    I,
    A: Fn(Node<V>, Node<V>, Node<V>) -> Node<V>,
    S: Fn(Node<V>, &I) -> Node<V>,
    G: Fn(Node<V>) -> Node<V>,
    C: Fn(V) -> bool,
>(
    align: A,
    avoid: S,
    integrate: G,
    contains: C,
    index: &I,
    before: Seq<Node<V>>,
    cyclic: bool,
    after: Seq<Node<V>>,
)
    requires
        moves_to(align, avoid, integrate, contains, index, before, cyclic, after),
    ensures
        after.len() == before.len(),
        forall|k: int| 0 <= k < before.len() && before[k].fixed ==> after[k] == before[k],
{
    lemma_passes_frame(align, avoid, integrate, contains, index, before, cyclic, before.len() as int, after);
}

/// The forces and the bounds answer in one way only: `align`, `avoid` with
/// `index` and `integrate` each make one node of what they are given, and
/// `contains` says either yes or no of a position.
pub open spec fn steady<
    V,
    I,
    A: Fn(Node<V>, Node<V>, Node<V>) -> Node<V>,
    S: Fn(Node<V>, &I) -> Node<V>,
    G: Fn(Node<V>) -> Node<V>,
    C: Fn(V) -> bool,
>(align: A, avoid: S, integrate: G, contains: C, index: &I) -> bool {
    &&& forall|n: Node<V>, p: Node<V>, q: Node<V>, one: Node<V>, other: Node<V>|
        #[trigger] call_ensures(align, (n, p, q), one) && #[trigger] call_ensures(align, (n, p, q), other) ==> one
            == other
    &&& forall|n: Node<V>, one: Node<V>, other: Node<V>|
        #[trigger] call_ensures(avoid, (n, index), one) && #[trigger] call_ensures(avoid, (n, index), other) ==> one
            == other
    &&& forall|n: Node<V>, one: Node<V>, other: Node<V>|
        #[trigger] call_ensures(integrate, (n,), one) && #[trigger] call_ensures(integrate, (n,), other) ==> one
            == other
    &&& forall|v: V| !(#[trigger] call_ensures(contains, (v,), true) && #[trigger] call_ensures(contains, (v,), false))
}

/// Where the forces and the bounds answer in one way only, a node takes its
/// step in one way only.
pub proof fn lemma_step_unique<
    V,
    I,
    A: Fn(Node<V>, Node<V>, Node<V>) -> Node<V>,
    S: Fn(Node<V>, &I) -> Node<V>,
    G: Fn(Node<V>) -> Node<V>,
    C: Fn(V) -> bool,
>(
    align: A,
    avoid: S,
    integrate: G,
    contains: C,
    index: &I,
    node: Node<V>,
    prev: Option<Node<V>>,
    next: Option<Node<V>>,
    one: Node<V>,
    other: Node<V>,
)
    requires
        steady(align, avoid, integrate, contains, index),
        steps_to(align, avoid, integrate, contains, index, node, prev, next, one),
        steps_to(align, avoid, integrate, contains, index, node, prev, next, other),
    ensures
        one == other,
{
    if !node.fixed {
        let (steered_one, pushed_one, moved_one) = choose|steered: Node<V>, pushed: Node<V>, moved: Node<V>| #[trigger]
            stages(align, avoid, integrate, contains, index, node, prev, next, steered, pushed, moved, one);
        let (steered_other, pushed_other, moved_other) = choose|steered: Node<V>, pushed: Node<V>, moved: Node<V>| #[trigger]
            stages(align, avoid, integrate, contains, index, node, prev, next, steered, pushed, moved, other);
        assert(steered_one == steered_other);
        assert(pushed_one == pushed_other);
        assert(moved_one == moved_other);
    }
}

/// **A round of forces is a function of its inputs**: where the forces and
/// the bounds answer in one way only, the first `count` nodes of a path take
/// their steps in one way only.
pub proof fn lemma_round_unique<
    V,
    I,
    A: Fn(Node<V>, Node<V>, Node<V>) -> Node<V>,
    S: Fn(Node<V>, &I) -> Node<V>,
    G: Fn(Node<V>) -> Node<V>,
    C: Fn(V) -> bool,
>(
    align: A,
    avoid: S,
    integrate: G,
    contains: C,
    index: &I,
    before: Seq<Node<V>>,
    cyclic: bool,
    count: int,
    one: Seq<Node<V>>,
    other: Seq<Node<V>>,
)
    requires
        0 <= count <= before.len(),
        steady(align, avoid, integrate, contains, index),
        passes(align, avoid, integrate, contains, index, before, cyclic, count, one),
        passes(align, avoid, integrate, contains, index, before, cyclic, count, other),
    ensures
        one == other,
    decreases count,
{
    if count > 0 {
        let at = count - 1;
        let earlier = one.update(at, before[at]);
        lemma_round_unique(
            align,
            avoid,
            integrate,
            contains,
            index,
            before,
            cyclic,
            at,
            earlier,
            other.update(at, before[at]),
        );
        lemma_step_unique(
            align,
            avoid,
            integrate,
            contains,
            index,
            before[at],
            node_at(earlier, prev_of(before.len() as int, cyclic, at)),
            node_at(earlier, next_of(before.len() as int, cyclic, at)),
            one[at],
            other[at],
        );
        assert(one =~= other) by {
            assert forall|k: int| 0 <= k < one.len() implies one[k] == other[k] by {
                if k != at {
                    assert(one[k] == one.update(at, before[at])[k]);
                    assert(other[k] == other.update(at, before[at])[k]);
                }
            }
        }
    }
}

impl<V: Copy + Default> Node<V> {
    /// One step of this node between its path neighbours.
    ///
    /// A frozen node comes back as it is. A free node is aligned if it has
    /// both neighbours, pushed apart from the points in `index`, integrated,
    /// and frozen if `contains` does not hold its new position.
    pub fn advance<
        I,
        A: Fn(Node<V>, Node<V>, Node<V>) -> Node<V>,
        S: Fn(Node<V>, &I) -> Node<V>,
        G: Fn(Node<V>) -> Node<V>,
        C: Fn(V) -> bool,
    >(
        self,
        prev: Option<Node<V>>,
        next: Option<Node<V>>,
        index: &I,
        align: &A,
        avoid: &S,
        integrate: &G,
        contains: &C,
    ) -> (out: Node<V>)
        requires
            forall|n: Node<V>, p: Node<V>, q: Node<V>| call_requires(*align, (n, p, q)),
            forall|n: Node<V>| call_requires(*avoid, (n, index)),
            forall|n: Node<V>| call_requires(*integrate, (n,)),
            forall|v: V| call_requires(*contains, (v,)),
        ensures
            steps_to(*align, *avoid, *integrate, *contains, index, self, prev, next, out),
    {
        if self.fixed {
            return self;
        }
        let steered = match (prev, next) {
            (Some(p), Some(q)) => align(self, p, q),
            _ => self,
        };
        let pushed = avoid(steered, index);
        let moved = integrate(pushed);
        let out = if contains(moved.position) {
            moved
        } else {
            moved.frozen()
        };
        assert(stages(*align, *avoid, *integrate, *contains, index, self, prev, next, steered, pushed, moved, out));
        out
    }
}

} // verus!
