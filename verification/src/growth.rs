//! What subdividing the over-long edges of a path yields.
//!
//! An edge joins a node to its predecessor. A growth pass looks at every edge
//! of the path once and puts a new node on each edge that is too long. The
//! node on the edge that ends in node `k` goes directly before node `k`; the
//! node on the closing edge of a cyclic path goes to the very end.

use vstd::prelude::*;
use crate::node::Node;
use crate::node::is_zero;
use crate::node::rests_at;
use crate::order::lemma_within_grows_back;
use crate::order::within;

verus! {

/// `node` may be the node that a pass puts on the edge from `a` to `b`: it
/// rests where `midpoint` places it.
pub open spec fn splits<V: Default, M: Fn(V, V) -> V>(midpoint: M, a: Node<V>, b: Node<V>, node: Node<V>) -> bool {
    &&& call_ensures(midpoint, (a.position, b.position), node.position)
    &&& rests_at(node, node.position)
}

/// `judge` may answer `verdict` when asked about the edge from `a` to `b`.
pub open spec fn judges<V, J: Fn(V, V) -> bool>(judge: J, a: Node<V>, b: Node<V>, verdict: bool) -> bool {
    call_ensures(judge, (a.position, b.position), verdict)
}

/// `judge` answers every question about an edge in one way only.
pub open spec fn decided<V, J: Fn(V, V) -> bool>(judge: J) -> bool {
    forall|a: V, b: V|
        !(#[trigger] call_ensures(judge, (a, b), true) && #[trigger] call_ensures(judge, (a, b), false))
}

/// `midpoint` places the node for every edge in one spot only.
pub open spec fn placed<V, M: Fn(V, V) -> V>(midpoint: M) -> bool {
    forall|a: V, b: V, m1: V, m2: V|
        #[trigger] call_ensures(midpoint, (a, b), m1) && #[trigger] call_ensures(midpoint, (a, b), m2) ==> m1 == m2
}

/// `V` has one zero vector only.
pub open spec fn one_zero<V: Default>() -> bool {
    forall|v1: V, v2: V| #[trigger] is_zero(v1) && #[trigger] is_zero(v2) ==> v1 == v2
}

/// `tail` is what a growth pass may make of the nodes from index `k` on,
/// where `k >= 1`: each of them, preceded by a new node where the edge that
/// ends in it is too long.
pub open spec fn expands<V: Default, J: Fn(V, V) -> bool, M: Fn(V, V) -> V>(
    exceeds: J,
    midpoint: M,
    nodes: Seq<Node<V>>,
    k: int,
    tail: Seq<Node<V>>,
) -> bool
    decreases nodes.len() - k,
{
    if k >= nodes.len() {
        tail.len() == 0
    } else {
        ||| {
            &&& judges(exceeds, nodes[k - 1], nodes[k], false)
            &&& tail.len() >= 1
            &&& tail[0] == nodes[k]
            &&& expands(exceeds, midpoint, nodes, k + 1, tail.skip(1))
        }
        ||| {
            &&& judges(exceeds, nodes[k - 1], nodes[k], true)
            &&& tail.len() >= 2
            &&& splits(midpoint, nodes[k - 1], nodes[k], tail[0])
            &&& tail[1] == nodes[k]
            &&& expands(exceeds, midpoint, nodes, k + 1, tail.skip(2))
        }
    }
}

/// `after` is what one growth pass may make of the path `before`.
///
/// The first node stays first. The inner edges are subdivided as [`expands`]
/// says. On a cyclic path of at least two nodes the closing edge, from the
/// last node to the first, is judged too, and the node put on it is appended.
pub open spec fn grows_to<V: Default, J: Fn(V, V) -> bool, M: Fn(V, V) -> V>(
    exceeds: J,
    midpoint: M,
    before: Seq<Node<V>>,
    cyclic: bool,
    after: Seq<Node<V>>,
) -> bool {
    if before.len() == 0 {
        after.len() == 0
    } else {
        &&& after.len() >= 1
        &&& after[0] == before[0]
        &&& {
            ||| {
                &&& cyclic && before.len() >= 2 ==> judges(exceeds, before.last(), before[0], false)
                &&& expands(exceeds, midpoint, before, 1, after.skip(1))
            }
            ||| {
                &&& cyclic && before.len() >= 2
                &&& judges(exceeds, before.last(), before[0], true)
                &&& after.len() >= 2
                &&& splits(midpoint, before.last(), before[0], after.last())
                &&& expands(exceeds, midpoint, before, 1, after.subrange(1, after.len() - 1))
            }
        }
    }
}

/// A pass never shortens the part it expands, and where it adds nothing it
/// leaves that part as it was.
pub proof fn lemma_expands_len<V: Default, J: Fn(V, V) -> bool, M: Fn(V, V) -> V>(
    exceeds: J,
    midpoint: M,
    nodes: Seq<Node<V>>,
    k: int,
    tail: Seq<Node<V>>,
)
    requires
        1 <= k <= nodes.len(),
        expands(exceeds, midpoint, nodes, k, tail),
    ensures
        tail.len() >= nodes.len() - k,
        tail.len() <= 2 * (nodes.len() - k),
        tail.len() == nodes.len() - k ==> tail == nodes.skip(k),
    decreases nodes.len() - k,
{
    if k < nodes.len() {
        if judges(exceeds, nodes[k - 1], nodes[k], false) && tail.len() >= 1 && tail[0] == nodes[k]
            && expands(exceeds, midpoint, nodes, k + 1, tail.skip(1)) {
            lemma_expands_len(exceeds, midpoint, nodes, k + 1, tail.skip(1));
            if tail.len() == nodes.len() - k {
                assert(tail =~= nodes.skip(k)) by {
                    assert forall|i: int| 0 <= i < tail.len() implies tail[i] == nodes.skip(k)[i] by {
                        if i > 0 {
                            assert(tail[i] == tail.skip(1)[i - 1]);
                            assert(nodes.skip(k + 1)[i - 1] == nodes[k + i]);
                        }
                    }
                }
            }
        } else {
            lemma_expands_len(exceeds, midpoint, nodes, k + 1, tail.skip(2));
        }
    } else {
        assert(tail =~= nodes.skip(k));
    }
}

/// The last node of a path stays the last of what its inner edges expand to.
pub proof fn lemma_expands_last<V: Default, J: Fn(V, V) -> bool, M: Fn(V, V) -> V>(
    exceeds: J,
    midpoint: M,
    nodes: Seq<Node<V>>,
    k: int,
    tail: Seq<Node<V>>,
)
    requires
        1 <= k < nodes.len(),
        expands(exceeds, midpoint, nodes, k, tail),
    ensures
        tail.len() >= 1,
        tail.last() == nodes.last(),
    decreases nodes.len() - k,
{
    let rest = if judges(exceeds, nodes[k - 1], nodes[k], false) && tail.len() >= 1 && tail[0] == nodes[k]
        && expands(exceeds, midpoint, nodes, k + 1, tail.skip(1)) {
        tail.skip(1)
    } else {
        tail.skip(2)
    };
    assert(expands(exceeds, midpoint, nodes, k + 1, rest));
    if k + 1 < nodes.len() {
        lemma_expands_last(exceeds, midpoint, nodes, k + 1, rest);
        assert(tail.last() == rest.last());
    } else {
        assert(rest.len() == 0);
    }
}

/// **A growth pass only ever adds nodes**: the path comes out at least as
/// long as it went in, at most twice as long, and if it comes out no longer
/// then it comes out unchanged. Paths of fewer than two nodes never change.
pub proof fn lemma_grow_only_adds<V: Default, J: Fn(V, V) -> bool, M: Fn(V, V) -> V>(
    exceeds: J,
    midpoint: M,
    before: Seq<Node<V>>,
    cyclic: bool,
    after: Seq<Node<V>>,
)
    requires
        grows_to(exceeds, midpoint, before, cyclic, after),
    ensures
        before.len() <= after.len() <= 2 * before.len(),
        after.len() == before.len() ==> after == before,
        before.len() <= 1 ==> after == before,
{
    if before.len() == 0 {
        assert(after =~= before);
    } else {
        if expands(exceeds, midpoint, before, 1, after.skip(1)) {
            lemma_expands_len(exceeds, midpoint, before, 1, after.skip(1));
            if after.len() == before.len() {
                assert(after =~= before) by {
                    assert forall|i: int| 0 <= i < after.len() implies after[i] == before[i] by {
                        if i > 0 {
                            assert(after[i] == after.skip(1)[i - 1]);
                            assert(before.skip(1)[i - 1] == before[i]);
                        }
                    }
                }
            }
        } else {
            lemma_expands_len(exceeds, midpoint, before, 1, after.subrange(1, after.len() - 1));
        }
    }
}

/// Where judge and midpoint answer in one way only, the inner edges of a
/// path expand in one way only.
pub proof fn lemma_expands_unique<V: Default, J: Fn(V, V) -> bool, M: Fn(V, V) -> V>(
    exceeds: J,
    midpoint: M,
    nodes: Seq<Node<V>>,
    k: int,
    one: Seq<Node<V>>,
    other: Seq<Node<V>>,
)
    requires
        1 <= k <= nodes.len(),
        decided(exceeds),
        placed(midpoint),
        one_zero::<V>(),
        expands(exceeds, midpoint, nodes, k, one),
        expands(exceeds, midpoint, nodes, k, other),
    ensures
        one == other,
    decreases nodes.len() - k,
{
    if k >= nodes.len() {
        assert(one =~= other);
    } else if judges(exceeds, nodes[k - 1], nodes[k], false) {
        lemma_expands_unique(exceeds, midpoint, nodes, k + 1, one.skip(1), other.skip(1));
        assert(one =~= other) by {
            assert forall|i: int| 0 <= i < one.len() implies one[i] == other[i] by {
                if i >= 1 {
                    assert(one[i] == one.skip(1)[i - 1]);
                    assert(other[i] == other.skip(1)[i - 1]);
                }
            }
        }
    } else {
        lemma_expands_unique(exceeds, midpoint, nodes, k + 1, one.skip(2), other.skip(2));
        assert(is_zero(one[0].velocity) && is_zero(other[0].velocity));
        assert(is_zero(one[0].acceleration) && is_zero(other[0].acceleration));
        assert(one[0] == other[0]);
        assert(one =~= other) by {
            assert forall|i: int| 0 <= i < one.len() implies one[i] == other[i] by {
                if i >= 2 {
                    assert(one[i] == one.skip(2)[i - 2]);
                    assert(other[i] == other.skip(2)[i - 2]);
                }
            }
        }
    }
}

/// **Growth is a function of its inputs**: where the judge answers every
/// question in one way only, the midpoint is placed in one spot only and
/// there is one zero vector only, a growth pass has exactly one outcome.
pub proof fn lemma_grow_unique<V: Default, J: Fn(V, V) -> bool, M: Fn(V, V) -> V>(
    exceeds: J,
    midpoint: M,
    before: Seq<Node<V>>,
    cyclic: bool,
    one: Seq<Node<V>>,
    other: Seq<Node<V>>,
)
    requires
        decided(exceeds),
        placed(midpoint),
        one_zero::<V>(),
        grows_to(exceeds, midpoint, before, cyclic, one),
        grows_to(exceeds, midpoint, before, cyclic, other),
    ensures
        one == other,
{
    if before.len() == 0 {
        assert(one =~= other);
    } else if cyclic && before.len() >= 2 && judges(exceeds, before.last(), before[0], true) {
        let inner_one = one.subrange(1, one.len() - 1);
        let inner_other = other.subrange(1, other.len() - 1);
        lemma_expands_unique(exceeds, midpoint, before, 1, inner_one, inner_other);
        assert(is_zero(one.last().velocity) && is_zero(other.last().velocity));
        assert(is_zero(one.last().acceleration) && is_zero(other.last().acceleration));
        assert(one.last() == other.last());
        assert(one =~= other) by {
            assert(one.len() == inner_one.len() + 2);
            assert(other.len() == inner_other.len() + 2);
            assert forall|i: int| 0 <= i < one.len() implies one[i] == other[i] by {
                if 1 <= i < one.len() - 1 {
                    assert(one[i] == inner_one[i - 1]);
                    assert(other[i] == inner_other[i - 1]);
                }
            }
        }
    } else {
        lemma_expands_unique(exceeds, midpoint, before, 1, one.skip(1), other.skip(1));
        assert(one =~= other) by {
            assert forall|i: int| 0 <= i < one.len() implies one[i] == other[i] by {
                if i >= 1 {
                    assert(one[i] == one.skip(1)[i - 1]);
                    assert(other[i] == other.skip(1)[i - 1]);
                }
            }
        }
    }
}

/// `after` is what growing the path `before` until nothing is left to add may
/// yield, where that takes `rounds` passes that add something and one last
/// pass that adds nothing.
pub open spec fn densifies<V: Default, J: Fn(V, V) -> bool, M: Fn(V, V) -> V>(
    exceeds: J,
    midpoint: M,
    before: Seq<Node<V>>,
    cyclic: bool,
    rounds: nat,
    after: Seq<Node<V>>,
) -> bool
    decreases rounds,
{
    if rounds == 0 {
        after == before && grows_to(exceeds, midpoint, before, cyclic, before)
    } else {
        exists|next: Seq<Node<V>>|
            {
                &&& #[trigger] grows_to(exceeds, midpoint, before, cyclic, next)
                &&& next.len() > before.len()
                &&& densifies(exceeds, midpoint, next, cyclic, (rounds - 1) as nat, after)
            }
    }
}

/// `after` is what growing the path `before` to a fixed point may yield.
pub open spec fn settles_to<V: Default, J: Fn(V, V) -> bool, M: Fn(V, V) -> V>(
    exceeds: J,
    midpoint: M,
    before: Seq<Node<V>>,
    cyclic: bool,
    after: Seq<Node<V>>,
) -> bool {
    exists|rounds: nat| #[trigger] densifies(exceeds, midpoint, before, cyclic, rounds, after)
}

/// **Growing to a fixed point ends in a path that a further pass leaves
/// alone**: the result is at least as long as the start, it keeps the first
/// node, and one more growth pass may find nothing to add to it.
pub proof fn lemma_settled_is_stable<V: Default, J: Fn(V, V) -> bool, M: Fn(V, V) -> V>(
    exceeds: J,
    midpoint: M,
    before: Seq<Node<V>>,
    cyclic: bool,
    rounds: nat,
    after: Seq<Node<V>>,
)
    requires
        densifies(exceeds, midpoint, before, cyclic, rounds, after),
    ensures
        after.len() >= before.len() + rounds,
        before.len() >= 1 ==> after[0] == before[0],
        grows_to(exceeds, midpoint, after, cyclic, after),
    decreases rounds,
{
    if rounds > 0 {
        let next = choose|next: Seq<Node<V>>|
            {
                &&& #[trigger] grows_to(exceeds, midpoint, before, cyclic, next)
                &&& next.len() > before.len()
                &&& densifies(exceeds, midpoint, next, cyclic, (rounds - 1) as nat, after)
            };
        lemma_settled_is_stable(exceeds, midpoint, next, cyclic, (rounds - 1) as nat, after);
    }
}

/// **Growing to a fixed point is a function of its inputs**: where the judge
/// answers every question in one way only, the midpoint is placed in one
/// spot only and there is one zero vector only, it takes one number of
/// passes and has one outcome.
pub proof fn lemma_settle_unique<V: Default, J: Fn(V, V) -> bool, M: Fn(V, V) -> V>(
    exceeds: J,
    midpoint: M,
    before: Seq<Node<V>>,
    cyclic: bool,
    rounds: nat,
    one: Seq<Node<V>>,
    more: nat,
    other: Seq<Node<V>>,
)
    requires
        decided(exceeds),
        placed(midpoint),
        one_zero::<V>(),
        densifies(exceeds, midpoint, before, cyclic, rounds, one),
        densifies(exceeds, midpoint, before, cyclic, more, other),
    ensures
        rounds == more,
        one == other,
    decreases rounds,
{
    if rounds == 0 {
        if more > 0 {
            let next = choose|next: Seq<Node<V>>|
                {
                    &&& #[trigger] grows_to(exceeds, midpoint, before, cyclic, next)
                    &&& next.len() > before.len()
                    &&& densifies(exceeds, midpoint, next, cyclic, (more - 1) as nat, other)
                };
            lemma_grow_unique(exceeds, midpoint, before, cyclic, before, next);
        }
    } else {
        let next = choose|next: Seq<Node<V>>|
            {
                &&& #[trigger] grows_to(exceeds, midpoint, before, cyclic, next)
                &&& next.len() > before.len()
                &&& densifies(exceeds, midpoint, next, cyclic, (rounds - 1) as nat, one)
            };
        if more == 0 {
            lemma_grow_unique(exceeds, midpoint, before, cyclic, before, next);
        } else {
            let then = choose|then: Seq<Node<V>>|
                {
                    &&& #[trigger] grows_to(exceeds, midpoint, before, cyclic, then)
                    &&& then.len() > before.len()
                    &&& densifies(exceeds, midpoint, then, cyclic, (more - 1) as nat, other)
                };
            lemma_grow_unique(exceeds, midpoint, before, cyclic, next, then);
            lemma_settle_unique(
                exceeds,
                midpoint,
                next,
                cyclic,
                (rounds - 1) as nat,
                one,
                (more - 1) as nat,
                other,
            );
        }
    }
}

/// The nodes from index `k` on lie, in order, within what a pass makes of
/// them.
pub proof fn lemma_expands_keeps_nodes<V: Default, J: Fn(V, V) -> bool, M: Fn(V, V) -> V>(
    exceeds: J,
    midpoint: M,
    nodes: Seq<Node<V>>,
    k: int,
    tail: Seq<Node<V>>,
)
    requires
        1 <= k <= nodes.len(),
        expands(exceeds, midpoint, nodes, k, tail),
    ensures
        within(nodes.skip(k), tail),
    decreases nodes.len() - k,
{
    if k < nodes.len() {
        assert(nodes.skip(k).skip(1) =~= nodes.skip(k + 1));
        if judges(exceeds, nodes[k - 1], nodes[k], false) && tail.len() >= 1 && tail[0] == nodes[k]
            && expands(exceeds, midpoint, nodes, k + 1, tail.skip(1)) {
            lemma_expands_keeps_nodes(exceeds, midpoint, nodes, k + 1, tail.skip(1));
        } else {
            lemma_expands_keeps_nodes(exceeds, midpoint, nodes, k + 1, tail.skip(2));
            assert(tail.skip(1).skip(1) =~= tail.skip(2));
            assert(within(nodes.skip(k), tail.skip(1)));
        }
    }
}

/// **Growth keeps every node, in order**: the nodes that a path held before
/// a growth pass are all there after it, in the order they had, with the new
/// nodes between them and behind them.
pub proof fn lemma_grow_keeps_nodes<V: Default, J: Fn(V, V) -> bool, M: Fn(V, V) -> V>(
    exceeds: J,
    midpoint: M,
    before: Seq<Node<V>>,
    cyclic: bool,
    after: Seq<Node<V>>,
)
    requires
        grows_to(exceeds, midpoint, before, cyclic, after),
    ensures
        within(before, after),
{
    if before.len() > 0 {
        if expands(exceeds, midpoint, before, 1, after.skip(1)) {
            lemma_expands_keeps_nodes(exceeds, midpoint, before, 1, after.skip(1));
        } else {
            let inner = after.subrange(1, after.len() - 1);
            lemma_expands_keeps_nodes(exceeds, midpoint, before, 1, inner);
            lemma_within_grows_back(before.skip(1), inner, after.last());
            assert(inner.push(after.last()) =~= after.skip(1));
        }
    }
}

} // verus!
