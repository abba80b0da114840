//! What merging the over-short edges of a path yields.
//!
//! A pruning pass walks the path from its first node on. Where the edge that
//! ends in the node it looks at is too short, that node is removed; the node
//! that follows moves into its place and is passed over without a look, so a
//! pass never removes two nodes in a row.

use vstd::prelude::*;
use crate::adjacency::prev_of;
use crate::growth::decided;
use crate::growth::judges;
use crate::node::Node;
use crate::order::lemma_within_back_both;
use crate::order::lemma_within_grows_back;
use crate::order::within;

verus! {

/// The pass may keep node `j`: no edge ends in it, or `too_short` may let
/// that edge stand.
pub open spec fn stays<V, J: Fn(V, V) -> bool>(too_short: J, nodes: Seq<Node<V>>, cyclic: bool, j: int) -> bool {
    match prev_of(nodes.len() as int, cyclic, j) {
        Some(p) => judges(too_short, nodes[p], nodes[j], false),
        None => true,
    }
}

/// The pass may remove node `j`: an edge ends in it, and `too_short` may
/// find that edge too short.
pub open spec fn goes<V, J: Fn(V, V) -> bool>(too_short: J, nodes: Seq<Node<V>>, cyclic: bool, j: int) -> bool {
    match prev_of(nodes.len() as int, cyclic, j) {
        Some(p) => judges(too_short, nodes[p], nodes[j], true),
        None => false,
    }
}

/// `kept` is what a pass may have kept of the nodes before index `j` at the
/// moment it comes to look at node `j`.
///
/// It got there either by looking at node `j - 1` and keeping it, or by
/// removing node `j - 2` and passing over node `j - 1`.
pub open spec fn scans_to<V, J: Fn(V, V) -> bool>(
    too_short: J,
    nodes: Seq<Node<V>>,
    cyclic: bool,
    j: int,
    kept: Seq<Node<V>>,
) -> bool
    decreases j,
{
    if j <= 0 {
        kept.len() == 0
    } else {
        &&& kept.len() >= 1
        &&& kept.last() == nodes[j - 1]
        &&& {
            ||| {
                &&& stays(too_short, nodes, cyclic, j - 1)
                &&& scans_to(too_short, nodes, cyclic, j - 1, kept.drop_last())
            }
            ||| {
                &&& j >= 2
                &&& goes(too_short, nodes, cyclic, j - 2)
                &&& scans_to(too_short, nodes, cyclic, j - 2, kept.drop_last())
            }
        }
    }
}

/// `after` is what one pruning pass may make of the path `before`: the pass
/// came to the end of the path, or it removed the last node.
pub open spec fn prunes_to<V, J: Fn(V, V) -> bool>(
    too_short: J,
    before: Seq<Node<V>>,
    cyclic: bool,
    after: Seq<Node<V>>,
) -> bool {
    ||| scans_to(too_short, before, cyclic, before.len() as int, after)
    ||| {
        &&& before.len() >= 1
        &&& goes(too_short, before, cyclic, before.len() - 1)
        &&& scans_to(too_short, before, cyclic, before.len() - 1, after)
    }
}

/// Of the first `j` nodes a pass keeps at least every second one, and if it
/// keeps `j` nodes it has kept them all.
pub proof fn lemma_scan_keeps<V, J: Fn(V, V) -> bool>(
    too_short: J,
    nodes: Seq<Node<V>>,
    cyclic: bool,
    j: int,
    kept: Seq<Node<V>>,
)
    requires
        0 <= j <= nodes.len(),
        scans_to(too_short, nodes, cyclic, j, kept),
    ensures
        kept.len() <= j <= 2 * kept.len(),
        kept.len() == j ==> kept == nodes.take(j),
    decreases j,
{
    if j > 0 {
        let rest = kept.drop_last();
        if stays(too_short, nodes, cyclic, j - 1) && scans_to(too_short, nodes, cyclic, j - 1, rest) {
            lemma_scan_keeps(too_short, nodes, cyclic, j - 1, rest);
            if kept.len() == j {
                assert(kept =~= nodes.take(j)) by {
                    assert forall|i: int| 0 <= i < j implies kept[i] == nodes[i] by {
                        if i < j - 1 {
                            assert(kept[i] == rest[i]);
                            assert(nodes.take(j - 1)[i] == nodes[i]);
                        }
                    }
                }
            }
        } else {
            lemma_scan_keeps(too_short, nodes, cyclic, j - 2, rest);
        }
    } else {
        assert(kept =~= nodes.take(j));
    }
}

/// **A pruning pass only ever removes nodes, and never more than it keeps,
/// but for one**: the path comes out no longer than it went in and at least
/// half as long, rounded down; if it comes out as long, it comes out
/// unchanged. Paths of fewer than two nodes never change.
pub proof fn lemma_prune_only_removes<V, J: Fn(V, V) -> bool>(
    too_short: J,
    before: Seq<Node<V>>,
    cyclic: bool,
    after: Seq<Node<V>>,
)
    requires
        prunes_to(too_short, before, cyclic, after),
    ensures
        after.len() <= before.len() <= 2 * after.len() + 1,
        after.len() == before.len() ==> after == before,
        before.len() <= 1 ==> after == before,
{
    let n = before.len() as int;
    if scans_to(too_short, before, cyclic, n, after) {
        lemma_scan_keeps(too_short, before, cyclic, n, after);
        if n == 1 {
            assert(prev_of(n, cyclic, 0) is None);
            assert(scans_to(too_short, before, cyclic, 0, after.drop_last()));
        }
        assert(before.take(n) =~= before);
    } else {
        lemma_scan_keeps(too_short, before, cyclic, n - 1, after);
    }
}

/// Where the judge answers in one way only, a pass that looks at two nodes
/// in a row has kept the first of them: behind a node that it removes it
/// steps over one.
pub proof fn lemma_scan_steps_over<V, J: Fn(V, V) -> bool>(
    too_short: J,
    nodes: Seq<Node<V>>,
    cyclic: bool,
    j: int,
    one: Seq<Node<V>>,
    other: Seq<Node<V>>,
)
    requires
        2 <= j <= nodes.len() + 1,
        decided(too_short),
        scans_to(too_short, nodes, cyclic, j - 1, one),
        scans_to(too_short, nodes, cyclic, j - 2, other),
    ensures
        !goes(too_short, nodes, cyclic, j - 2),
    decreases j,
{
    if goes(too_short, nodes, cyclic, j - 2) {
        assert(!stays(too_short, nodes, cyclic, j - 2));
        assert(goes(too_short, nodes, cyclic, j - 3) && scans_to(too_short, nodes, cyclic, j - 3, one.drop_last()));
        assert(!stays(too_short, nodes, cyclic, j - 3));
        lemma_scan_steps_over(too_short, nodes, cyclic, j - 2, one.drop_last(), other.drop_last());
    }
}

/// Where the judge answers in one way only, a pass comes to a node with one
/// selection of the nodes before it only.
pub proof fn lemma_scan_unique<V, J: Fn(V, V) -> bool>(
    too_short: J,
    nodes: Seq<Node<V>>,
    cyclic: bool,
    j: int,
    one: Seq<Node<V>>,
    other: Seq<Node<V>>,
)
    requires
        0 <= j <= nodes.len(),
        decided(too_short),
        scans_to(too_short, nodes, cyclic, j, one),
        scans_to(too_short, nodes, cyclic, j, other),
    ensures
        one == other,
    decreases j,
{
    if j <= 0 {
        assert(one =~= other);
    } else {
        let kept = stays(too_short, nodes, cyclic, j - 1);
        let one_kept = kept && scans_to(too_short, nodes, cyclic, j - 1, one.drop_last());
        let other_kept = kept && scans_to(too_short, nodes, cyclic, j - 1, other.drop_last());
        if one_kept && other_kept {
            lemma_scan_unique(too_short, nodes, cyclic, j - 1, one.drop_last(), other.drop_last());
        } else if !one_kept && !other_kept {
            lemma_scan_unique(too_short, nodes, cyclic, j - 2, one.drop_last(), other.drop_last());
        } else if one_kept {
            lemma_scan_steps_over(too_short, nodes, cyclic, j, one.drop_last(), other.drop_last());
        } else {
            lemma_scan_steps_over(too_short, nodes, cyclic, j, other.drop_last(), one.drop_last());
        }
        assert(one =~= other) by {
            assert(one.drop_last() == other.drop_last());
            assert forall|i: int| 0 <= i < one.len() implies one[i] == other[i] by {
                if i < one.len() - 1 {
                    assert(one[i] == one.drop_last()[i]);
                    assert(other[i] == other.drop_last()[i]);
                }
            }
        }
    }
}

/// **Pruning is a function of its inputs**: where the judge answers every
/// question in one way only, a pruning pass has exactly one outcome.
pub proof fn lemma_prune_unique<V, J: Fn(V, V) -> bool>(
    too_short: J,
    before: Seq<Node<V>>,
    cyclic: bool,
    one: Seq<Node<V>>,
    other: Seq<Node<V>>,
)
    requires
        decided(too_short),
        prunes_to(too_short, before, cyclic, one),
        prunes_to(too_short, before, cyclic, other),
    ensures
        one == other,
{
    let n = before.len() as int;
    let one_through = scans_to(too_short, before, cyclic, n, one);
    let other_through = scans_to(too_short, before, cyclic, n, other);
    if one_through && other_through {
        lemma_scan_unique(too_short, before, cyclic, n, one, other);
    } else if !one_through && !other_through {
        lemma_scan_unique(too_short, before, cyclic, n - 1, one, other);
    } else if one_through {
        lemma_through_or_cut(too_short, before, cyclic, one, other);
    } else {
        lemma_through_or_cut(too_short, before, cyclic, other, one);
    }
}

/// Where the judge answers in one way only, a pass that comes to the end of
/// the path has not removed the last node.
proof fn lemma_through_or_cut<V, J: Fn(V, V) -> bool>(
    too_short: J,
    before: Seq<Node<V>>,
    cyclic: bool,
    through: Seq<Node<V>>,
    cut: Seq<Node<V>>,
)
    requires
        decided(too_short),
        before.len() >= 1,
        scans_to(too_short, before, cyclic, before.len() as int, through),
        scans_to(too_short, before, cyclic, before.len() - 1, cut),
    ensures
        !goes(too_short, before, cyclic, before.len() - 1),
{
    let n = before.len() as int;
    if goes(too_short, before, cyclic, n - 1) {
        assert(!stays(too_short, before, cyclic, n - 1));
        lemma_scan_steps_over(too_short, before, cyclic, n, cut, through.drop_last());
    }
}

/// What a pass has kept of the first `j` nodes lies within them, in order.
pub proof fn lemma_scan_keeps_order<V, J: Fn(V, V) -> bool>(
    too_short: J,
    nodes: Seq<Node<V>>,
    cyclic: bool,
    j: int,
    kept: Seq<Node<V>>,
)
    requires
        0 <= j <= nodes.len(),
        scans_to(too_short, nodes, cyclic, j, kept),
    ensures
        within(kept, nodes.take(j)),
    decreases j,
{
    if j > 0 {
        let rest = kept.drop_last();
        assert(rest.push(nodes[j - 1]) =~= kept);
        assert(nodes.take(j - 1).push(nodes[j - 1]) =~= nodes.take(j));
        if stays(too_short, nodes, cyclic, j - 1) && scans_to(too_short, nodes, cyclic, j - 1, rest) {
            lemma_scan_keeps_order(too_short, nodes, cyclic, j - 1, rest);
        } else {
            lemma_scan_keeps_order(too_short, nodes, cyclic, j - 2, rest);
            lemma_within_grows_back(rest, nodes.take(j - 2), nodes[j - 2]);
            assert(nodes.take(j - 2).push(nodes[j - 2]) =~= nodes.take(j - 1));
        }
        lemma_within_back_both(rest, nodes.take(j - 1), nodes[j - 1]);
    }
}

/// **Pruning makes no node and moves none**: the nodes that a path holds
/// after a pruning pass were all there before it, in the order they have.
pub proof fn lemma_prune_keeps_order<V, J: Fn(V, V) -> bool>(
    too_short: J,
    before: Seq<Node<V>>,
    cyclic: bool,
    after: Seq<Node<V>>,
)
    requires
        prunes_to(too_short, before, cyclic, after),
    ensures
        within(after, before),
{
    let n = before.len() as int;
    if scans_to(too_short, before, cyclic, n, after) {
        lemma_scan_keeps_order(too_short, before, cyclic, n, after);
        assert(before.take(n) =~= before);
    } else {
        lemma_scan_keeps_order(too_short, before, cyclic, n - 1, after);
        lemma_within_grows_back(after, before.take(n - 1), before[n - 1]);
        assert(before.take(n - 1).push(before[n - 1]) =~= before);
    }
}

} // verus!
