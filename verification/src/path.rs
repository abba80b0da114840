//! An ordered, optionally cyclic sequence of nodes and the passes that keep
//! its edges within their length limits.

use vstd::prelude::*;
use rand::rngs::StdRng;
use crate::adjacency::next_index;
use crate::adjacency::next_of;
use crate::adjacency::node_at;
use crate::adjacency::prev_index;
use crate::adjacency::prev_of;
use crate::config::InitializationType;
use crate::growth::densifies;
use crate::growth::expands;
use crate::growth::grows_to;
use crate::growth::lemma_expands_last;
use crate::growth::lemma_expands_len;
use crate::growth::lemma_grow_only_adds;
use crate::growth::lemma_settled_is_stable;
use crate::growth::settles_to;
use crate::injection::injects;
use crate::injection::injects_at;
use crate::motion::moves_to;
use crate::motion::passes;
use crate::node::Node;
use crate::node::rests_at;
use crate::pruning::goes;
use crate::pruning::prunes_to;
use crate::pruning::scans_to;
use crate::pruning::stays;
use crate::random::random_inner_index;
use crate::random::random_ticket;
use crate::tick::phases;
use crate::tick::updates_to;

verus! {

/// The positions of `nodes`, in order.
pub open spec fn positions_of<V>(nodes: Seq<Node<V>>) -> Seq<V> {
    nodes.map_values(|node: Node<V>| node.position)
}

/// The two path neighbours of a node, each absent at an open end.
#[derive(Clone, Copy, Debug, PartialEq)]
pub struct NeighborNodes<V> {
    pub prev_node: Option<Node<V>>,
    pub next_node: Option<Node<V>>,
}

/// An ordered sequence of nodes. Consecutive nodes are joined by an edge; on
/// a cyclic path the last node is joined to the first as well.
#[derive(Clone, Debug, PartialEq)]
pub struct Path<V> {
    cyclic: bool,
    nodes: Vec<Node<V>>,
}

impl<V> View for Path<V> {
    type V = Seq<Node<V>>;

    /// The nodes in path order.
    closed spec fn view(&self) -> Seq<Node<V>> {
        self.nodes@
    }
}

impl<V> Path<V> {
    /// Whether the last node is joined to the first.
    pub closed spec fn cyclic(&self) -> bool {
        self.cyclic
    }
}

impl<V: Copy + Default> Path<V> {
    /// A path over `nodes`, in the order given.
    pub fn new(nodes: Vec<Node<V>>, cyclic: bool) -> (path: Self)
        ensures
            path@ == nodes@,
            path.cyclic() == cyclic,
    {
        Path { cyclic, nodes }
    }

    /// A path of free nodes at rest at `positions`, in the order given.
    pub fn from_positions(positions: Vec<V>, cyclic: bool) -> (path: Self)
        ensures
            path.cyclic() == cyclic,
            path@.len() == positions@.len(),
            forall|i: int| 0 <= i < positions@.len() ==> rests_at(#[trigger] path@[i], positions@[i]),
    {
        let mut nodes: Vec<Node<V>> = Vec::new();
        let mut i: usize = 0;
        while i < positions.len()
            invariant
                i <= positions@.len(),
                nodes@.len() == i,
                forall|k: int| 0 <= k < i ==> rests_at(#[trigger] nodes@[k], positions@[k]),
            decreases positions@.len() - i,
        {
            nodes.push(Node::new_with_position(positions[i]));
            i = i + 1;
        }
        Path { cyclic, nodes }
    }

    /// The path that a simulation of shape `recipe` starts from: free nodes
    /// at rest at `positions`, closed to a cycle where the shape is a polygon.
    pub fn from_recipe(recipe: InitializationType, positions: Vec<V>) -> (path: Self)
        ensures
            path.cyclic() == recipe.closes(),
            path@.len() == positions@.len(),
            forall|i: int| 0 <= i < positions@.len() ==> rests_at(#[trigger] path@[i], positions@[i]),
    {
        Path::from_positions(positions, recipe.is_cyclic())
    }

    /// Number of nodes.
    pub fn len(&self) -> (len: usize)
        ensures
            len == self@.len(),
    {
        self.nodes.len()
    }

    /// Whether the path is closed.
    pub fn is_cyclic(&self) -> (cyclic: bool)
        ensures
            cyclic == self.cyclic(),
    {
        self.cyclic
    }

    /// The node at `index`.
    pub fn node(&self, index: usize) -> (node: Node<V>)
        requires
            index < self@.len(),
        ensures
            node == self@[index as int],
    {
        self.nodes[index]
    }

    /// The node before `index`, honouring the wraparound of a cyclic path.
    pub fn get_prev_node(&self, index: usize) -> (prev: Option<Node<V>>)
        requires
            index < self@.len(),
        ensures
            prev == node_at(self@, prev_of(self@.len() as int, self.cyclic(), index as int)),
    {
        match prev_index(self.nodes.len(), self.cyclic, index) {
            Some(p) => Some(self.nodes[p]),
            None => None,
        }
    }

    /// The node after `index`, honouring the wraparound of a cyclic path.
    pub fn get_next_node(&self, index: usize) -> (next: Option<Node<V>>)
        requires
            index < self@.len(),
        ensures
            next == node_at(self@, next_of(self@.len() as int, self.cyclic(), index as int)),
    {
        match next_index(self.nodes.len(), self.cyclic, index) {
            Some(p) => Some(self.nodes[p]),
            None => None,
        }
    }

    /// Both neighbours of the node at `index`.
    pub fn get_neighbor_nodes(&self, index: usize) -> (neighbors: NeighborNodes<V>)
        requires
            index < self@.len(),
        ensures
            neighbors.prev_node == node_at(self@, prev_of(self@.len() as int, self.cyclic(), index as int)),
            neighbors.next_node == node_at(self@, next_of(self@.len() as int, self.cyclic(), index as int)),
    {
        NeighborNodes { next_node: self.get_next_node(index), prev_node: self.get_prev_node(index) }
    }

    /// One growth pass: puts a new node on the middle of every edge that
    /// `exceeds` finds too long, and says whether it put any.
    ///
    /// The edges are visited from the last node's to the first node's, so
    /// that a node put in never moves an edge that is still to be visited.
    pub fn grow<J: Fn(V, V) -> bool, M: Fn(V, V) -> V>(&mut self, exceeds: &J, midpoint: &M) -> (grown: bool)
        requires
            forall|a: V, b: V| call_requires(*exceeds, (a, b)),
            forall|a: V, b: V| call_requires(*midpoint, (a, b)),
        ensures
            final(self).cyclic() == old(self).cyclic(),
            grows_to(*exceeds, *midpoint, old(self)@, old(self).cyclic(), final(self)@),
            grown == (final(self)@.len() > old(self)@.len()),
            !grown ==> final(self)@ == old(self)@,
    {
        let n: usize = self.nodes.len();
        let ghost before = self.nodes@;
        let mut grown = false;
        let mut i: usize = 0;
        while i < n
            invariant
                i <= n,
                n == before.len(),
                self.cyclic == old(self).cyclic,
                forall|a: V, b: V| call_requires(*exceeds, (a, b)),
                forall|a: V, b: V| call_requires(*midpoint, (a, b)),
                grown == (self.nodes@.len() > n),
                self.nodes@.len() >= n,
                i < n ==> self.nodes@.take(n - i) == before.take(n - i),
                i < n ==> expands(*exceeds, *midpoint, before, n - i, self.nodes@.skip(n - i)),
                i == n ==> grows_to(*exceeds, *midpoint, before, self.cyclic, self.nodes@),
            decreases n - i,
        {
            let index: usize = n - i - 1;
            let ghost live = self.nodes@;
            assert(live[index as int] == live.take(n - i)[index as int]);
            if index > 0 {
                assert(live[index - 1] == live.take(n - i)[index - 1]);
            } else {
                proof {
                    lemma_expands_len(*exceeds, *midpoint, before, 1, live.skip(1));
                    if live.len() >= 2 && n >= 2 {
                        lemma_expands_last(*exceeds, *midpoint, before, 1, live.skip(1));
                        assert(live.last() == live.skip(1).last());
                    }
                }
            }
            let current = self.nodes[index];
            let ghost mut added = false;
            match prev_index(self.nodes.len(), self.cyclic, index) {
                Some(p) => {
                    let prev = self.nodes[p];
                    if exceeds(prev.position, current.position) {
                        let node = Node::new_with_position(midpoint(prev.position, current.position));
                        grown = true;
                        proof {
                            added = true;
                        }
                        if index == 0 {
                            self.nodes.push(node);
                        } else {
                            self.nodes.insert(index, node);
                        }
                    }
                },
                None => {},
            }
            proof {
                let now = self.nodes@;
                if index > 0 {
                    assert(now.take(index as int) =~= before.take(index as int)) by {
                        assert forall|j: int| 0 <= j < index implies now[j] == before[j] by {
                            assert(live.take(n - i)[j] == before.take(n - i)[j]);
                        }
                    }
                    let tail = now.skip(index as int);
                    if added {
                        assert(tail.skip(2) =~= live.skip(index + 1));
                    } else {
                        assert(tail.skip(1) =~= live.skip(index + 1));
                    }
                    assert(live.skip(n - i) =~= live.skip(index + 1));
                    assert(before[index as int] == before.take(n - i)[index as int]);
                    assert(before[index - 1] == before.take(n - i)[index - 1]);
                } else {
                    assert(live[0] == before[0]) by {
                        assert(live.take(1)[0] == before.take(1)[0]);
                    }
                    if added {
                        assert(now.subrange(1, now.len() - 1) =~= live.skip(1));
                    } else {
                        assert(now.skip(1) =~= live.skip(1));
                    }
                }
            }
            i = i + 1;
        }
        proof {
            lemma_grow_only_adds(*exceeds, *midpoint, before, self.cyclic, self.nodes@);
        }
        grown
    }

    /// One pruning pass: walks the path from the first node on and removes
    /// each node whose edge to its predecessor `too_short` finds too short.
    ///
    /// The path shrinks under the walk: the node behind a removed one moves
    /// into its place and the walk steps over it.
    pub fn prune<J: Fn(V, V) -> bool>(&mut self, too_short: &J)
        requires
            forall|a: V, b: V| call_requires(*too_short, (a, b)),
        ensures
            final(self).cyclic() == old(self).cyclic(),
            prunes_to(*too_short, old(self)@, old(self).cyclic(), final(self)@),
            final(self)@.len() <= old(self)@.len(),
    {
        let ghost before = self.nodes@;
        let ghost n = before.len() as int;
        let ghost mut j: int = 0;
        let mut index: usize = 0;
        while index < self.nodes.len()
            invariant
                n == before.len(),
                self.cyclic == old(self).cyclic,
                forall|a: V, b: V| call_requires(*too_short, (a, b)),
                self.nodes@.len() <= n,
                index <= self.nodes@.len() ==> {
                    &&& 0 <= j <= n
                    &&& (index == 0 <==> j == 0)
                    &&& self.nodes@.len() - index == n - j
                    &&& self.nodes@.skip(index as int) == before.skip(j)
                    &&& scans_to(*too_short, before, self.cyclic, j, self.nodes@.take(index as int))
                },
                index > self.nodes@.len() ==> {
                    &&& n >= 1
                    &&& goes(*too_short, before, self.cyclic, n - 1)
                    &&& scans_to(*too_short, before, self.cyclic, n - 1, self.nodes@)
                },
            decreases self.nodes@.len() + 1 - index,
        {
            let ghost live = self.nodes@;
            let ghost kept = live.take(index as int);
            proof {
                assert(live[index as int] == live.skip(index as int)[0]);
                assert(before[j] == before.skip(j)[0]);
                if index > 0 {
                    assert(kept.last() == live[index - 1]);
                } else {
                    assert(live =~= live.skip(0));
                    assert(before =~= before.skip(0));
                }
            }
            let current = self.nodes[index];
            let remove = match prev_index(self.nodes.len(), self.cyclic, index) {
                Some(p) => {
                    let prev = self.nodes[p];
                    too_short(prev.position, current.position)
                },
                None => false,
            };
            if remove {
                self.nodes.remove(index);
                proof {
                    let now = self.nodes@;
                    assert(goes(*too_short, before, self.cyclic, j));
                    if index < now.len() {
                        assert(now[index as int] == live[index + 1]);
                        assert(live[index + 1] == live.skip(index as int)[1]);
                        assert(before[j + 1] == before.skip(j)[1]);
                        assert(now.take(index + 1).drop_last() =~= kept);
                        let rest = now.skip(index + 1);
                        let goal = before.skip(j + 2);
                        assert(rest =~= goal) by {
                            assert forall|t: int| 0 <= t < rest.len() implies rest[t] == goal[t] by {
                                assert(now[index + 1 + t] == live.skip(index as int)[t + 2]);
                                assert(before[j + 2 + t] == before.skip(j)[t + 2]);
                            }
                        }
                        j = j + 2;
                    } else {
                        assert(now =~= kept);
                        j = j + 1;
                    }
                }
            } else {
                proof {
                    assert(stays(*too_short, before, self.cyclic, j));
                    assert(live.take(index + 1).drop_last() =~= kept);
                    let rest = live.skip(index + 1);
                    let goal = before.skip(j + 1);
                    assert(rest =~= goal) by {
                        assert forall|t: int| 0 <= t < rest.len() implies rest[t] == goal[t] by {
                            assert(live[index + 1 + t] == live.skip(index as int)[t + 1]);
                            assert(before[j + 1 + t] == before.skip(j)[t + 1]);
                        }
                    }
                    j = j + 1;
                }
            }
            index = index + 1;
        }
        proof {
            if index <= self.nodes@.len() {
                assert(self.nodes@.take(index as int) =~= self.nodes@);
            }
        }
    }

    /// Puts a new node on the middle of the edge that ends in node `index`.
    pub fn inject_at<M: Fn(V, V) -> V>(&mut self, index: usize, midpoint: &M)
        requires
            index < old(self)@.len(),
            forall|a: V, b: V| call_requires(*midpoint, (a, b)),
        ensures
            final(self).cyclic() == old(self).cyclic(),
            injects_at(*midpoint, old(self)@, old(self).cyclic(), index as int, final(self)@),
    {
        match self.get_prev_node(index) {
            Some(prev) => {
                let current = self.nodes[index];
                let node = Node::new_with_position(midpoint(prev.position, current.position));
                if index == 0 {
                    self.nodes.push(node);
                } else {
                    self.nodes.insert(index, node);
                }
            },
            None => {},
        }
    }

    /// Random injection: draws a ticket from `rng` and, where `chance`
    /// accepts it, puts a new node on the edge that ends in an inner node
    /// drawn from `rng`.
    ///
    /// A path of fewer than three nodes has no inner node; it is left alone
    /// and nothing is drawn.
    pub fn inject_random_nodes<C: Fn(u64) -> bool, M: Fn(V, V) -> V>(
        &mut self,
        rng: &mut StdRng,
        chance: &C,
        midpoint: &M,
    )
        requires
            forall|ticket: u64| call_requires(*chance, (ticket,)),
            forall|a: V, b: V| call_requires(*midpoint, (a, b)),
        ensures
            final(self).cyclic() == old(self).cyclic(),
            injects(*chance, *midpoint, old(self)@, old(self).cyclic(), final(self)@),
            old(self)@.len() < 3 ==> *final(rng) == *old(rng),
    {
        if self.nodes.len() < 3 {
            return ;
        }
        let ticket = random_ticket(rng);
        if !chance(ticket) {
            return ;
        }
        let index = random_inner_index(rng, self.nodes.len());
        self.inject_at(index, midpoint);
    }

    /// One round of forces: every node takes its step, in path order.
    pub fn move_nodes<
        I,
        A: Fn(Node<V>, Node<V>, Node<V>) -> Node<V>,
        S: Fn(Node<V>, &I) -> Node<V>,
        G: Fn(Node<V>) -> Node<V>,
        C: Fn(V) -> bool,
    >(&mut self, index: &I, align: &A, avoid: &S, integrate: &G, contains: &C)
        requires
            forall|n: Node<V>, p: Node<V>, q: Node<V>| call_requires(*align, (n, p, q)),
            forall|n: Node<V>| call_requires(*avoid, (n, index)),
            forall|n: Node<V>| call_requires(*integrate, (n,)),
            forall|v: V| call_requires(*contains, (v,)),
        ensures
            final(self).cyclic() == old(self).cyclic(),
            final(self)@.len() == old(self)@.len(),
            moves_to(*align, *avoid, *integrate, *contains, index, old(self)@, old(self).cyclic(), final(self)@),
    {
        let n: usize = self.nodes.len();
        let ghost before = self.nodes@;
        let mut i: usize = 0;
        while i < n
            invariant
                i <= n,
                n == before.len(),
                self.nodes@.len() == n,
                self.cyclic == old(self).cyclic,
                forall|n: Node<V>, p: Node<V>, q: Node<V>| call_requires(*align, (n, p, q)),
                forall|n: Node<V>| call_requires(*avoid, (n, index)),
                forall|n: Node<V>| call_requires(*integrate, (n,)),
                forall|v: V| call_requires(*contains, (v,)),
                forall|k: int| i <= k < n ==> self.nodes@[k] == before[k],
                passes(*align, *avoid, *integrate, *contains, index, before, self.cyclic, i as int, self.nodes@),
            decreases n - i,
        {
            let ghost live = self.nodes@;
            let neighbors = self.get_neighbor_nodes(i);
            let out = self.nodes[i].advance(
                neighbors.prev_node,
                neighbors.next_node,
                index,
                align,
                avoid,
                integrate,
                contains,
            );
            self.nodes.set(i, out);
            proof {
                assert(self.nodes@.update(i as int, before[i as int]) =~= live);
            }
            i = i + 1;
        }
    }

    /// One tick of this path: a round of forces, then a growth pass, a
    /// pruning pass and a random injection, in that order.
    pub fn update<
        I,
        A: Fn(Node<V>, Node<V>, Node<V>) -> Node<V>,
        S: Fn(Node<V>, &I) -> Node<V>,
        G: Fn(Node<V>) -> Node<V>,
        C: Fn(V) -> bool,
        L: Fn(V, V) -> bool,
        T: Fn(V, V) -> bool,
        M: Fn(V, V) -> V,
        R: Fn(u64) -> bool,
    >(
        &mut self,
        index: &I,
        rng: &mut StdRng,
        align: &A,
        avoid: &S,
        integrate: &G,
        contains: &C,
        exceeds: &L,
        too_short: &T,
        midpoint: &M,
        chance: &R,
    )
        requires
            forall|n: Node<V>, p: Node<V>, q: Node<V>| call_requires(*align, (n, p, q)),
            forall|n: Node<V>| call_requires(*avoid, (n, index)),
            forall|n: Node<V>| call_requires(*integrate, (n,)),
            forall|v: V| call_requires(*contains, (v,)),
            forall|a: V, b: V| call_requires(*exceeds, (a, b)),
            forall|a: V, b: V| call_requires(*too_short, (a, b)),
            forall|a: V, b: V| call_requires(*midpoint, (a, b)),
            forall|ticket: u64| call_requires(*chance, (ticket,)),
        ensures
            final(self).cyclic() == old(self).cyclic(),
            updates_to(
                *align,
                *avoid,
                *integrate,
                *contains,
                *exceeds,
                *too_short,
                *midpoint,
                *chance,
                index,
                old(self).cyclic(),
                old(self)@,
                final(self)@,
            ),
    {
        self.move_nodes(index, align, avoid, integrate, contains);
        let ghost moved = self@;
        self.grow(exceeds, midpoint);
        let ghost grown = self@;
        self.prune(too_short);
        let ghost pruned = self@;
        self.inject_random_nodes(rng, chance, midpoint);
        assert(phases(
            *align,
            *avoid,
            *integrate,
            *contains,
            *exceeds,
            *too_short,
            *midpoint,
            *chance,
            index,
            old(self).cyclic(),
            old(self)@,
            moved,
            grown,
            pruned,
            self@,
        ));
    }

    /// The positions of the nodes, in path order.
    pub fn node_positions(&self) -> (positions: Vec<V>)
        ensures
            positions@ == positions_of(self@),
    {
        let mut positions: Vec<V> = Vec::new();
        let mut i: usize = 0;
        while i < self.nodes.len()
            invariant
                i <= self.nodes@.len(),
                positions@ == positions_of(self.nodes@.take(i as int)),
            decreases self.nodes@.len() - i,
        {
            positions.push(self.nodes[i].position);
            proof {
                assert(positions@ =~= positions_of(self.nodes@.take(i + 1)));
            }
            i = i + 1;
        }
        proof {
            assert(self.nodes@.take(i as int) =~= self.nodes@);
        }
        positions
    }

    /// Grows the path until a pass finds no edge too long.
    ///
    /// Every pass but the last makes the path longer, and a path cannot grow
    /// beyond what the machine can index, so the passes come to an end.
    pub fn preprocess<J: Fn(V, V) -> bool, M: Fn(V, V) -> V>(&mut self, exceeds: &J, midpoint: &M)
        requires
            forall|a: V, b: V| call_requires(*exceeds, (a, b)),
            forall|a: V, b: V| call_requires(*midpoint, (a, b)),
        ensures
            final(self).cyclic() == old(self).cyclic(),
            settles_to(*exceeds, *midpoint, old(self)@, old(self).cyclic(), final(self)@),
            grows_to(*exceeds, *midpoint, final(self)@, final(self).cyclic(), final(self)@),
            final(self)@.len() >= old(self)@.len(),
    {
        let ghost before = self.nodes@;
        let ghost cyclic = self.cyclic;
        let ghost mut rounds: nat = 0;
        let mut has_grown = true;
        while has_grown
            invariant
                self.cyclic == cyclic,
                forall|a: V, b: V| call_requires(*exceeds, (a, b)),
                forall|a: V, b: V| call_requires(*midpoint, (a, b)),
                self.nodes@.len() >= before.len(),
                has_grown ==> forall|k: nat, out: Seq<Node<V>>| #[trigger]
                    densifies(*exceeds, *midpoint, self.nodes@, cyclic, k, out) ==> densifies(
                        *exceeds,
                        *midpoint,
                        before,
                        cyclic,
                        k + rounds,
                        out,
                    ),
                !has_grown ==> densifies(*exceeds, *midpoint, before, cyclic, rounds, self.nodes@),
            decreases usize::MAX - self.nodes.len(), if has_grown { 1int } else { 0int },
        {
            let ghost live = self.nodes@;
            has_grown = self.grow(exceeds, midpoint);
            proof {
                let now = self.nodes@;
                if has_grown {
                    assert forall|k: nat, out: Seq<Node<V>>| #[trigger]
                        densifies(*exceeds, *midpoint, now, cyclic, k, out) implies densifies(
                        *exceeds,
                        *midpoint,
                        before,
                        cyclic,
                        k + rounds + 1,
                        out,
                    ) by {
                        assert(densifies(*exceeds, *midpoint, live, cyclic, k + 1, out));
                    }
                    rounds = rounds + 1;
                } else {
                    assert(densifies(*exceeds, *midpoint, live, cyclic, 0, live));
                }
            }
        }
        proof {
            lemma_settled_is_stable(*exceeds, *midpoint, before, cyclic, rounds, self.nodes@);
        }
    }
}

} // verus!
