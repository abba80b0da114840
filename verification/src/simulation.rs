//! The orchestrator: a list of paths that advance together, tick by tick.

use vstd::prelude::*;
use rand::rngs::StdRng;
use crate::growth::settles_to;
use crate::node::Node;
use crate::path::Path;
use crate::path::positions_of;
use crate::tick::updates_to;

verus! {

/// The positions of all nodes of all `paths`, path after path.
pub open spec fn all_positions<V>(paths: Seq<Path<V>>) -> Seq<V>
    decreases paths.len(),
{
    if paths.len() == 0 {
        Seq::empty()
    } else {
        all_positions(paths.drop_last()) + positions_of(paths.last()@)
    }
}

/// `index` is a spatial index that `build` may make of the positions of all
/// nodes of `paths`, handed to it in the vector `points`.
pub open spec fn indexes<V, I, B: Fn(Vec<V>) -> I>(build: B, paths: Seq<Path<V>>, points: Vec<V>, index: I) -> bool {
    &&& points@ == all_positions(paths)
    &&& call_ensures(build, (points,), index)
}

/// `after` is what one tick may make of the paths `before` when every path
/// is updated against the same spatial index: as many paths, each open or
/// closed as it was, each updated on its own.
pub open spec fn advances<
    V: Default,
    I,
    A: Fn(Node<V>, Node<V>, Node<V>) -> Node<V>,
    S: Fn(Node<V>, &I) -> Node<V>,
    G: Fn(Node<V>) -> Node<V>,
    C: Fn(V) -> bool,
    L: Fn(V, V) -> bool,
    T: Fn(V, V) -> bool,
    M: Fn(V, V) -> V,
    R: Fn(u64) -> bool,
>(
    align: A,
    avoid: S,
    integrate: G,
    contains: C,
    exceeds: L,
    too_short: T,
    midpoint: M,
    chance: R,
    index: &I,
    before: Seq<Path<V>>,
    after: Seq<Path<V>>,
) -> bool {
    &&& after.len() == before.len()
    &&& forall|i: int|
        0 <= i < before.len() ==> {
            &&& (#[trigger] after[i]).cyclic() == before[i].cyclic()
            &&& updates_to(
                align,
                avoid,
                integrate,
                contains,
                exceeds,
                too_short,
                midpoint,
                chance,
                index,
                before[i].cyclic(),
                before[i]@,
                after[i]@,
            )
        }
}

/// `after` is what one tick may make of the paths `before`: a spatial index
/// is built of all positions as they are before anything moves, and every
/// path is updated against that one index.
pub open spec fn ticks_to<
    V: Default,
    I,
    B: Fn(Vec<V>) -> I,
    A: Fn(Node<V>, Node<V>, Node<V>) -> Node<V>,
    S: Fn(Node<V>, &I) -> Node<V>,
    G: Fn(Node<V>) -> Node<V>,
    C: Fn(V) -> bool,
    L: Fn(V, V) -> bool,
    T: Fn(V, V) -> bool,
    M: Fn(V, V) -> V,
    R: Fn(u64) -> bool,
>(
    build: B,
    align: A,
    avoid: S,
    integrate: G,
    contains: C,
    exceeds: L,
    too_short: T,
    midpoint: M,
    chance: R,
    before: Seq<Path<V>>,
    after: Seq<Path<V>>,
) -> bool {
    exists|points: Vec<V>, index: I|
        {
            &&& #[trigger] indexes(build, before, points, index)
            &&& advances(
                align,
                avoid,
                integrate,
                contains,
                exceeds,
                too_short,
                midpoint,
                chance,
                &index,
                before,
                after,
            )
        }
}

/// What a renderer gets of one path: where its nodes are, in order, and
/// whether the last is joined to the first.
#[derive(Clone, Debug, PartialEq)]
pub struct PathState<V> {
    pub positions: Vec<V>,
    pub cyclic: bool,
}

/// A list of paths that advance together, and the generator that their
/// random injections draw from. The order of the list is the order in which
/// the paths are updated and drawn.
pub struct GrowthSimulation<V> {
    paths: Vec<Path<V>>,
    rng: StdRng,
}

impl<V> View for GrowthSimulation<V> {
    type V = Seq<Path<V>>;

    /// The paths, in update order.
    closed spec fn view(&self) -> Seq<Path<V>> {
        self.paths@
    }
}

impl<V> GrowthSimulation<V> {
    /// The generator that random injections draw from.
    pub closed spec fn generator(&self) -> StdRng {
        self.rng
    }
}

impl<V: Copy + Default> GrowthSimulation<V> {
    /// A simulation without paths, which will draw from `rng`.
    pub fn new(rng: StdRng) -> (simulation: Self)
        ensures
            simulation@.len() == 0,
            simulation.generator() == rng,
    {
        GrowthSimulation { paths: Vec::new(), rng }
    }

    /// Appends `path` to the list.
    pub fn add_path(&mut self, path: Path<V>)
        ensures
            final(self)@ == old(self)@.push(path),
            final(self).generator() == old(self).generator(),
    {
        self.paths.push(path);
    }

    /// Discards all paths.
    pub fn reset(&mut self)
        ensures
            final(self)@.len() == 0,
            final(self).generator() == old(self).generator(),
    {
        self.paths = Vec::new();
    }

    /// Number of paths.
    pub fn len(&self) -> (len: usize)
        ensures
            len == self@.len(),
    {
        self.paths.len()
    }

    /// The positions of the nodes of every path, one vector for each path.
    pub fn path_points(&self) -> (points: Vec<Vec<V>>)
        ensures
            points@.len() == self@.len(),
            forall|i: int| 0 <= i < self@.len() ==> (#[trigger] points@[i])@ == positions_of(self@[i]@),
    {
        let mut points: Vec<Vec<V>> = Vec::new();
        let mut i: usize = 0;
        while i < self.paths.len()
            invariant
                i <= self.paths@.len(),
                points@.len() == i,
                forall|k: int| 0 <= k < i ==> (#[trigger] points@[k])@ == positions_of(self.paths@[k]@),
            decreases self.paths@.len() - i,
        {
            points.push(self.paths[i].node_positions());
            i = i + 1;
        }
        points
    }

    /// The positions of all nodes, path after path.
    pub fn all_points(&self) -> (points: Vec<V>)
        ensures
            points@ == all_positions(self@),
    {
        let mut points: Vec<V> = Vec::new();
        let mut i: usize = 0;
        while i < self.paths.len()
            invariant
                i <= self.paths@.len(),
                points@ == all_positions(self.paths@.take(i as int)),
            decreases self.paths@.len() - i,
        {
            let mut positions = self.paths[i].node_positions();
            points.append(&mut positions);
            proof {
                assert(self.paths@.take(i + 1).drop_last() =~= self.paths@.take(i as int));
            }
            i = i + 1;
        }
        proof {
            assert(self.paths@.take(i as int) =~= self.paths@);
        }
        points
    }

    /// What a renderer needs: of every path the positions of its nodes, in
    /// order, and whether it is closed.
    pub fn get_state(&self) -> (state: Vec<PathState<V>>)
        ensures
            state@.len() == self@.len(),
            forall|i: int|
                0 <= i < self@.len() ==> {
                    &&& (#[trigger] state@[i]).positions@ == positions_of(self@[i]@)
                    &&& state@[i].cyclic == self@[i].cyclic()
                },
    {
        let mut state: Vec<PathState<V>> = Vec::new();
        let mut i: usize = 0;
        while i < self.paths.len()
            invariant
                i <= self.paths@.len(),
                state@.len() == i,
                forall|k: int|
                    0 <= k < i ==> {
                        &&& (#[trigger] state@[k]).positions@ == positions_of(self.paths@[k]@)
                        &&& state@[k].cyclic == self.paths@[k].cyclic()
                    },
            decreases self.paths@.len() - i,
        {
            state.push(PathState { positions: self.paths[i].node_positions(), cyclic: self.paths[i].is_cyclic() });
            i = i + 1;
        }
        state
    }

    /// Starts over from `initial`: the paths there were are discarded, and
    /// `initial` is grown until none of its edges is too long.
    pub fn setup<L: Fn(V, V) -> bool, M: Fn(V, V) -> V>(&mut self, initial: Path<V>, exceeds: &L, midpoint: &M)
        requires
            forall|a: V, b: V| call_requires(*exceeds, (a, b)),
            forall|a: V, b: V| call_requires(*midpoint, (a, b)),
        ensures
            final(self)@.len() == 1,
            final(self)@[0].cyclic() == initial.cyclic(),
            settles_to(*exceeds, *midpoint, initial@, initial.cyclic(), final(self)@[0]@),
            final(self).generator() == old(self).generator(),
    {
        let mut path = initial;
        path.preprocess(exceeds, midpoint);
        self.paths = Vec::new();
        self.paths.push(path);
    }

    /// One tick: builds a spatial index of where all nodes are now, then
    /// updates every path against it, in list order.
    pub fn update<
        I,
        B: Fn(Vec<V>) -> I,
        A: Fn(Node<V>, Node<V>, Node<V>) -> Node<V>,
        S: Fn(Node<V>, &I) -> Node<V>,
        G: Fn(Node<V>) -> Node<V>,
        C: Fn(V) -> bool,
        L: Fn(V, V) -> bool,
        T: Fn(V, V) -> bool,
        M: Fn(V, V) -> V,
        R: Fn(u64) -> bool,
    >(
        &mut self,
        build: &B,
        align: &A,
        avoid: &S,
        integrate: &G,
        contains: &C,
        exceeds: &L,
        too_short: &T,
        midpoint: &M,
        chance: &R,
    )
        requires
            forall|points: Vec<V>| call_requires(*build, (points,)),
            forall|n: Node<V>, p: Node<V>, q: Node<V>| call_requires(*align, (n, p, q)),
            forall|n: Node<V>, index: &I| call_requires(*avoid, (n, index)),
            forall|n: Node<V>| call_requires(*integrate, (n,)),
            forall|v: V| call_requires(*contains, (v,)),
            forall|a: V, b: V| call_requires(*exceeds, (a, b)),
            forall|a: V, b: V| call_requires(*too_short, (a, b)),
            forall|a: V, b: V| call_requires(*midpoint, (a, b)),
            forall|ticket: u64| call_requires(*chance, (ticket,)),
        ensures
            ticks_to(
                *build,
                *align,
                *avoid,
                *integrate,
                *contains,
                *exceeds,
                *too_short,
                *midpoint,
                *chance,
                old(self)@,
                final(self)@,
            ),
    {
        let ghost before = self.paths@;
        let points = self.all_points();
        let index = build(points);
        let n: usize = self.paths.len();
        let mut i: usize = 0;
        while i < n
            invariant
                i <= n,
                n == before.len(),
                self.paths@.len() == n,
                forall|n: Node<V>, p: Node<V>, q: Node<V>| call_requires(*align, (n, p, q)),
                forall|n: Node<V>, index: &I| call_requires(*avoid, (n, index)),
                forall|n: Node<V>| call_requires(*integrate, (n,)),
                forall|v: V| call_requires(*contains, (v,)),
                forall|a: V, b: V| call_requires(*exceeds, (a, b)),
                forall|a: V, b: V| call_requires(*too_short, (a, b)),
                forall|a: V, b: V| call_requires(*midpoint, (a, b)),
                forall|ticket: u64| call_requires(*chance, (ticket,)),
                forall|k: int| i <= k < n ==> self.paths@[k] == before[k],
                forall|k: int|
                    0 <= k < i ==> {
                        &&& (#[trigger] self.paths@[k]).cyclic() == before[k].cyclic()
                        &&& updates_to(
                            *align,
                            *avoid,
                            *integrate,
                            *contains,
                            *exceeds,
                            *too_short,
                            *midpoint,
                            *chance,
                            &index,
                            before[k].cyclic(),
                            before[k]@,
                            self.paths@[k]@,
                        )
                    },
            decreases n - i,
        {
            self.paths[i].update(
                &index,
                &mut self.rng,
                align,
                avoid,
                integrate,
                contains,
                exceeds,
                too_short,
                midpoint,
                chance,
            );
            i = i + 1;
        }
        proof {
            assert(indexes(*build, before, points, index));
        }
    }
}

} // verus!
