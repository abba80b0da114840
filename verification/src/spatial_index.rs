//! The linear-scan strategy for finding the neighbours of a position.

use vstd::prelude::*;

verus! {

/// The strategies for finding the points near a position.
#[derive(Clone, Copy, Debug, PartialEq, Eq, Structural)]
pub enum SpatialIndexType {
    /// Hand out every point: the caller filters by distance anyway.
    Linear,
    /// Keep the points in a balanced spatial tree and query it by box.
    RTree,
}

/// A spatial index that is none: it holds the points as they came and
/// answers every query with all of them, whatever the position and radius.
#[derive(Clone, Debug, PartialEq)]
pub struct NoIndex<P> {
    others: Vec<P>,
}

impl<P> View for NoIndex<P> {
    type V = Seq<P>;

    /// The points held, in the order in which they came.
    closed spec fn view(&self) -> Seq<P> {
        self.others@
    }
}

impl<P> NoIndex<P> {
    /// An index without points.
    pub fn new() -> (index: Self)
        ensures
            index@.len() == 0,
    {
        NoIndex { others: Vec::new() }
    }

    /// Replaces the points held by `points`.
    pub fn index(&mut self, points: Vec<P>)
        ensures
            final(self)@ == points@,
    {
        self.others = points;
    }

    /// The points near `position`: for this strategy, all points held.
    pub fn get_neighbors<Q, R>(&self, position: &Q, radius: R) -> (neighbors: Vec<&P>)
        ensures
            neighbors@.len() == self@.len(),
            forall|i: int| 0 <= i < self@.len() ==> *(#[trigger] neighbors@[i]) == self@[i],
    {
        let mut neighbors: Vec<&P> = Vec::new();
        let mut i: usize = 0;
        while i < self.others.len()
            invariant
                i <= self.others@.len(),
                neighbors@.len() == i,
                forall|k: int| 0 <= k < i ==> *(#[trigger] neighbors@[k]) == self.others@[k],
            decreases self.others@.len() - i,
        {
            neighbors.push(&self.others[i]);
            i = i + 1;
        }
        neighbors
    }
}

} // verus!
