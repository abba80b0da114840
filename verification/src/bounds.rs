//! The bounds that hold every point.

use vstd::prelude::*;

verus! {

/// No bounds at all: the whole plane is inside, so no node ever freezes.
#[derive(Clone, Copy, Debug, PartialEq, Eq, Structural)]
pub struct NoBounds {}

impl NoBounds {
    /// Whether `point` is inside. It always is.
    pub fn contains<V>(&self, point: V) -> (inside: bool)
        ensures
            inside,
    {
        true
    }
}

} // verus!
