//! A point mass on a path.

use vstd::prelude::*;

verus! {

/// `v` is a value that `V::default()` may return: the zero vector of `V`.
pub open spec fn is_zero<V: Default>(v: V) -> bool {
    call_ensures(V::default, (), v)
}

/// A point mass: where it is, how it moves, the forces gathered for the next
/// integration step, and whether it has been frozen for good.
#[derive(Clone, Copy, Debug, PartialEq)]
pub struct Node<V> {
    pub position: V,
    pub velocity: V,
    pub acceleration: V,
    pub fixed: bool,
}

/// `node` is a newly made node at `position`: at rest, without forces, free.
pub open spec fn rests_at<V: Default>(node: Node<V>, position: V) -> bool {
    &&& node.position == position
    &&& is_zero(node.velocity)
    &&& is_zero(node.acceleration)
    &&& !node.fixed
}

impl<V: Copy + Default> Node<V> {
    /// A free node at rest at the zero vector.
    pub fn new() -> (node: Self)
        ensures
            is_zero(node.position),
            rests_at(node, node.position),
    {
        Node {
            position: V::default(),
            velocity: V::default(),
            acceleration: V::default(),
            fixed: false,
        }
    }

    /// A free node at rest at `position`.
    pub fn new_with_position(position: V) -> (node: Self)
        ensures
            rests_at(node, position),
    {
        Node { position, velocity: V::default(), acceleration: V::default(), fixed: false }
    }

    /// A free node at `position` that moves with `velocity`.
    pub fn new_with_position_and_velocity(position: V, velocity: V) -> (node: Self)
        ensures
            node.position == position,
            node.velocity == velocity,
            is_zero(node.acceleration),
            !node.fixed,
    {
        Node { position, velocity, acceleration: V::default(), fixed: false }
    }

    /// The same node, frozen.
    pub fn frozen(self) -> (node: Self)
        ensures
            node == self.freeze(),
    {
        Node { position: self.position, velocity: self.velocity, acceleration: self.acceleration, fixed: true }
    }
}

impl<V> Node<V> {
    /// The node with its `fixed` flag set and nothing else changed.
    pub open spec fn freeze(self) -> Self {
        Node { position: self.position, velocity: self.velocity, acceleration: self.acceleration, fixed: true }
    }
}

impl<V: Copy + Default> Default for Node<V> {
    fn default() -> (node: Self)
        ensures
            is_zero(node.position),
            rests_at(node, node.position),
    {
        Node::new()
    }
}

} // verus!
