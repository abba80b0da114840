//! Topology engine for differential line growth.
//!
//! A path is an ordered, optionally cyclic sequence of nodes. The engine keeps
//! the path's topology in shape while the nodes move: it subdivides edges that
//! have grown too long, merges edges that have become too short, injects
//! nodes at random places and freezes nodes that leave the bounds.
//!
//! The engine never computes with coordinates itself. It is generic over the
//! vector type `V`, and every geometric or physical judgement (is this edge
//! too long, where is its midpoint, how does a node accelerate) is a function
//! value handed in by the caller. The contracts state, in terms of what those
//! function values return, exactly which nodes a path holds afterwards.
//!
//! - [`node`]: the point mass.
//! - [`adjacency`]: which nodes are neighbours.
//! - [`path`]: the sequence of nodes and the operations on it.
//! - [`motion`], [`growth`], [`pruning`], [`injection`]: what each phase of
//!   a tick makes of a path, and the laws that hold of it.
//! - [`tick`]: the four phases in their order.
//! - [`order`]: one sequence lying within another, the notion behind the
//!   laws on which nodes a phase keeps.
//! - [`simulation`]: the list of paths that advance together.
//! - [`random`]: the random draw behind injection.
//! - [`spatial_index`], [`bounds`], [`config`], [`draw`]: the linear-scan
//!   index, the unbounded region, the choices that shape a simulation, and
//!   the edges that a renderer strokes.

pub mod adjacency;
pub mod bounds;
pub mod config;
pub mod draw;
pub mod growth;
pub mod injection;
pub mod motion;
pub mod node;
pub mod order;
pub mod path;
pub mod pruning;
pub mod random;
pub mod simulation;
pub mod spatial_index;
pub mod tick;
