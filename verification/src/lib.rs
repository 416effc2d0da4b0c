//! Reverse-mode automatic differentiation over scalar values.
//!
//! A computation graph is an append-only arena of nodes; each node records
//! its scalar value, the operation that produced it, and the arena indices of
//! its operands.  Operands are always created strictly before the nodes that
//! consume them, so the arena order is a topological order of the graph, and
//! the backward pass can propagate gradients by a single sweep over the arena
//! from the seeded terminal node down towards the leaves.

pub mod backprop;
pub mod graph;
pub mod laws;
pub mod net;
pub mod node;
pub mod power;
