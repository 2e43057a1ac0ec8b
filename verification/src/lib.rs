//! A scalar-valued reverse-mode automatic-differentiation engine.
//!
//! Expressions over shared scalar nodes build an acyclic computation graph
//! as a side effect of ordinary arithmetic; a single backward pass from a
//! chosen root walks the graph in reverse topological order and accumulates
//! exact local-rule gradient contributions into every node it reaches.

pub mod fp;
pub mod value;
pub mod backward;
pub mod weights;
pub mod laws;
