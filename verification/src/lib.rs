//! Sparse cellular automata on an unbounded D-dimensional integer lattice.
//!
//! A simulation holds the set of live coordinates only; each generation
//! evaluates exactly the live cells and their Moore neighbors (the frontier)
//! and applies a pluggable transition rule to produce the next live set.

pub mod laws;
pub mod life;
pub mod point;
pub mod session;
