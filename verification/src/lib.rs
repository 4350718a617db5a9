//! Barnes-Hut gravitational n-body core.
//!
//! The library approximates gravitational forces between many point masses
//! with a hierarchical spatial decomposition: an adaptive quadtree that
//! aggregates distant clusters of mass into single pseudo-bodies, plus the
//! pairwise force kernel and the per-step symplectic integrator that
//! consumes the tree's answers.
//!
//! All quantities (coordinates, masses, forces, the opening-angle threshold
//! and the time step) are fixed-point numbers: an `i64` counts units of
//! `1 / SCALE`. This keeps every operation exact integer arithmetic, so the
//! contracts below pin results down to the unit, including the direction of
//! every rounding.

pub mod body;
pub mod kernel;
pub mod num;
pub mod quad;
pub mod sim;
pub mod tree;
