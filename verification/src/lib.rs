//! Orbital-mechanics engine: hierarchical body clustering, a symplectic
//! integrator, circular/escape-velocity solvers, collision detection and an
//! energy-conservation diagnostic, all over an exact integer-based scalar
//! arithmetic so that every operation has a precise, machine-checked contract.

pub mod body;
pub mod physics;
pub mod scalar;
pub mod sim;
pub mod surface;
pub mod tree;
pub mod util;
pub mod vector;
