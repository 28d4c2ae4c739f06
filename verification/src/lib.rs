//! A 2D particle physics library: smoothed-particle-hydrodynamics (SPH)
//! fluid simulation with a spatial hash for neighbor search, plus a
//! rigid-disc elastic collision mode.
//!
//! All state is kept in fixed-point integer quantities so that every
//! computation has an exact, machine-checked contract.  Positions and
//! velocities are `i64` world units; kernel values and forces carry
//! documented power-of-two scale factors (see `fixed` and `kernels`).

pub mod fixed;
pub mod kernels;
pub mod grid;
pub mod particle;
pub mod solver;
pub mod integrate;
pub mod collision;
pub mod external;
pub mod sim;
