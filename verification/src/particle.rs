//! Particle state and simulation configuration.
//!
//! World units: positions and radii are `i64` world units, velocities
//! are units per second, time steps are milliseconds.  Densities carry
//! the scale `KERNEL_SCALE / DENSITY_SCALE`; forces carry the scale
//! described in `solver`.

use vstd::prelude::*;
use crate::kernels::valid_h;

verus! {

/// Largest magnitude the integrator lets a velocity component reach
/// (2^24 units per second); a numeric guard, far above any speed a
/// stable simulation produces.
pub const VEL_MAX: i64 = 16777216;

/// Largest magnitude of a position component inside the boundary
/// (2^24); half-extents of the simulation box must not exceed it.
pub const POS_MAX: i64 = 16777216;

/// Most particles a simulation may hold (2^11).
pub const N_MAX: usize = 2048;

/// Largest accepted particle mass (2^10).
pub const MASS_MAX: i64 = 1024;

/// Largest accepted pressure stiffness multiplier (2^12).
pub const PRESSURE_MULT_MAX: i64 = 4096;

/// Largest accepted rest density (2^32).
pub const REST_DENSITY_MAX: i64 = 4294967296;

/// Largest density the solver can produce (2^32).
pub const DENSITY_MAX: i64 = 4294967296;

/// Largest pressure the solver can produce (2^44).
pub const PRESSURE_MAX: i64 = 17592186044416;

/// Largest force-component magnitude the solver can produce (2^113).
pub const FORCE_MAX: i128 = 10384593717069655257060992658440192;

/// Largest accepted gravity (2^20 units per second squared).
pub const GRAVITY_MAX: i64 = 1048576;

/// Denominator of the boundary damping coefficient.
pub const DAMPING_DEN: i64 = 1024;

/// Largest accepted frame time, in milliseconds.
pub const DT_MAX: i64 = 1000;

/// Largest accepted substep count.
pub const SUBSTEP_MAX: i64 = 16;

/// Largest accepted radial-tool strength (2^20).
pub const MOUSE_STRENGTH_MAX: i64 = 1048576;

/// Per-particle constants and solver outputs.
#[derive(Clone, Copy)]
pub struct Particle {
    pub radius: i64,
    pub pressure: i64,
    pub density: i64,
    pub mass: i64,
}

/// Velocity in world units per second.
#[derive(Clone, Copy)]
pub struct Velocity {
    pub x: i64,
    pub y: i64,
}

/// Accumulated force for the current frame.
#[derive(Clone, Copy)]
pub struct Force {
    pub x: i128,
    pub y: i128,
}

/// Position in world units.
#[derive(Clone, Copy)]
pub struct Position {
    pub x: i64,
    pub y: i64,
}

/// Complete per-particle state.
#[derive(Clone, Copy)]
pub struct Body {
    pub particle: Particle,
    pub position: Position,
    pub velocity: Velocity,
    pub force: Force,
}

/// Range invariant every stored particle obeys between frames.
pub open spec fn body_ok(b: Body) -> bool {
    &&& -POS_MAX <= b.position.x <= POS_MAX
    &&& -POS_MAX <= b.position.y <= POS_MAX
    &&& -VEL_MAX <= b.velocity.x <= VEL_MAX
    &&& -VEL_MAX <= b.velocity.y <= VEL_MAX
    &&& 1 <= b.particle.mass <= MASS_MAX
    &&& 0 <= b.particle.radius <= POS_MAX
    &&& 0 <= b.particle.density <= DENSITY_MAX
    &&& 0 <= b.particle.pressure <= PRESSURE_MAX
    &&& -FORCE_MAX <= b.force.x <= FORCE_MAX
    &&& -FORCE_MAX <= b.force.y <= FORCE_MAX
}

/// All particles obey the range invariant and the population fits the
/// accepted maximum.
pub open spec fn bodies_ok(bs: Seq<Body>) -> bool {
    &&& bs.len() <= N_MAX
    &&& forall|i: int| 0 <= i < bs.len() ==> body_ok(#[trigger] bs[i])
}

/// Constants of one simulation run.
#[derive(Clone, Copy)]
pub struct SimConfig {
    /// Downward gravity, world units per second squared.
    pub gravity: i64,
    /// Boundary damping numerator over `DAMPING_DEN`; below the
    /// denominator, so wall bounces never gain speed.
    pub damping: i64,
    /// Smoothing radius, equal to the spatial-hash cell size.
    pub h: i64,
    /// Pressure stiffness multiplier of the equation of state.
    pub pressure_multiplier: i64,
    /// Density at which pressure is zero.
    pub rest_density: i64,
    /// Disc radius used for boundary clamping and rigid collisions.
    pub particle_radius: i64,
    /// Uniform mass given to particles created by `setup_particles`.
    pub particle_mass: i64,
    /// Number of integration substeps per frame.
    pub substeps: i64,
    /// Effect radius of the radial force tool.
    pub mouse_radius: i64,
    /// Strength of the radial force tool.
    pub mouse_strength: i64,
    /// Velocity amplitude of the tool's falloff term.
    pub mouse_amp: i64,
}

/// Validity of a configuration; simulations refuse to start on
/// anything outside these ranges.
pub open spec fn config_valid(c: SimConfig) -> bool {
    &&& valid_h(c.h as int)
    &&& 0 <= c.gravity <= GRAVITY_MAX
    &&& 0 <= c.damping <= DAMPING_DEN
    &&& 1 <= c.pressure_multiplier <= PRESSURE_MULT_MAX
    &&& 0 <= c.rest_density <= REST_DENSITY_MAX
    &&& 0 <= c.particle_radius <= POS_MAX
    &&& 1 <= c.particle_mass <= MASS_MAX
    &&& 1 <= c.substeps <= SUBSTEP_MAX
    &&& 1 <= c.mouse_radius <= POS_MAX
    &&& 0 <= c.mouse_strength <= MOUSE_STRENGTH_MAX
    &&& 0 <= c.mouse_amp <= VEL_MAX
}

/// Setup-time validation of a configuration: a run only starts when
/// every parameter is in range.
pub fn check_config(c: &SimConfig) -> (ok: bool)
    ensures
        ok == config_valid(*c),
{
    64 <= c.h && c.h <= 1024 && 0 <= c.gravity && c.gravity <= GRAVITY_MAX && 0 <= c.damping
        && c.damping <= DAMPING_DEN && 1 <= c.pressure_multiplier && c.pressure_multiplier
        <= PRESSURE_MULT_MAX && 0 <= c.rest_density && c.rest_density <= REST_DENSITY_MAX && 0
        <= c.particle_radius && c.particle_radius <= POS_MAX && 1 <= c.particle_mass
        && c.particle_mass <= MASS_MAX && 1 <= c.substeps && c.substeps <= SUBSTEP_MAX && 1
        <= c.mouse_radius && c.mouse_radius <= POS_MAX && 0 <= c.mouse_strength
        && c.mouse_strength <= MOUSE_STRENGTH_MAX && 0 <= c.mouse_amp && c.mouse_amp <= VEL_MAX
}

} // verus!
