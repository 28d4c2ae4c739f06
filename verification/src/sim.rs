//! Frame orchestration: initialization, the per-frame solver passes,
//! and the frame step for both operating modes.

use vstd::prelude::*;
use crate::particle::Body;
use crate::particle::Particle;
use crate::particle::Position;
use crate::particle::Velocity;
use crate::particle::Force;
use crate::particle::SimConfig;
use crate::particle::config_valid;
use crate::particle::check_config;
use crate::particle::bodies_ok;
use crate::particle::body_ok;
use crate::particle::POS_MAX;
use crate::particle::N_MAX;
use crate::particle::DT_MAX;
use crate::particle::FORCE_MAX;
use crate::grid::within_range;
use crate::grid::build_grid;
use crate::solver::predict_positions;
use crate::solver::predict_seq;
use crate::solver::update_densities;
use crate::solver::update_forces;
use crate::solver::clear_forces;
use crate::solver::mass_seq;
use crate::solver::density_seq;
use crate::solver::pressure_seq;
use crate::solver::density_spec;
use crate::solver::density_raw;
use crate::solver::density_term;
use crate::solver::force_spec;
use crate::solver::force_raw;
use crate::solver::force_term;
use crate::solver::pressure_spec;
use crate::solver::lemma_density_raw_flat;
use crate::solver::lemma_force_raw_flat;
use crate::external::MouseMode;
use crate::external::apply_mouse_force;
use crate::external::mouse_add_spec;
use crate::external::mode_sign;
use crate::integrate::move_particles;
use crate::integrate::substeps_spec;
use crate::integrate::lemma_substep_ok;
use crate::integrate::bounds_valid;
use crate::collision::resolve_collisions;
use crate::collision::collide_all_spec;
use crate::fixed::div_floor_i64;
use crate::fixed::clamp_spec;
use vstd::arithmetic::div_mod::lemma_fundamental_div_mod;
use vstd::arithmetic::div_mod::lemma_fundamental_div_mod_converse;
use vstd::arithmetic::div_mod::lemma_div_is_ordered;
use vstd::arithmetic::mul::lemma_mul_is_commutative;
use vstd::arithmetic::mul::lemma_mul_inequality;

verus! {

/// A request to apply the radial force tool this frame, in world
/// coordinates.
#[derive(Clone, Copy)]
pub struct MouseInput {
    pub x: i64,
    pub y: i64,
    pub mode: MouseMode,
}

/// Number of lattice points per axis laid over
/// `[-half_extent, half_extent]` at the given step.
pub open spec fn lattice_count(half_extent: int, step: int) -> int {
    2 * half_extent / step + 1
}

/// Population size of the initial lattice: the full square, capped
/// at `N_MAX`.
pub open spec fn lattice_len(half_extent: int, step: int) -> int {
    let cnt = lattice_count(half_extent, step);
    if cnt * cnt <= N_MAX {
        cnt * cnt
    } else {
        N_MAX as int
    }
}

/// Create the initial particle lattice: a square grid of discs with
/// the configured radius and mass, spaced `2 * radius + 2 * spacing`
/// apart over `[-half_extent, half_extent]` on both axes, row-major,
/// at rest, with all solver outputs zeroed.  Refused exactly when the
/// configuration or the extents are out of range; the population is
/// capped at `N_MAX`.
pub fn setup_particles(cfg: &SimConfig, half_extent: i64, spacing: i64) -> (r: Option<Vec<Body>>)
    ensures
        r is Some <==> (config_valid(*cfg) && 0 <= half_extent <= POS_MAX && 0 <= spacing
            <= POS_MAX && cfg.particle_radius + spacing >= 1),
        r is Some ==> {
            let bs = r->Some_0@;
            let step = 2 * cfg.particle_radius + 2 * spacing;
            let cnt = lattice_count(half_extent as int, step);
            &&& bodies_ok(bs)
            &&& bs.len() == lattice_len(half_extent as int, step)
            &&& forall|idx: int|
                0 <= idx < bs.len() ==> {
                    let b = #[trigger] bs[idx];
                    &&& b.particle.mass == cfg.particle_mass
                    &&& b.particle.radius == cfg.particle_radius
                    &&& b.particle.density == 0
                    &&& b.particle.pressure == 0
                    &&& b.velocity.x == 0 && b.velocity.y == 0
                    &&& b.force.x == 0 && b.force.y == 0
                    &&& b.position.x as int == -half_extent + (idx / cnt) * step
                    &&& b.position.y as int == -half_extent + (idx % cnt) * step
                    &&& -half_extent <= b.position.x <= half_extent
                    &&& -half_extent <= b.position.y <= half_extent
                }
        },
{
    if !(check_config(cfg) && 0 <= half_extent && half_extent <= POS_MAX && 0 <= spacing && spacing
        <= POS_MAX && cfg.particle_radius + spacing >= 1) {
        return None;
    }
    let step = 2 * cfg.particle_radius + 2 * spacing;
    let ghost cnt = lattice_count(half_extent as int, step as int);
    proof {
        // One point always fits: 0 <= 2 * half_extent / step.
        vstd::arithmetic::div_mod::lemma_div_pos_is_pos(2 * (half_extent as int), step as int);
    }
    let mut bodies: Vec<Body> = Vec::new();
    let mut x = -half_extent;
    let ghost mut rx: int = 0;
    while x <= half_extent
        invariant
            1 <= step <= 4 * POS_MAX,
            0 <= half_extent <= POS_MAX,
            config_valid(*cfg),
            cnt == lattice_count(half_extent as int, step as int),
            1 <= cnt,
            0 <= rx <= cnt,
            x as int == -half_extent + rx * step,
            bodies@.len() == if rx * cnt <= N_MAX {
                rx * cnt
            } else {
                N_MAX as int
            },
            forall|idx: int|
                0 <= idx < bodies@.len() ==> {
                    let b = #[trigger] bodies@[idx];
                    &&& b.particle.mass == cfg.particle_mass
                    &&& b.particle.radius == cfg.particle_radius
                    &&& b.particle.density == 0
                    &&& b.particle.pressure == 0
                    &&& b.velocity.x == 0 && b.velocity.y == 0
                    &&& b.force.x == 0 && b.force.y == 0
                    &&& b.position.x as int == -(half_extent as int) + (idx / cnt) * step
                    &&& b.position.y as int == -(half_extent as int) + (idx % cnt) * step
                    &&& -half_extent <= b.position.x <= half_extent
                    &&& -half_extent <= b.position.y <= half_extent
                    &&& body_ok(b)
                },
        decreases half_extent + step - x,
    {
        proof {
            // x <= half_extent means rx * step <= 2 * half_extent,
            // hence rx < cnt.
            lemma_div_is_ordered(rx * step, 2 * (half_extent as int), step as int);
            lemma_mul_is_commutative(rx, step as int);
            vstd::arithmetic::div_mod::lemma_div_by_multiple(rx, step as int);
            assert(rx <= 2 * (half_extent as int) / (step as int));
        }
        let mut y = -half_extent;
        let ghost mut ry: int = 0;
        while y <= half_extent
            invariant
                1 <= step <= 4 * POS_MAX,
                0 <= half_extent <= POS_MAX,
                config_valid(*cfg),
                cnt == lattice_count(half_extent as int, step as int),
                1 <= cnt,
                0 <= rx < cnt,
                0 <= ry <= cnt,
                x as int == -half_extent + rx * step,
                y as int == -half_extent + ry * step,
                -half_extent <= x <= half_extent,
                bodies@.len() == if rx * cnt + ry <= N_MAX {
                    rx * cnt + ry
                } else {
                    N_MAX as int
                },
                forall|idx: int|
                    0 <= idx < bodies@.len() ==> {
                        let b = #[trigger] bodies@[idx];
                        &&& b.particle.mass == cfg.particle_mass
                        &&& b.particle.radius == cfg.particle_radius
                        &&& b.particle.density == 0
                        &&& b.particle.pressure == 0
                        &&& b.velocity.x == 0 && b.velocity.y == 0
                        &&& b.force.x == 0 && b.force.y == 0
                        &&& b.position.x as int == -(half_extent as int) + (idx / cnt) * step
                        &&& b.position.y as int == -(half_extent as int) + (idx % cnt) * step
                        &&& -half_extent <= b.position.x <= half_extent
                        &&& -half_extent <= b.position.y <= half_extent
                        &&& body_ok(b)
                    },
            decreases half_extent + step - y,
        {
            proof {
                lemma_div_is_ordered(ry * step, 2 * (half_extent as int), step as int);
                lemma_mul_is_commutative(ry, step as int);
                vstd::arithmetic::div_mod::lemma_div_by_multiple(ry, step as int);
                assert(ry < cnt);
                assert(rx * cnt + ry < cnt * cnt && 0 <= rx * cnt) by (nonlinear_arith)
                    requires
                        0 <= rx < cnt,
                        0 <= ry < cnt,
                ;
            }
            if bodies.len() < N_MAX {
                proof {
                    let idx = bodies@.len() as int;
                    assert(idx == rx * cnt + ry);
                    lemma_fundamental_div_mod_converse(idx, cnt, rx, ry);
                }
                bodies.push(
                    Body {
                        particle: Particle {
                            radius: cfg.particle_radius,
                            pressure: 0,
                            density: 0,
                            mass: cfg.particle_mass,
                        },
                        position: Position { x, y },
                        velocity: Velocity { x: 0, y: 0 },
                        force: Force { x: 0, y: 0 },
                    },
                );
            }
            y = y + step;
            proof {
                assert((ry + 1) * step == ry * step + step) by (nonlinear_arith);
                ry = ry + 1;
            }
        }
        proof {
            // y ran past half_extent: ry reached cnt exactly.
            assert(ry == cnt) by {
                if ry < cnt {
                    lemma_mul_inequality(ry, cnt - 1, step as int);
                    assert((cnt - 1) * step <= 2 * (half_extent as int)) by {
                        lemma_fundamental_div_mod(2 * (half_extent as int), step as int);
                        lemma_mul_is_commutative(cnt - 1, step as int);
                    };
                }
            };
            assert(rx * cnt + cnt == (rx + 1) * cnt) by (nonlinear_arith);
        }
        x = x + step;
        proof {
            assert((rx + 1) * step == rx * step + step) by (nonlinear_arith);
            rx = rx + 1;
        }
    }
    proof {
        assert(rx == cnt) by {
            if rx < cnt {
                lemma_mul_inequality(rx, cnt - 1, step as int);
                assert((cnt - 1) * step <= 2 * (half_extent as int)) by {
                    lemma_fundamental_div_mod(2 * (half_extent as int), step as int);
                    lemma_mul_is_commutative(cnt - 1, step as int);
                };
            }
        };
    }
    Some(bodies)
}

/// The state of one particle after the frame's force phase: solver
/// densities, pressures and forces over the predicted positions of
/// `bs`, starting from a zeroed force accumulator.
pub open spec fn physics_spec(bs: Seq<Body>, cfg: SimConfig, dt: int, i: int) -> Body {
    let pred = predict_seq(bs, dt);
    let ms = mass_seq(bs);
    let dsm = Seq::new(bs.len(), |j: int| density_spec(ms, pred, cfg.h as int, j));
    let psm = Seq::new(
        bs.len(),
        |j: int|
            pressure_spec(
                density_spec(ms, pred, cfg.h as int, j),
                cfg.pressure_multiplier as int,
                cfg.rest_density as int,
            ),
    );
    let fs = force_spec(ms, dsm, psm, pred, cfg.h as int, i);
    Body {
        particle: Particle {
            radius: bs[i].particle.radius,
            pressure: psm[i] as i64,
            density: dsm[i] as i64,
            mass: bs[i].particle.mass,
        },
        position: bs[i].position,
        velocity: bs[i].velocity,
        force: Force {
            x: clamp_spec(fs.0, -(FORCE_MAX as int), FORCE_MAX as int) as i128,
            y: clamp_spec(fs.1, -(FORCE_MAX as int), FORCE_MAX as int) as i128,
        },
    }
}

/// The state of one particle after the optional radial-tool phase.
pub open spec fn mouse_phase_spec(b: Body, cfg: SimConfig, mouse: Option<MouseInput>) -> Body {
    match mouse {
        Option::None => b,
        Option::Some(m) => {
            let add = mouse_add_spec(
                (b.position.x, b.position.y),
                b.velocity.x as int,
                b.velocity.y as int,
                m.x as int,
                m.y as int,
                cfg.mouse_radius as int,
                cfg.mouse_strength as int,
                cfg.mouse_amp as int,
                mode_sign(m.mode),
            );
            Body {
                force: Force {
                    x: clamp_spec(b.force.x + add.0, -(FORCE_MAX as int), FORCE_MAX as int) as i128,
                    y: clamp_spec(b.force.y + add.1, -(FORCE_MAX as int), FORCE_MAX as int) as i128,
                },
                ..b
            }
        },
    }
}

/// One full solver pass over the population: predict positions,
/// rebuild the spatial hash, then run the density/pressure pass and
/// the additive pressure-force pass.  Densities, pressures and the
/// force increments are pinned to the brute-force ghost sums over the
/// predicted positions; the pressure force adds into whatever force
/// is already accumulated, so an external force injected before this
/// pass is kept.  Positions, velocities, masses and radii are
/// untouched, and the population size is preserved.
pub fn particle_physics(bodies: &mut Vec<Body>, cfg: &SimConfig, dt: i64)
    requires
        bodies_ok(old(bodies)@),
        config_valid(*cfg),
        0 <= dt <= DT_MAX,
    ensures
        final(bodies)@.len() == old(bodies)@.len(),
        bodies_ok(final(bodies)@),
        forall|i: int|
            0 <= i < final(bodies)@.len() ==> {
                let b0 = #[trigger] old(bodies)@[i];
                let b1 = final(bodies)@[i];
                let pred = predict_seq(old(bodies)@, dt as int);
                let fs = force_spec(
                    mass_seq(old(bodies)@),
                    density_seq(final(bodies)@),
                    pressure_seq(final(bodies)@),
                    pred,
                    cfg.h as int,
                    i,
                );
                &&& b1.position == b0.position
                &&& b1.velocity == b0.velocity
                &&& b1.particle.mass == b0.particle.mass
                &&& b1.particle.radius == b0.particle.radius
                &&& b1.particle.density as int == density_spec(
                    mass_seq(old(bodies)@),
                    pred,
                    cfg.h as int,
                    i,
                )
                &&& b1.particle.pressure as int == pressure_spec(
                    b1.particle.density as int,
                    cfg.pressure_multiplier as int,
                    cfg.rest_density as int,
                )
                &&& b1.force.x as int == clamp_spec(
                    b0.force.x + fs.0,
                    -(FORCE_MAX as int),
                    FORCE_MAX as int,
                )
                &&& b1.force.y as int == clamp_spec(
                    b0.force.y + fs.1,
                    -(FORCE_MAX as int),
                    FORCE_MAX as int,
                )
            },
{
    let pred = predict_positions(bodies, dt);
    let grid = build_grid(&pred, cfg.h);
    update_densities(bodies, &pred, &grid, cfg.h, cfg.pressure_multiplier, cfg.rest_density);
    let ghost mid = bodies@;
    update_forces(bodies, &pred, &grid, cfg.h);
    proof {
        assert(mass_seq(mid) =~= mass_seq(old(bodies)@));
        assert(density_seq(mid) =~= density_seq(bodies@));
        assert(pressure_seq(mid) =~= pressure_seq(bodies@));
    }
}

/// Read a particle's density, current after the solver pass of the
/// latest frame.
pub fn density_of(bodies: &Vec<Body>, i: usize) -> (d: i64)
    requires
        (i as int) < bodies@.len(),
    ensures
        d == bodies@[i as int].particle.density,
{
    bodies[i].particle.density
}

/// A particle with no other particle strictly within the smoothing
/// radius of its predicted position resolves to zero density, zero
/// clamped pressure, and a zero pressure force.
pub proof fn lemma_isolated_particle(
    ms: Seq<int>,
    ds: Seq<int>,
    ps: Seq<int>,
    pred: Seq<(i64, i64)>,
    h: int,
    k: int,
    rho0: int,
    i: int,
)
    requires
        0 <= i < pred.len(),
        0 <= ms[i],
        1 <= k,
        0 <= rho0,
        forall|j: int|
            0 <= j < pred.len() && j != i ==> !(#[trigger] within_range(pred, h, i, j)),
    ensures
        density_spec(ms, pred, h, i) == 0,
        pressure_spec(density_spec(ms, pred, h, i), k, rho0) == 0,
        force_spec(ms, ds, ps, pred, h, i) == (0int, 0int),
{
    assert forall|j: int| 0 <= j < pred.len() implies density_term(ms, pred, h, i, j) == 0 by {
        if j != i {
            assert(!within_range(pred, h, i, j));
        }
    };
    assert forall|j: int|
        0 <= j < pred.len() implies force_term(ms, ds, ps, pred, h, i, j) == (0int, 0int) by {
        if j != i {
            assert(!within_range(pred, h, i, j));
        }
    };
    lemma_density_raw_flat(ms, pred, h, i, 0, pred.len() as int);
    lemma_force_raw_flat(ms, ds, ps, pred, h, i, 0, pred.len() as int);
    assert(density_raw(ms, pred, h, i, pred.len() as int) == 0);
    vstd::arithmetic::div_mod::lemma_div_of0(crate::solver::DENSITY_SCALE as int);
    assert(density_spec(ms, pred, h, i) == 0);
    assert(k * (0 - rho0) <= 0) by (nonlinear_arith)
        requires
            1 <= k,
            0 <= rho0,
    ;
    let s = force_raw(ms, ds, ps, pred, h, i, pred.len() as int);
    assert(s == (0int, 0int));
    assert(-ms[i] * 0 == 0) by (nonlinear_arith);
}

/// Advance one frame in fluid mode: zero the force accumulators (the
/// start of the frame's force phase), run the solver passes, apply
/// the optional radial tool, then run the configured number of
/// integration substeps with gravity and the boundary clamp.  Each
/// substep covers `dt / substeps` milliseconds, rounded down, and
/// applies its share of gravity.  The final state of each particle is
/// exactly the composition of the three phase specifications; in
/// particular the population size is invariant, masses and radii are
/// untouched, every particle ends inside the box allowing for its
/// radius, densities and pressures are the solver's non-negative
/// values for this frame, and with no tool requested the forces are
/// exactly the solver's.
pub fn step_frame(
    bodies: &mut Vec<Body>,
    cfg: &SimConfig,
    half_w: i64,
    half_h: i64,
    dt: i64,
    mouse: Option<MouseInput>,
)
    requires
        bodies_ok(old(bodies)@),
        config_valid(*cfg),
        bounds_valid(half_w as int, half_h as int, cfg.damping as int),
        0 <= dt <= DT_MAX,
        forall|i: int|
            0 <= i < old(bodies)@.len() ==> (#[trigger] old(bodies)@[i]).particle.radius <= half_w
                && old(bodies)@[i].particle.radius <= half_h,
        mouse is Some ==> -POS_MAX <= mouse->Some_0.x <= POS_MAX && -POS_MAX <= mouse->Some_0.y
            <= POS_MAX,
    ensures
        final(bodies)@.len() == old(bodies)@.len(),
        bodies_ok(final(bodies)@),
        forall|i: int|
            0 <= i < final(bodies)@.len() ==> #[trigger] final(bodies)@[i] == substeps_spec(
                mouse_phase_spec(physics_spec(old(bodies)@, *cfg, dt as int, i), *cfg, mouse),
                cfg.gravity as int,
                cfg.damping as int,
                half_w as int,
                half_h as int,
                (dt as int) / (cfg.substeps as int),
                cfg.substeps as int,
            ),
        forall|i: int|
            0 <= i < final(bodies)@.len() ==> {
                let b0 = #[trigger] old(bodies)@[i];
                let b1 = final(bodies)@[i];
                let r = b0.particle.radius as int;
                &&& b1.particle.mass == b0.particle.mass
                &&& b1.particle.radius == b0.particle.radius
                &&& -half_w + r <= b1.position.x as int <= half_w - r
                &&& -half_h + r <= b1.position.y as int <= half_h - r
                &&& 0 <= b1.particle.density
                &&& 0 <= b1.particle.pressure
            },
{
    clear_forces(bodies);
    let ghost cleared = bodies@;
    particle_physics(bodies, cfg, dt);
    proof {
        assert(mass_seq(cleared) =~= mass_seq(old(bodies)@));
        assert(predict_seq(cleared, dt as int) =~= predict_seq(old(bodies)@, dt as int));
        let pred = predict_seq(old(bodies)@, dt as int);
        let ms = mass_seq(old(bodies)@);
        assert(density_seq(bodies@) =~= Seq::new(
            old(bodies)@.len(),
            |j: int| density_spec(ms, pred, cfg.h as int, j),
        ));
        assert(pressure_seq(bodies@) =~= Seq::new(
            old(bodies)@.len(),
            |j: int|
                pressure_spec(
                    density_spec(ms, pred, cfg.h as int, j),
                    cfg.pressure_multiplier as int,
                    cfg.rest_density as int,
                ),
        ));
        assert forall|i: int| 0 <= i < bodies@.len() implies #[trigger] bodies@[i] == physics_spec(
            old(bodies)@,
            *cfg,
            dt as int,
            i,
        ) by {
            assert(cleared[i].force.x == 0 && cleared[i].force.y == 0);
        };
    }
    match mouse {
        Some(m) => {
            apply_mouse_force(
                bodies,
                m.x,
                m.y,
                m.mode,
                cfg.mouse_radius,
                cfg.mouse_strength,
                cfg.mouse_amp,
            );
        },
        None => {},
    }
    let ghost pre = bodies@;
    proof {
        assert forall|i: int| 0 <= i < pre.len() implies #[trigger] pre[i] == mouse_phase_spec(
            physics_spec(old(bodies)@, *cfg, dt as int, i),
            *cfg,
            mouse,
        ) by {
        };
    }
    let substeps = cfg.substeps;
    let dt_step = div_floor_i64(dt, substeps);
    let mut k: i64 = 0;
    while k < substeps
        invariant
            0 <= k <= substeps,
            1 <= substeps,
            config_valid(*cfg),
            bounds_valid(half_w as int, half_h as int, cfg.damping as int),
            0 <= dt_step <= DT_MAX,
            bodies@.len() == pre.len(),
            pre.len() == old(bodies)@.len(),
            bodies_ok(bodies@),
            forall|i: int|
                0 <= i < bodies@.len() ==> #[trigger] bodies@[i] == substeps_spec(
                    pre[i],
                    cfg.gravity as int,
                    cfg.damping as int,
                    half_w as int,
                    half_h as int,
                    dt_step as int,
                    k as int,
                ),
            forall|i: int|
                0 <= i < pre.len() ==> #[trigger] pre[i] == mouse_phase_spec(
                    physics_spec(old(bodies)@, *cfg, dt as int, i),
                    *cfg,
                    mouse,
                ),
            forall|i: int|
                0 <= i < bodies@.len() ==> (#[trigger] bodies@[i]).particle == pre[i].particle,
            forall|i: int|
                0 <= i < old(bodies)@.len() ==> (#[trigger] old(bodies)@[i]).particle.radius
                    <= half_w && old(bodies)@[i].particle.radius <= half_h,
            forall|i: int|
                0 <= i < bodies@.len() ==> (#[trigger] pre[i]).particle.mass == old(
                    bodies,
                )@[i].particle.mass && pre[i].particle.radius == old(bodies)@[i].particle.radius
                    && pre[i].particle.density >= 0 && pre[i].particle.pressure >= 0,
            k >= 1 ==> forall|i: int|
                0 <= i < bodies@.len() ==> {
                    let b1 = #[trigger] bodies@[i];
                    let r = b1.particle.radius as int;
                    &&& -half_w + r <= b1.position.x as int <= half_w - r
                    &&& -half_h + r <= b1.position.y as int <= half_h - r
                },
        decreases substeps - k,
    {
        let ghost before = bodies@;
        move_particles(bodies, cfg.gravity, cfg.damping, half_w, half_h, dt_step);
        proof {
            assert forall|i: int| 0 <= i < bodies@.len() implies {
                let b1 = #[trigger] bodies@[i];
                let r = b1.particle.radius as int;
                &&& b1 == substeps_spec(
                    pre[i],
                    cfg.gravity as int,
                    cfg.damping as int,
                    half_w as int,
                    half_h as int,
                    dt_step as int,
                    k as int + 1,
                )
                &&& b1.particle == before[i].particle
                &&& -half_w + r <= b1.position.x as int <= half_w - r
                &&& -half_h + r <= b1.position.y as int <= half_h - r
            } by {
                assert(body_ok(before[i]));
                lemma_substep_ok(
                    before[i],
                    cfg.gravity as int,
                    cfg.damping as int,
                    half_w as int,
                    half_h as int,
                    dt_step as int,
                );
            };
        }
        k = k + 1;
    }
}

/// Advance one frame in rigid-collision mode: resolve every
/// overlapping approaching pair elastically (never increasing the
/// population's kinetic energy), then run the configured integration
/// substeps with gravity and the boundary clamp.  The final state of
/// each particle is exactly the substep iteration applied to the
/// collision pass's fold.
pub fn step_frame_collisions(
    bodies: &mut Vec<Body>,
    cfg: &SimConfig,
    half_w: i64,
    half_h: i64,
    dt: i64,
)
    requires
        bodies_ok(old(bodies)@),
        config_valid(*cfg),
        bounds_valid(half_w as int, half_h as int, cfg.damping as int),
        0 <= dt <= DT_MAX,
        forall|i: int|
            0 <= i < old(bodies)@.len() ==> (#[trigger] old(bodies)@[i]).particle.radius <= half_w
                && old(bodies)@[i].particle.radius <= half_h,
    ensures
        final(bodies)@.len() == old(bodies)@.len(),
        bodies_ok(final(bodies)@),
        forall|i: int|
            0 <= i < final(bodies)@.len() ==> #[trigger] final(bodies)@[i] == substeps_spec(
                collide_all_spec(old(bodies)@, 0)[i],
                cfg.gravity as int,
                cfg.damping as int,
                half_w as int,
                half_h as int,
                (dt as int) / (cfg.substeps as int),
                cfg.substeps as int,
            ),
        forall|i: int|
            0 <= i < final(bodies)@.len() ==> {
                let b0 = #[trigger] old(bodies)@[i];
                let b1 = final(bodies)@[i];
                let r = b0.particle.radius as int;
                &&& b1.particle.mass == b0.particle.mass
                &&& b1.particle.radius == b0.particle.radius
                &&& -half_w + r <= b1.position.x as int <= half_w - r
                &&& -half_h + r <= b1.position.y as int <= half_h - r
            },
{
    resolve_collisions(bodies);
    let ghost pre = bodies@;
    let substeps = cfg.substeps;
    let dt_step = div_floor_i64(dt, substeps);
    let mut k: i64 = 0;
    while k < substeps
        invariant
            0 <= k <= substeps,
            1 <= substeps,
            config_valid(*cfg),
            bounds_valid(half_w as int, half_h as int, cfg.damping as int),
            0 <= dt_step <= DT_MAX,
            bodies@.len() == pre.len(),
            pre.len() == old(bodies)@.len(),
            pre == collide_all_spec(old(bodies)@, 0),
            bodies_ok(bodies@),
            forall|i: int|
                0 <= i < bodies@.len() ==> #[trigger] bodies@[i] == substeps_spec(
                    pre[i],
                    cfg.gravity as int,
                    cfg.damping as int,
                    half_w as int,
                    half_h as int,
                    dt_step as int,
                    k as int,
                ),
            forall|i: int|
                0 <= i < bodies@.len() ==> (#[trigger] bodies@[i]).particle == pre[i].particle,
            forall|i: int|
                0 <= i < old(bodies)@.len() ==> (#[trigger] old(bodies)@[i]).particle.radius
                    <= half_w && old(bodies)@[i].particle.radius <= half_h,
            forall|i: int|
                0 <= i < bodies@.len() ==> (#[trigger] pre[i]).particle == old(
                    bodies,
                )@[i].particle,
            k >= 1 ==> forall|i: int|
                0 <= i < bodies@.len() ==> {
                    let b1 = #[trigger] bodies@[i];
                    let r = b1.particle.radius as int;
                    &&& -half_w + r <= b1.position.x as int <= half_w - r
                    &&& -half_h + r <= b1.position.y as int <= half_h - r
                },
        decreases substeps - k,
    {
        let ghost before = bodies@;
        move_particles(bodies, cfg.gravity, cfg.damping, half_w, half_h, dt_step);
        proof {
            assert forall|i: int| 0 <= i < bodies@.len() implies {
                let b1 = #[trigger] bodies@[i];
                let r = b1.particle.radius as int;
                &&& b1 == substeps_spec(
                    pre[i],
                    cfg.gravity as int,
                    cfg.damping as int,
                    half_w as int,
                    half_h as int,
                    dt_step as int,
                    k as int + 1,
                )
                &&& b1.particle == before[i].particle
                &&& -half_w + r <= b1.position.x as int <= half_w - r
                &&& -half_h + r <= b1.position.y as int <= half_h - r
            } by {
                assert(body_ok(before[i]));
                lemma_substep_ok(
                    before[i],
                    cfg.gravity as int,
                    cfg.damping as int,
                    half_w as int,
                    half_h as int,
                    dt_step as int,
                );
            };
        }
        k = k + 1;
    }
}

} // verus!
