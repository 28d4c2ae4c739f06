use fluidsim::particle::{Body, Particle, Position, Velocity, Force, SimConfig, check_config};
use fluidsim::sim::{setup_particles, particle_physics, step_frame, step_frame_collisions,
    density_of, MouseInput};
use fluidsim::collision::resolve_pair;
use fluidsim::external::{apply_mouse_force, MouseMode};
use fluidsim::kernels::poly6_kernel;
use fluidsim::fixed::isqrt_i64;

fn test_config() -> SimConfig {
    SimConfig {
        gravity: 960,
        damping: 717,
        h: 320,
        pressure_multiplier: 1000,
        rest_density: 800,
        particle_radius: 64,
        particle_mass: 100,
        substeps: 1,
        mouse_radius: 1600,
        mouse_strength: 2000,
        mouse_amp: 16,
    }
}

fn body_at(x: i64, y: i64, vx: i64, vy: i64, radius: i64, mass: i64) -> Body {
    Body {
        particle: Particle { radius, pressure: 0, density: 0, mass },
        position: Position { x, y },
        velocity: Velocity { x: vx, y: vy },
        force: Force { x: 0, y: 0 },
    }
}

#[test]
fn config_validation_rejects_bad_parameters() {
    let good = test_config();
    assert!(check_config(&good));
    let mut c = good;
    c.h = 32;
    assert!(!check_config(&c));
    c = good;
    c.particle_mass = 0;
    assert!(!check_config(&c));
    c = good;
    c.substeps = 0;
    assert!(!check_config(&c));
    c = good;
    c.damping = 2000;
    assert!(!check_config(&c));
}

#[test]
fn setup_refuses_invalid_configuration() {
    let mut c = test_config();
    c.particle_mass = 0;
    assert!(setup_particles(&c, 1000, 16).is_none());
    let good = test_config();
    assert!(setup_particles(&good, -5, 16).is_none());
    assert!(setup_particles(&good, 1000, 16).is_some());
}

#[test]
fn setup_builds_resting_lattice() {
    let cfg = test_config();
    let bodies = setup_particles(&cfg, 500, 16).unwrap();
    assert!(bodies.len() > 0);
    // spacing 2r + 2s = 160: positions -500, -340, ... => 7 per axis.
    assert_eq!(bodies.len(), 49);
    // row-major lattice: index = row * 7 + column.
    assert_eq!((bodies[0].position.x, bodies[0].position.y), (-500, -500));
    assert_eq!((bodies[1].position.x, bodies[1].position.y), (-500, -340));
    assert_eq!((bodies[7].position.x, bodies[7].position.y), (-340, -500));
    assert_eq!((bodies[48].position.x, bodies[48].position.y), (460, 460));
    for b in bodies.iter() {
        assert_eq!(b.particle.mass, 100);
        assert_eq!(b.particle.radius, 64);
        assert_eq!(b.velocity.x, 0);
        assert_eq!(b.velocity.y, 0);
        assert_eq!(b.particle.density, 0);
        assert!(-500 <= b.position.x && b.position.x <= 500);
        assert!(-500 <= b.position.y && b.position.y <= 500);
    }
}

#[test]
fn head_on_equal_mass_collision_swaps_velocities() {
    let bi = body_at(-3, 0, 100, 0, 5, 100);
    let bj = body_at(3, 0, -100, 0, 5, 100);
    let (ri, rj) = resolve_pair(bi, bj);
    assert_eq!(ri.velocity.x, -100);
    assert_eq!(ri.velocity.y, 0);
    assert_eq!(rj.velocity.x, 100);
    assert_eq!(rj.velocity.y, 0);
    // positions are untouched; only velocity responds.
    assert_eq!(ri.position.x, -3);
    assert_eq!(rj.position.x, 3);
}

#[test]
fn collision_energy_not_increased() {
    let ke = |b: &Body| {
        (b.velocity.x as i128) * (b.velocity.x as i128) + (b.velocity.y as i128) * (b.velocity.y
            as i128)
    };
    let cases = [
        (body_at(-3, 0, 100, 0, 5, 100), body_at(3, 0, -100, 0, 5, 100)),
        (body_at(0, 0, 7, 3, 5, 100), body_at(4, 3, -2, -1, 5, 100)),
        (body_at(10, 10, 50, -20, 8, 100), body_at(14, 13, -30, 40, 8, 100)),
    ];
    for (bi, bj) in cases.iter() {
        let before = ke(bi) + ke(bj);
        let (ri, rj) = resolve_pair(*bi, *bj);
        let after = ke(&ri) + ke(&rj);
        assert!(after <= before);
    }
}

#[test]
fn separating_pair_is_left_alone() {
    // Overlapping but moving apart: no impulse.
    let bi = body_at(-3, 0, -10, 0, 5, 100);
    let bj = body_at(3, 0, 10, 0, 5, 100);
    let (ri, rj) = resolve_pair(bi, bj);
    assert_eq!(ri.velocity.x, -10);
    assert_eq!(rj.velocity.x, 10);
}

#[test]
fn coincident_pair_exerts_no_impulse() {
    let bi = body_at(5, 5, 10, 0, 5, 100);
    let bj = body_at(5, 5, -10, 0, 5, 100);
    let (ri, rj) = resolve_pair(bi, bj);
    assert_eq!(ri.velocity.x, 10);
    assert_eq!(rj.velocity.x, -10);
}

#[test]
fn isolated_particle_has_zero_density_pressure_force() {
    let cfg = test_config();
    let mut bodies = vec![body_at(0, 0, 0, 0, 64, 100)];
    particle_physics(&mut bodies, &cfg, 16);
    assert_eq!(density_of(&bodies, 0), 0);
    assert_eq!(bodies[0].particle.pressure, 0);
    assert_eq!(bodies[0].force.x, 0);
    assert_eq!(bodies[0].force.y, 0);
}

#[test]
fn two_close_particles_have_positive_density_and_pressure() {
    let cfg = test_config();
    let mut bodies = vec![
        body_at(0, 0, 0, 0, 64, 100),
        body_at(100, 0, 0, 0, 64, 100),
    ];
    particle_physics(&mut bodies, &cfg, 0);
    // w = poly6(100, 320); density = 100 * w / 2^32.
    assert_eq!(density_of(&bodies, 0), 3831);
    assert_eq!(density_of(&bodies, 1), 3831);
    // pressure = 1000 * (3831 - 800)
    assert_eq!(bodies[0].particle.pressure, 3031000);
    // the negated kernel-gradient sum gives particle 0 a +x force and
    // particle 1 the mirror image, exactly antisymmetric.
    assert!(bodies[0].force.x > 0);
    assert!(bodies[1].force.x < 0);
    assert_eq!(bodies[0].force.x, -bodies[1].force.x);
    assert_eq!(bodies[0].force.y, 0);
}

#[test]
fn spatial_hash_matches_brute_force_densities() {
    let cfg = test_config();
    // A deterministic scattered population.
    let mut bodies: Vec<Body> = Vec::new();
    let mut seed: i64 = 12345;
    for _ in 0..60 {
        seed = (seed * 1103515245 + 12345) % 2147483648;
        let x = (seed % 1601) - 800;
        seed = (seed * 1103515245 + 12345) % 2147483648;
        let y = (seed % 1601) - 800;
        bodies.push(body_at(x, y, 0, 0, 64, 100));
    }
    let expected: Vec<i64> = (0..bodies.len())
        .map(|i| {
            let mut acc: i128 = 0;
            for j in 0..bodies.len() {
                if i == j {
                    continue;
                }
                let dx = bodies[j].position.x - bodies[i].position.x;
                let dy = bodies[j].position.y - bodies[i].position.y;
                let d2 = dx * dx + dy * dy;
                if d2 < cfg.h * cfg.h {
                    let d = isqrt_i64(d2);
                    let w = poly6_kernel(d, cfg.h);
                    acc += (bodies[j].particle.mass as i128) * (w as i128);
                }
            }
            (acc / 4294967296) as i64
        })
        .collect();
    particle_physics(&mut bodies, &cfg, 0);
    for i in 0..bodies.len() {
        assert_eq!(density_of(&bodies, i), expected[i]);
    }
}

#[test]
fn mouse_at_edge_keeps_only_damping_term() {
    // distance exactly equal to the radius: percent is zero, so only
    // the velocity-damping term remains.
    let mut bodies = vec![body_at(100, 0, 50, 0, 4, 100)];
    apply_mouse_force(&mut bodies, 0, 0, MouseMode::Push, 100, 3, 1000);
    assert_eq!(bodies[0].force.x, -150);
    assert_eq!(bodies[0].force.y, 0);
}

#[test]
fn mouse_outside_radius_is_no_op() {
    let mut bodies = vec![body_at(101, 0, 50, 0, 4, 100)];
    apply_mouse_force(&mut bodies, 0, 0, MouseMode::Push, 100, 3, 1000);
    assert_eq!(bodies[0].force.x, 0);
    assert_eq!(bodies[0].force.y, 0);
}

#[test]
fn mouse_push_and_pull_point_in_opposite_directions() {
    let mut pushed = vec![body_at(50, 0, 0, 0, 4, 100)];
    apply_mouse_force(&mut pushed, 0, 0, MouseMode::Push, 100, 1, 1000);
    let mut pulled = vec![body_at(50, 0, 0, 0, 4, 100)];
    apply_mouse_force(&mut pulled, 0, 0, MouseMode::Pull, 100, 1, 1000);
    assert_eq!(pushed[0].force.x, 500);
    assert_eq!(pulled[0].force.x, -500);
}

#[test]
fn step_frame_conserves_particle_count() {
    let cfg = test_config();
    let mut bodies = setup_particles(&cfg, 500, 16).unwrap();
    let n = bodies.len();
    for _ in 0..5 {
        step_frame(&mut bodies, &cfg, 2000, 2000, 16, None);
        assert_eq!(bodies.len(), n);
    }
}

#[test]
fn step_frame_keeps_particles_inside_bounds() {
    let cfg = test_config();
    let mut bodies = setup_particles(&cfg, 500, 16).unwrap();
    // A runaway particle outside the box is pulled back by the clamp.
    bodies[0].velocity.x = 100000;
    for _ in 0..4 {
        step_frame(&mut bodies, &cfg, 600, 600, 100, None);
        for b in bodies.iter() {
            assert!(-600 + 64 <= b.position.x && b.position.x <= 600 - 64);
            assert!(-600 + 64 <= b.position.y && b.position.y <= 600 - 64);
        }
    }
}

#[test]
fn step_frame_leaves_densities_and_pressures_non_negative() {
    let cfg = test_config();
    let mut bodies = setup_particles(&cfg, 400, 0).unwrap();
    for _ in 0..3 {
        step_frame(&mut bodies, &cfg, 2000, 2000, 16, Some(MouseInput {
            x: 0,
            y: 0,
            mode: MouseMode::Pull,
        }));
        for b in bodies.iter() {
            assert!(b.particle.density >= 0);
            assert!(b.particle.pressure >= 0);
        }
    }
}

#[test]
fn collision_mode_frame_keeps_count_and_bounds() {
    let cfg = test_config();
    let mut bodies = vec![
        body_at(-3, 0, 100, 0, 5, 100),
        body_at(3, 0, -100, 0, 5, 100),
        body_at(200, 200, 0, 0, 5, 100),
    ];
    for _ in 0..4 {
        step_frame_collisions(&mut bodies, &cfg, 400, 400, 100);
        assert_eq!(bodies.len(), 3);
        for b in bodies.iter() {
            assert!(-400 + 5 <= b.position.x && b.position.x <= 400 - 5);
            assert!(-400 + 5 <= b.position.y && b.position.y <= 400 - 5);
        }
    }
}

#[test]
fn gravity_pulls_an_isolated_particle_down() {
    let mut cfg = test_config();
    cfg.gravity = 1000;
    let mut bodies = vec![body_at(0, 0, 0, 0, 4, 100)];
    step_frame(&mut bodies, &cfg, 10000, 10000, 1000, None);
    // One full second: velocity.y = -1000, position moved down.
    assert_eq!(bodies[0].velocity.y, -1000);
    assert_eq!(bodies[0].position.y, -1000);
}

#[test]
fn wall_bounce_reflects_and_damps_velocity() {
    let cfg = test_config();
    let mut bodies = vec![body_at(100, 0, 50, 0, 4, 100)];
    // dt one second, no neighbors: px1 = 150 beyond the wall at 116.
    step_frame(&mut bodies, &cfg, 120, 120, 1000, None);
    assert_eq!(bodies[0].position.x, 116);
    // velocity reflected and damped: -(50 * 717 / 1024) = -35.
    assert_eq!(bodies[0].velocity.x, -35);
}

#[test]
fn misaligned_rounded_impulse_is_rejected() {
    // Centers offset by (1, 2): the truncated impulse (0, 1) is not
    // collinear with the normal and would raise the pair's kinetic
    // energy from 9 to 11, so the resolver leaves the pair alone.
    let bi = body_at(0, 0, 3, 0, 5, 100);
    let bj = body_at(1, 2, 0, 0, 5, 100);
    let ke = |b: &Body| b.velocity.x * b.velocity.x + b.velocity.y * b.velocity.y;
    let before = ke(&bi) + ke(&bj);
    let (ri, rj) = resolve_pair(bi, bj);
    let after = ke(&ri) + ke(&rj);
    assert!(after <= before);
    assert_eq!((ri.velocity.x, ri.velocity.y), (3, 0));
    assert_eq!((rj.velocity.x, rj.velocity.y), (0, 0));
}

#[test]
fn injected_force_survives_the_pressure_pass() {
    // The pressure-force pass adds into the accumulator: a force
    // injected before the pass is kept (here the pass itself adds
    // nothing, the particle being isolated).
    let cfg = test_config();
    let mut bodies = vec![body_at(0, 0, 0, 0, 64, 100)];
    bodies[0].force = Force { x: 7, y: -3 };
    particle_physics(&mut bodies, &cfg, 16);
    assert_eq!(bodies[0].force.x, 7);
    assert_eq!(bodies[0].force.y, -3);
}

#[test]
fn collision_pass_never_raises_total_kinetic_energy() {
    let ke = |b: &Body| b.velocity.x * b.velocity.x + b.velocity.y * b.velocity.y;
    let mut bodies = vec![
        body_at(0, 0, 3, 0, 5, 100),
        body_at(1, 2, 0, 0, 5, 100),
        body_at(-3, 0, 100, 0, 5, 100),
        body_at(3, 0, -100, 0, 5, 100),
    ];
    let before: i64 = bodies.iter().map(ke).sum();
    let cfg = test_config();
    step_frame_collisions(&mut bodies, &cfg, 4000, 4000, 0);
    let after: i64 = bodies.iter().map(ke).sum();
    assert!(after <= before);
}
