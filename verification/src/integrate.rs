//! Numerical integration and boundary handling.
//!
//! One substep advances velocity by the accumulated force and by
//! gravity, advances position by the new velocity, and clamps the
//! position to the box `[-half_w + r, half_w - r] x [-half_h + r,
//! half_h - r]`, reflecting and damping the velocity component of any
//! wall that was hit.  Velocities are clamped to `VEL_MAX` as a
//! numeric guard.

use vstd::prelude::*;
use crate::fixed::div_trunc;
use crate::fixed::div_trunc_i128;
use crate::fixed::clamp_spec;
use crate::fixed::clamp_i128_to_i64;
use crate::fixed::lemma_div_trunc_bounds;
use crate::particle::Body;
use crate::particle::bodies_ok;
use crate::particle::body_ok;
use crate::particle::VEL_MAX;
use crate::particle::POS_MAX;
use crate::particle::GRAVITY_MAX;
use crate::particle::DAMPING_DEN;
use crate::particle::DT_MAX;

verus! {

/// Velocity after one substep, per axis: force over mass times the
/// substep, clamped into the admissible range.
pub open spec fn vel_step_spec(v: int, f: int, m: int, dt: int) -> int {
    clamp_spec(v + div_trunc(f * dt, m * 1000), -(VEL_MAX as int), VEL_MAX as int)
}

/// Downward velocity change of gravity over one substep.
pub open spec fn gravity_step_spec(v: int, g: int, dt: int) -> int {
    clamp_spec(v - div_trunc(g * dt, 1000), -(VEL_MAX as int), VEL_MAX as int)
}

/// Position and velocity after the boundary clamp on one axis:
/// clamping to the nearer wall reflects and damps the velocity.
pub open spec fn wall_spec(p: int, v: int, lo: int, hi: int, damp: int) -> (int, int) {
    if p >= hi {
        (hi, -div_trunc(v * damp, DAMPING_DEN as int))
    } else if p <= lo {
        (lo, -div_trunc(v * damp, DAMPING_DEN as int))
    } else {
        (p, v)
    }
}

/// A whole substep of one particle.
pub open spec fn substep_spec(
    b: Body,
    gravity: int,
    damp: int,
    half_w: int,
    half_h: int,
    dt: int,
) -> Body {
    let r = b.particle.radius as int;
    let vx1 = vel_step_spec(b.velocity.x as int, b.force.x as int, b.particle.mass as int, dt);
    let vy1 = vel_step_spec(b.velocity.y as int, b.force.y as int, b.particle.mass as int, dt);
    let vy2 = gravity_step_spec(vy1, gravity, dt);
    let px1 = b.position.x as int + div_trunc(vx1 * dt, 1000);
    let py1 = b.position.y as int + div_trunc(vy2 * dt, 1000);
    let wx = wall_spec(px1, vx1, -half_w + r, half_w - r, damp);
    let wy = wall_spec(py1, vy2, -half_h + r, half_h - r, damp);
    Body {
        particle: b.particle,
        position: crate::particle::Position { x: wx.0 as i64, y: wy.0 as i64 },
        velocity: crate::particle::Velocity { x: wx.1 as i64, y: wy.1 as i64 },
        force: b.force,
    }
}

/// `k` substeps of one particle.
pub open spec fn substeps_spec(
    b: Body,
    gravity: int,
    damp: int,
    half_w: int,
    half_h: int,
    dt: int,
    k: int,
) -> Body
    decreases k,
{
    if k <= 0 {
        b
    } else {
        substep_spec(
            substeps_spec(b, gravity, damp, half_w, half_h, dt, k - 1),
            gravity,
            damp,
            half_w,
            half_h,
            dt,
        )
    }
}

/// Acceptable bounds and damping parameters for integration.
pub open spec fn bounds_valid(half_w: int, half_h: int, damp: int) -> bool {
    &&& 1 <= half_w <= POS_MAX
    &&& 1 <= half_h <= POS_MAX
    &&& 0 <= damp <= DAMPING_DEN
}

/// The boundary clamp really contains the particle, and integration
/// keeps every stored range.
pub proof fn lemma_substep_ok(b: Body, gravity: int, damp: int, half_w: int, half_h: int, dt: int)
    requires
        body_ok(b),
        0 <= gravity <= GRAVITY_MAX,
        bounds_valid(half_w, half_h, damp),
        b.particle.radius <= half_w,
        b.particle.radius <= half_h,
        0 <= dt <= DT_MAX,
    ensures
        body_ok(substep_spec(b, gravity, damp, half_w, half_h, dt)),
        ({
            let s = substep_spec(b, gravity, damp, half_w, half_h, dt);
            let r = b.particle.radius as int;
            &&& -half_w + r <= s.position.x as int <= half_w - r
            &&& -half_h + r <= s.position.y as int <= half_h - r
            &&& s.particle == b.particle
            &&& s.force == b.force
        }),
{
    let r = b.particle.radius as int;
    let vx1 = vel_step_spec(b.velocity.x as int, b.force.x as int, b.particle.mass as int, dt);
    let vy1 = vel_step_spec(b.velocity.y as int, b.force.y as int, b.particle.mass as int, dt);
    let vy2 = gravity_step_spec(vy1, gravity, dt);
    assert(-(VEL_MAX as int) <= vx1 <= VEL_MAX as int);
    assert(-(VEL_MAX as int) <= vy2 <= VEL_MAX as int);
    assert(-16777216000int <= vx1 * dt <= 16777216000int && -16777216000int <= vy2 * dt
        <= 16777216000int) by (nonlinear_arith)
        requires
            -16777216 <= vx1 <= 16777216,
            -16777216 <= vy2 <= 16777216,
            0 <= dt <= 1000,
    ;
    lemma_div_trunc_bounds(vx1 * dt, 1000, 16777216);
    lemma_div_trunc_bounds(vy2 * dt, 1000, 16777216);
    let px1 = b.position.x as int + div_trunc(vx1 * dt, 1000);
    let py1 = b.position.y as int + div_trunc(vy2 * dt, 1000);
    let wx = wall_spec(px1, vx1, -half_w + r, half_w - r, damp);
    let wy = wall_spec(py1, vy2, -half_h + r, half_h - r, damp);
    assert(-16777216 * 1024 <= vx1 * damp <= 16777216 * 1024 && -16777216 * 1024 <= vy2 * damp
        <= 16777216 * 1024) by (nonlinear_arith)
        requires
            -16777216 <= vx1 <= 16777216,
            -16777216 <= vy2 <= 16777216,
            0 <= damp <= 1024,
    ;
    lemma_div_trunc_bounds(vx1 * damp, DAMPING_DEN as int, 16777216);
    lemma_div_trunc_bounds(vy2 * damp, DAMPING_DEN as int, 16777216);
    assert(-half_w + r <= wx.0 <= half_w - r);
    assert(-half_h + r <= wy.0 <= half_h - r);
}

/// Iterated substeps stay within the walls and keep every stored
/// range, for at least one substep.
pub proof fn lemma_substeps_ok(
    b: Body,
    gravity: int,
    damp: int,
    half_w: int,
    half_h: int,
    dt: int,
    k: int,
)
    requires
        body_ok(b),
        0 <= gravity <= GRAVITY_MAX,
        bounds_valid(half_w, half_h, damp),
        b.particle.radius <= half_w,
        b.particle.radius <= half_h,
        0 <= dt <= DT_MAX,
        1 <= k,
    ensures
        body_ok(substeps_spec(b, gravity, damp, half_w, half_h, dt, k)),
        ({
            let s = substeps_spec(b, gravity, damp, half_w, half_h, dt, k);
            let r = b.particle.radius as int;
            &&& -half_w + r <= s.position.x as int <= half_w - r
            &&& -half_h + r <= s.position.y as int <= half_h - r
            &&& s.particle == b.particle
            &&& s.force == b.force
        }),
    decreases k,
{
    if k == 1 {
        assert(substeps_spec(b, gravity, damp, half_w, half_h, dt, 0) == b);
        assert(substeps_spec(b, gravity, damp, half_w, half_h, dt, 1) == substep_spec(
            b,
            gravity,
            damp,
            half_w,
            half_h,
            dt,
        ));
        lemma_substep_ok(b, gravity, damp, half_w, half_h, dt);
    } else {
        lemma_substeps_ok(b, gravity, damp, half_w, half_h, dt, k - 1);
        lemma_substep_ok(
            substeps_spec(b, gravity, damp, half_w, half_h, dt, k - 1),
            gravity,
            damp,
            half_w,
            half_h,
            dt,
        );
    }
}

/// Advance every particle by one substep, applying gravity and the
/// wall clamp; the exact result of each particle is pinned by
/// `substep_spec`.
pub fn move_particles(
    bodies: &mut Vec<Body>,
    gravity: i64,
    damp: i64,
    half_w: i64,
    half_h: i64,
    dt: i64,
)
    requires
        bodies_ok(old(bodies)@),
        0 <= gravity <= GRAVITY_MAX,
        bounds_valid(half_w as int, half_h as int, damp as int),
        forall|i: int|
            0 <= i < old(bodies)@.len() ==> (#[trigger] old(bodies)@[i]).particle.radius <= half_w
                && old(bodies)@[i].particle.radius <= half_h,
        0 <= dt <= DT_MAX,
    ensures
        final(bodies)@.len() == old(bodies)@.len(),
        bodies_ok(final(bodies)@),
        forall|i: int|
            0 <= i < final(bodies)@.len() ==> #[trigger] final(bodies)@[i] == substep_spec(
                old(bodies)@[i],
                gravity as int,
                damp as int,
                half_w as int,
                half_h as int,
                dt as int,
            ),
{
    let n = bodies.len();
    let mut i: usize = 0;
    while i < n
        invariant
            n == bodies@.len(),
            old(bodies)@.len() == n as int,
            i <= n,
            bodies_ok(old(bodies)@),
            0 <= gravity <= GRAVITY_MAX,
            bounds_valid(half_w as int, half_h as int, damp as int),
            forall|j: int|
                0 <= j < n ==> (#[trigger] old(bodies)@[j]).particle.radius <= half_w && old(
                    bodies,
                )@[j].particle.radius <= half_h,
            0 <= dt <= DT_MAX,
            forall|j: int| (i as int) <= j < n ==> bodies@[j] == old(bodies)@[j],
            forall|j: int|
                0 <= j < (i as int) ==> #[trigger] bodies@[j] == substep_spec(
                    old(bodies)@[j],
                    gravity as int,
                    damp as int,
                    half_w as int,
                    half_h as int,
                    dt as int,
                ) && body_ok(bodies@[j]),
        decreases n - i,
    {
        let mut b = bodies[i];
        proof {
            assert(body_ok(old(bodies)@[i as int]));
            lemma_substep_ok(
                b,
                gravity as int,
                damp as int,
                half_w as int,
                half_h as int,
                dt as int,
            );
            assert((b.force.x as int) * (dt as int) > i128::MIN && (b.force.y as int) * (dt as int)
                > i128::MIN && -10633823966279326983230456482242756608int <= (b.force.x as int) * (
            dt as int) <= 10633823966279326983230456482242756608int
                && -10633823966279326983230456482242756608int <= (b.force.y as int) * (dt as int)
                    <= 10633823966279326983230456482242756608int) by (nonlinear_arith)
                requires
                    -10384593717069655257060992658440192int <= b.force.x as int
                        <= 10384593717069655257060992658440192int,
                    -10384593717069655257060992658440192int <= b.force.y as int
                        <= 10384593717069655257060992658440192int,
                    0 <= dt as int <= 1024,
            ;
        }
        let mden: i128 = (b.particle.mass as i128) * 1000;
        let dvx = div_trunc_i128((b.force.x as i128) * (dt as i128), mden);
        let dvy = div_trunc_i128((b.force.y as i128) * (dt as i128), mden);
        let vx1 = clamp_i128_to_i64((b.velocity.x as i128) + dvx, VEL_MAX);
        let vy0 = clamp_i128_to_i64((b.velocity.y as i128) + dvy, VEL_MAX);
        proof {
            assert(0 <= (gravity as int) * (dt as int) <= 1048576000int) by (nonlinear_arith)
                requires
                    0 <= gravity as int <= 1048576,
                    0 <= dt as int <= 1000,
            ;
        }
        let gd = div_trunc_i128((gravity as i128) * (dt as i128), 1000);
        let vy2 = clamp_i128_to_i64((vy0 as i128) - gd, VEL_MAX);
        proof {
            assert(-16777216000int <= (vx1 as int) * (dt as int) <= 16777216000int
                && -16777216000int <= (vy2 as int) * (dt as int) <= 16777216000int)
                by (nonlinear_arith)
                requires
                    -16777216 <= vx1 as int <= 16777216,
                    -16777216 <= vy2 as int <= 16777216,
                    0 <= dt as int <= 1000,
            ;
            lemma_div_trunc_bounds((vx1 as int) * (dt as int), 1000, 16777216);
            lemma_div_trunc_bounds((vy2 as int) * (dt as int), 1000, 16777216);
        }
        let px1 = b.position.x + div_trunc_i128((vx1 as i128) * (dt as i128), 1000) as i64;
        let py1 = b.position.y + div_trunc_i128((vy2 as i128) * (dt as i128), 1000) as i64;
        let r = b.particle.radius;
        let (px2, vx2) = wall_exec(px1, vx1, -half_w + r, half_w - r, damp);
        let (py2, vy3) = wall_exec(py1, vy2, -half_h + r, half_h - r, damp);
        b.position.x = px2;
        b.position.y = py2;
        b.velocity.x = vx2;
        b.velocity.y = vy3;
        bodies[i] = b;
        proof {
            assert(bodies@[i as int] == substep_spec(
                old(bodies)@[i as int],
                gravity as int,
                damp as int,
                half_w as int,
                half_h as int,
                dt as int,
            ));
        }
        i += 1;
    }
    proof {
        assert forall|j: int| 0 <= j < bodies@.len() implies body_ok(#[trigger] bodies@[j]) by {
            let b0 = old(bodies)@[j];
            assert(body_ok(bodies@[j]));
        };
    }
}

/// The boundary clamp on one axis, mirroring `wall_spec`.
fn wall_exec(p: i64, v: i64, lo: i64, hi: i64, damp: i64) -> (r: (i64, i64))
    requires
        lo <= hi,
        -33554432 <= p <= 33554432,
        -VEL_MAX <= v <= VEL_MAX,
        0 <= damp <= DAMPING_DEN,
        -POS_MAX <= lo,
        hi <= POS_MAX,
    ensures
        (r.0 as int, r.1 as int) == wall_spec(p as int, v as int, lo as int, hi as int,
        damp as int),
        lo <= r.0 <= hi || (lo <= p <= hi && r.0 == p),
        -VEL_MAX <= r.1 <= VEL_MAX,
{
    proof {
        assert(-17179869184int <= (v as int) * (damp as int) <= 17179869184int)
            by (nonlinear_arith)
            requires
                -16777216 <= v as int <= 16777216,
                0 <= damp as int <= 1024,
        ;
        assert((16777216int) * 1024 == 17179869184int);
        lemma_div_trunc_bounds((v as int) * (damp as int), DAMPING_DEN as int, 16777216);
    }
    if p >= hi {
        let vd = div_trunc_i128((v as i128) * (damp as i128), DAMPING_DEN as i128);
        (hi, -(vd as i64))
    } else if p <= lo {
        let vd = div_trunc_i128((v as i128) * (damp as i128), DAMPING_DEN as i128);
        (lo, -(vd as i64))
    } else {
        (p, v)
    }
}

} // verus!
