//! The interactive radial force tool.
//!
//! Particles within `radius` of a world-space anchor receive
//! `dir * (percent * mode * amp - velocity) * strength`, where `dir`
//! is the unit vector from the anchor to the particle, `percent`
//! falls linearly from one at the anchor to zero at the edge, and
//! the velocity term damps motion along each axis.  A particle at
//! exactly the edge keeps only the damping term.

use vstd::prelude::*;
use crate::fixed::div_trunc;
use crate::fixed::div_trunc_i128;
use crate::fixed::div_floor_i128;
use crate::fixed::clamp_spec;
use crate::fixed::lemma_div_trunc_bounds;
use crate::fixed::add_clamped_i128;
use crate::solver::sqrt_floor;
use crate::solver::lemma_sqrt_floor_unique;
use crate::fixed::isqrt_i64;
use crate::particle::Body;
use crate::particle::bodies_ok;
use crate::particle::body_ok;
use crate::particle::POS_MAX;
use crate::particle::VEL_MAX;
use crate::particle::FORCE_MAX;
use crate::particle::MOUSE_STRENGTH_MAX;

verus! {

/// Fixed-point scale of the unit direction vector (2^16).
pub const DIR_SCALE: i64 = 65536;

/// Fixed-point scale of the linear falloff (2^16).
pub const PCT_SCALE: i64 = 65536;

/// Whether the tool pushes particles away or pulls them in.
#[derive(Clone, Copy, PartialEq, Eq, Structural)]
pub enum MouseMode {
    Push,
    Pull,
}

/// Sign carried by the mode into the falloff term.
pub open spec fn mode_sign(m: MouseMode) -> int {
    match m {
        MouseMode::Push => 1,
        MouseMode::Pull => -1,
    }
}

/// Force added to one particle by the tool, per axis; zero outside
/// the radius, direction zero at a coincident anchor.
pub open spec fn mouse_add_spec(
    p: (i64, i64),
    vx: int,
    vy: int,
    ax: int,
    ay: int,
    radius: int,
    strength: int,
    amp: int,
    sign: int,
) -> (int, int) {
    let dx = p.0 - ax;
    let dy = p.1 - ay;
    let d2 = dx * dx + dy * dy;
    if d2 <= radius * radius {
        let d = sqrt_floor(d2);
        let dirx = if d >= 1 {
            div_trunc(dx * (DIR_SCALE as int), d)
        } else {
            0
        };
        let diry = if d >= 1 {
            div_trunc(dy * (DIR_SCALE as int), d)
        } else {
            0
        };
        let pct = ((PCT_SCALE as int) * (radius - d)) / radius;
        let target = div_trunc((pct * sign) * amp, PCT_SCALE as int);
        (
            div_trunc((dirx * (target - vx)) * strength, DIR_SCALE as int),
            div_trunc((diry * (target - vy)) * strength, DIR_SCALE as int),
        )
    } else {
        (0, 0)
    }
}

/// At exactly the edge of the radius the falloff is zero, and only
/// the velocity-damping term remains in each axis.
pub proof fn lemma_mouse_edge_damping_only(
    p: (i64, i64),
    vx: int,
    vy: int,
    ax: int,
    ay: int,
    radius: int,
    strength: int,
    amp: int,
    sign: int,
)
    requires
        1 <= radius,
        ({
            let dx = p.0 - ax;
            let dy = p.1 - ay;
            dx * dx + dy * dy == radius * radius
        }),
    ensures
        ({
            let dx = p.0 - ax;
            let dy = p.1 - ay;
            let d = sqrt_floor(dx * dx + dy * dy);
            let dirx = if d >= 1 {
                div_trunc(dx * (DIR_SCALE as int), d)
            } else {
                0
            };
            let diry = if d >= 1 {
                div_trunc(dy * (DIR_SCALE as int), d)
            } else {
                0
            };
            mouse_add_spec(p, vx, vy, ax, ay, radius, strength, amp, sign) == ((
            div_trunc((dirx * (0 - vx)) * strength, DIR_SCALE as int),
            div_trunc((diry * (0 - vy)) * strength, DIR_SCALE as int),
            ))
        }),
{
    let dx = p.0 - ax;
    let dy = p.1 - ay;
    let d2 = dx * dx + dy * dy;
    assert(radius * radius < (radius + 1) * (radius + 1)) by (nonlinear_arith)
        requires
            1 <= radius,
    ;
    lemma_sqrt_floor_unique(d2, radius);
    let d = sqrt_floor(d2);
    assert(d == radius);
    assert((PCT_SCALE as int) * (radius - d) == 0);
    vstd::arithmetic::div_mod::lemma_div_of0(radius);
    let pct = ((PCT_SCALE as int) * (radius - d)) / radius;
    assert(pct == 0);
    assert((pct * sign) * amp == 0) by (nonlinear_arith)
        requires
            pct == 0,
    ;
    vstd::arithmetic::div_mod::lemma_div_of0(PCT_SCALE as int);
}

/// Add the tool's force to every particle in range, exactly as
/// `mouse_add_spec` states, clamped into the stored force range; all
/// other state is untouched.
pub fn apply_mouse_force(
    bodies: &mut Vec<Body>,
    ax: i64,
    ay: i64,
    mode: MouseMode,
    radius: i64,
    strength: i64,
    amp: i64,
)
    requires
        bodies_ok(old(bodies)@),
        -POS_MAX <= ax <= POS_MAX,
        -POS_MAX <= ay <= POS_MAX,
        1 <= radius <= POS_MAX,
        0 <= strength <= MOUSE_STRENGTH_MAX,
        0 <= amp <= VEL_MAX,
    ensures
        final(bodies)@.len() == old(bodies)@.len(),
        bodies_ok(final(bodies)@),
        forall|i: int|
            0 <= i < final(bodies)@.len() ==> {
                let b0 = #[trigger] old(bodies)@[i];
                let b1 = final(bodies)@[i];
                let add = mouse_add_spec(
                    (b0.position.x, b0.position.y),
                    b0.velocity.x as int,
                    b0.velocity.y as int,
                    ax as int,
                    ay as int,
                    radius as int,
                    strength as int,
                    amp as int,
                    mode_sign(mode),
                );
                &&& b1.position == b0.position
                &&& b1.velocity == b0.velocity
                &&& b1.particle == b0.particle
                &&& b1.force.x as int == clamp_spec(
                    b0.force.x + add.0,
                    -(FORCE_MAX as int),
                    FORCE_MAX as int,
                )
                &&& b1.force.y as int == clamp_spec(
                    b0.force.y + add.1,
                    -(FORCE_MAX as int),
                    FORCE_MAX as int,
                )
            },
{
    let n = bodies.len();
    let sign: i64 = match mode {
        MouseMode::Push => 1,
        MouseMode::Pull => -1,
    };
    let mut i: usize = 0;
    while i < n
        invariant
            n == bodies@.len(),
            old(bodies)@.len() == n as int,
            i <= n,
            bodies_ok(old(bodies)@),
            -POS_MAX <= ax <= POS_MAX,
            -POS_MAX <= ay <= POS_MAX,
            1 <= radius <= POS_MAX,
            0 <= strength <= MOUSE_STRENGTH_MAX,
            0 <= amp <= VEL_MAX,
            sign as int == mode_sign(mode),
            forall|j: int| (i as int) <= j < n ==> bodies@[j] == old(bodies)@[j],
            forall|j: int|
                0 <= j < (i as int) ==> {
                    let b0 = #[trigger] old(bodies)@[j];
                    let b1 = bodies@[j];
                    let add = mouse_add_spec(
                        (b0.position.x, b0.position.y),
                        b0.velocity.x as int,
                        b0.velocity.y as int,
                        ax as int,
                        ay as int,
                        radius as int,
                        strength as int,
                        amp as int,
                        mode_sign(mode),
                    );
                    &&& b1.position == b0.position
                    &&& b1.velocity == b0.velocity
                    &&& b1.particle == b0.particle
                    &&& b1.force.x as int == clamp_spec(
                        b0.force.x + add.0,
                        -(FORCE_MAX as int),
                        FORCE_MAX as int,
                    )
                    &&& b1.force.y as int == clamp_spec(
                        b0.force.y + add.1,
                        -(FORCE_MAX as int),
                        FORCE_MAX as int,
                    )
                    &&& body_ok(b1)
                },
        decreases n - i,
    {
        let mut b = bodies[i];
        proof {
            assert(body_ok(old(bodies)@[i as int]));
        }
        let dx = b.position.x - ax;
        let dy = b.position.y - ay;
        proof {
            assert(0 <= dx * dx + dy * dy <= 4503599627370496int && 0 <= dx * dx && 0 <= dy * dy)
                by (nonlinear_arith)
                requires
                    -33554432 <= dx as int <= 33554432,
                    -33554432 <= dy as int <= 33554432,
            ;
            assert(0 <= (radius as int) * (radius as int) <= 281474976710656int)
                by (nonlinear_arith)
                requires
                    1 <= radius as int <= 16777216,
            ;
        }
        let d2 = dx * dx + dy * dy;
        let r2 = radius * radius;
        if d2 <= r2 {
            let d = isqrt_i64(d2);
            proof {
                lemma_sqrt_floor_unique(d2 as int, d as int);
                assert(d as int <= radius as int) by (nonlinear_arith)
                    requires
                        (d as int) * (d as int) <= d2 as int,
                        d2 as int <= (radius as int) * (radius as int),
                        0 <= d as int,
                        1 <= radius as int,
                ;
                assert(-(d as int) <= dx as int <= d as int && -(d as int) <= dy as int
                    <= d as int) by (nonlinear_arith)
                    requires
                        (dx as int) * (dx as int) + (dy as int) * (dy as int) < ((d as int) + 1) * (
                        (d as int) + 1),
                        0 <= (dx as int) * (dx as int),
                        0 <= (dy as int) * (dy as int),
                        0 <= d as int,
                ;
            }
            let dirx: i64;
            let diry: i64;
            if d >= 1 {
                proof {
                    assert(-(d as int) * 65536 <= (dx as int) * 65536 <= (d as int) * 65536
                        && -(d as int) * 65536 <= (dy as int) * 65536 <= (d as int) * 65536)
                        by (nonlinear_arith)
                        requires
                            -(d as int) <= dx as int <= d as int,
                            -(d as int) <= dy as int <= d as int,
                    ;
                    vstd::arithmetic::mul::lemma_mul_is_commutative(d as int, 65536);
                    lemma_div_trunc_bounds((dx as int) * 65536, d as int, 65536);
                    lemma_div_trunc_bounds((dy as int) * 65536, d as int, 65536);
                }
                dirx = div_trunc_i128((dx as i128) * (DIR_SCALE as i128), d as i128) as i64;
                diry = div_trunc_i128((dy as i128) * (DIR_SCALE as i128), d as i128) as i64;
            } else {
                dirx = 0;
                diry = 0;
            }
            let pct = div_floor_i128((PCT_SCALE as i128) * ((radius - d) as i128), radius as i128);
            proof {
                vstd::arithmetic::div_mod::lemma_div_pos_is_pos(
                    (PCT_SCALE as int) * (radius as int - d as int),
                    radius as int,
                );
                assert(0 <= (PCT_SCALE as int) * (radius as int - d as int) <= (radius as int)
                    * 65536) by (nonlinear_arith)
                    requires
                        0 <= radius as int - d as int <= radius as int,
                        1 <= radius as int,
                ;
                vstd::arithmetic::div_mod::lemma_multiply_divide_le(
                    (PCT_SCALE as int) * (radius as int - d as int),
                    radius as int,
                    65536int,
                );
                assert(-(65536int * 16777216) <= ((pct as int) * (sign as int)) * (amp as int)
                    <= 65536int * 16777216) by (nonlinear_arith)
                    requires
                        0 <= pct as int <= 65536,
                        -1 <= sign as int <= 1,
                        0 <= amp as int <= 16777216,
                ;
                lemma_div_trunc_bounds(
                    ((pct as int) * (sign as int)) * (amp as int),
                    65536int,
                    16777216int,
                );
            }
            let target = div_trunc_i128((pct * (sign as i128)) * (amp as i128),
                PCT_SCALE as i128) as i64;
            proof {
                assert(-(33554432int * 65536) <= (dirx as int) * ((target as int) - (
                b.velocity.x as int)) <= 33554432int * 65536 && -(33554432int * 65536) <= (
                diry as int) * ((target as int) - (b.velocity.y as int)) <= 33554432int * 65536)
                    by (nonlinear_arith)
                    requires
                        -65536 <= dirx as int <= 65536,
                        -65536 <= diry as int <= 65536,
                        -33554432 <= (target as int) - (b.velocity.x as int) <= 33554432,
                        -33554432 <= (target as int) - (b.velocity.y as int) <= 33554432,
                ;
                assert(-(33554432int * 65536) * 1048576 <= ((dirx as int) * ((target as int) - (
                b.velocity.x as int))) * (strength as int) <= (33554432int * 65536) * 1048576
                    && -(33554432int * 65536) * 1048576 <= ((diry as int) * ((target as int) - (
                b.velocity.y as int))) * (strength as int) <= (33554432int * 65536) * 1048576)
                    by (nonlinear_arith)
                    requires
                        -(33554432int * 65536) <= (dirx as int) * ((target as int) - (
                        b.velocity.x as int)) <= 33554432int * 65536,
                        -(33554432int * 65536) <= (diry as int) * ((target as int) - (
                        b.velocity.y as int)) <= 33554432int * 65536,
                        0 <= strength as int <= 1048576,
                ;
            }
            let addx = div_trunc_i128(
                ((dirx as i128) * ((target as i128) - (b.velocity.x as i128))) * (
                strength as i128),
                DIR_SCALE as i128,
            );
            let addy = div_trunc_i128(
                ((diry as i128) * ((target as i128) - (b.velocity.y as i128))) * (
                strength as i128),
                DIR_SCALE as i128,
            );
            proof {
                lemma_div_trunc_bounds(
                    ((dirx as int) * ((target as int) - (b.velocity.x as int))) * (strength as int),
                    65536int,
                    35184372088832int,
                );
                lemma_div_trunc_bounds(
                    ((diry as int) * ((target as int) - (b.velocity.y as int))) * (strength as int),
                    65536int,
                    35184372088832int,
                );
            }
            let nfx = add_clamped_i128(b.force.x, addx, FORCE_MAX);
            let nfy = add_clamped_i128(b.force.y, addy, FORCE_MAX);
            b.force.x = nfx;
            b.force.y = nfy;
            bodies[i] = b;
        } else {
            proof {
                assert(mouse_add_spec(
                    (b.position.x, b.position.y),
                    b.velocity.x as int,
                    b.velocity.y as int,
                    ax as int,
                    ay as int,
                    radius as int,
                    strength as int,
                    amp as int,
                    mode_sign(mode),
                ) == (0int, 0int));
            }
            let nfx = add_clamped_i128(b.force.x, 0, FORCE_MAX);
            let nfy = add_clamped_i128(b.force.y, 0, FORCE_MAX);
            b.force.x = nfx;
            b.force.y = nfy;
            bodies[i] = b;
        }
        i += 1;
    }
    proof {
        assert forall|j: int| 0 <= j < bodies@.len() implies body_ok(#[trigger] bodies@[j]) by {
            let b0 = old(bodies)@[j];
            assert(body_ok(bodies@[j]));
        };
    }
}

} // verus!
