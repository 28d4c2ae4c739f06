//! Rigid-disc elastic collision resolution, the alternate mode to
//! the pressure solver.
//!
//! For every unordered pair of overlapping discs that are approaching
//! each other, the velocity component along the collision normal is
//! exchanged (equal-mass elastic collision).  The impulse is computed
//! without square roots as `num * (dx, dy) / d2`, where
//! `num = (v_i - v_j) . (dx, dy)` and `d2 = |(dx, dy)|^2`.  Because
//! the impulse components round toward zero independently, a rounded
//! impulse is not always collinear with the normal and could inject
//! energy; the resolver therefore applies it only when the pair's
//! kinetic energy does not grow, so resolution never adds energy.  A
//! pair at exactly coincident centers exerts no impulse, mirroring
//! the epsilon guards of the kernel functions.

use vstd::prelude::*;
use crate::fixed::div_trunc;
use crate::fixed::div_trunc_i128;
use crate::fixed::clamp_spec;
use crate::fixed::clamp_i128_to_i64;
use crate::particle::Body;
use crate::particle::Velocity;
use crate::particle::bodies_ok;
use crate::particle::body_ok;
use crate::particle::VEL_MAX;

verus! {

/// Squared speed of a velocity: twice the kinetic energy per unit
/// mass.
pub open spec fn speed2(v: Velocity) -> int {
    v.x * v.x + v.y * v.y
}

/// Summed squared speed of a pair.
pub open spec fn pair_ke(a: Velocity, b: Velocity) -> int {
    speed2(a) + speed2(b)
}

/// Summed squared speed of the first `upto` particles.
pub open spec fn ke_sum(s: Seq<Body>, upto: int) -> int
    decreases upto,
{
    if upto <= 0 {
        0
    } else {
        ke_sum(s, upto - 1) + speed2(s[upto - 1].velocity)
    }
}

/// Exact result of resolving one pair: unchanged unless the discs
/// overlap, are not coincident, are approaching, and the rounded
/// impulse does not raise the pair's kinetic energy.
pub open spec fn collide_pair_spec(bi: Body, bj: Body) -> (Body, Body) {
    let dx = bj.position.x - bi.position.x;
    let dy = bj.position.y - bi.position.y;
    let d2 = dx * dx + dy * dy;
    let rsum = bi.particle.radius + bj.particle.radius;
    let num = (bi.velocity.x - bj.velocity.x) * dx + (bi.velocity.y - bj.velocity.y) * dy;
    if 0 < d2 < rsum * rsum && num > 0 {
        let tx = div_trunc(num * dx, d2);
        let ty = div_trunc(num * dy, d2);
        let vi = Velocity {
            x: clamp_spec(bi.velocity.x - tx, -(VEL_MAX as int), VEL_MAX as int) as i64,
            y: clamp_spec(bi.velocity.y - ty, -(VEL_MAX as int), VEL_MAX as int) as i64,
        };
        let vj = Velocity {
            x: clamp_spec(bj.velocity.x + tx, -(VEL_MAX as int), VEL_MAX as int) as i64,
            y: clamp_spec(bj.velocity.y + ty, -(VEL_MAX as int), VEL_MAX as int) as i64,
        };
        if pair_ke(vi, vj) <= pair_ke(bi.velocity, bj.velocity) {
            (
                Body { velocity: vi, ..bi },
                Body { velocity: vj, ..bj },
            )
        } else {
            (bi, bj)
        }
    } else {
        (bi, bj)
    }
}

/// The whole pass over pairs `(i, j)` with `i < j`, visiting `j` in
/// ascending order for a fixed `i`.
pub open spec fn collide_pairs_from(s: Seq<Body>, i: int, j: int) -> Seq<Body>
    decreases s.len() - j,
    via collide_pairs_from_dec
{
    if j >= s.len() || j < 0 || i >= s.len() || i < 0 {
        s
    } else {
        let r = collide_pair_spec(s[i], s[j]);
        collide_pairs_from(s.update(i, r.0).update(j, r.1), i, j + 1)
    }
}

#[via_fn]
proof fn collide_pairs_from_dec(s: Seq<Body>, i: int, j: int) {
    if !(j >= s.len() || j < 0 || i >= s.len() || i < 0) {
        let r = collide_pair_spec(s[i], s[j]);
        assert(s.update(i, r.0).update(j, r.1).len() == s.len());
    }
}

/// The whole pass from row `i` on: all unordered pairs in ascending
/// index order.
pub open spec fn collide_all_spec(s: Seq<Body>, i: int) -> Seq<Body>
    decreases s.len() - i,
    via collide_all_spec_dec
{
    if i >= s.len() || i < 0 {
        s
    } else {
        collide_all_spec(collide_pairs_from(s, i, i + 1), i + 1)
    }
}

#[via_fn]
proof fn collide_all_spec_dec(s: Seq<Body>, i: int) {
    if !(i >= s.len() || i < 0) {
        lemma_collide_pairs_from_len(s, i, i + 1);
    }
}

/// The pair pass keeps the population's length.
pub proof fn lemma_collide_pairs_from_len(s: Seq<Body>, i: int, j: int)
    ensures
        collide_pairs_from(s, i, j).len() == s.len(),
    decreases s.len() - j,
{
    if !(j >= s.len() || j < 0 || i >= s.len() || i < 0) {
        let r = collide_pair_spec(s[i], s[j]);
        lemma_collide_pairs_from_len(s.update(i, r.0).update(j, r.1), i, j + 1);
    }
}

/// Kinetic energy is exactly conserved by the unrounded impulse
/// exchange: scaling velocities by `d2`, the updated pair has the
/// same summed squared speed as before — the exchange itself is
/// elastic and lossless, and the resolver's rounding guard only ever
/// rejects energy gained through rounding.
pub proof fn lemma_collision_energy_conserved(
    vix: int,
    viy: int,
    vjx: int,
    vjy: int,
    dx: int,
    dy: int,
)
    ensures
        ({
            let d2 = dx * dx + dy * dy;
            let num = (vix - vjx) * dx + (viy - vjy) * dy;
            (d2 * vix - num * dx) * (d2 * vix - num * dx) + (d2 * viy - num * dy) * (d2 * viy - num
                * dy) + (d2 * vjx + num * dx) * (d2 * vjx + num * dx) + (d2 * vjy + num * dy) * (d2
                * vjy + num * dy) == (d2 * d2) * (vix * vix + viy * viy + vjx * vjx + vjy * vjy)
        }),
{
    let d2 = dx * dx + dy * dy;
    let num = (vix - vjx) * dx + (viy - vjy) * dy;
    let a1 = d2 * vix;
    let a2 = d2 * viy;
    let a3 = d2 * vjx;
    let a4 = d2 * vjy;
    let b1 = num * dx;
    let b2 = num * dy;
    assert((a1 - b1) * (a1 - b1) == a1 * a1 - 2 * (a1 * b1) + b1 * b1) by (nonlinear_arith);
    assert((a2 - b2) * (a2 - b2) == a2 * a2 - 2 * (a2 * b2) + b2 * b2) by (nonlinear_arith);
    assert((a3 + b1) * (a3 + b1) == a3 * a3 + 2 * (a3 * b1) + b1 * b1) by (nonlinear_arith);
    assert((a4 + b2) * (a4 + b2) == a4 * a4 + 2 * (a4 * b2) + b2 * b2) by (nonlinear_arith);
    assert(a1 * a1 == (d2 * d2) * (vix * vix)) by (nonlinear_arith)
        requires a1 == d2 * vix;
    assert(a2 * a2 == (d2 * d2) * (viy * viy)) by (nonlinear_arith)
        requires a2 == d2 * viy;
    assert(a3 * a3 == (d2 * d2) * (vjx * vjx)) by (nonlinear_arith)
        requires a3 == d2 * vjx;
    assert(a4 * a4 == (d2 * d2) * (vjy * vjy)) by (nonlinear_arith)
        requires a4 == d2 * vjy;
    assert(b1 * b1 + b2 * b2 == (num * num) * d2) by (nonlinear_arith)
        requires
            b1 == num * dx,
            b2 == num * dy,
            d2 == dx * dx + dy * dy,
    ;
    let c = d2 * num;
    assert(a1 * b1 == c * (vix * dx)) by (nonlinear_arith)
        requires a1 == d2 * vix && b1 == num * dx && c == d2 * num;
    assert(a2 * b2 == c * (viy * dy)) by (nonlinear_arith)
        requires a2 == d2 * viy && b2 == num * dy && c == d2 * num;
    assert(a3 * b1 == c * (vjx * dx)) by (nonlinear_arith)
        requires a3 == d2 * vjx && b1 == num * dx && c == d2 * num;
    assert(a4 * b2 == c * (vjy * dy)) by (nonlinear_arith)
        requires a4 == d2 * vjy && b2 == num * dy && c == d2 * num;
    assert(c * (vix * dx) + c * (viy * dy) - c * (vjx * dx) - c * (vjy * dy) == c * num)
        by (nonlinear_arith)
        requires num == (vix - vjx) * dx + (viy - vjy) * dy;
    assert(c * num == d2 * (num * num)) by (nonlinear_arith)
        requires c == d2 * num;
    assert((num * num) * d2 == d2 * (num * num)) by (nonlinear_arith);
    assert((d2 * d2) * (vix * vix + viy * viy + vjx * vjx + vjy * vjy) == (d2 * d2) * (vix * vix)
        + (d2 * d2) * (viy * viy) + (d2 * d2) * (vjx * vjx) + (d2 * d2) * (vjy * vjy))
        by (nonlinear_arith);
}

/// When the impulse divides exactly and no velocity clamp engages,
/// the pair resolution leaves the pair's kinetic energy unchanged:
/// the representable exchange is exactly elastic.
pub proof fn lemma_collide_pair_energy(bi: Body, bj: Body)
    requires
        ({
            let dx = bj.position.x - bi.position.x;
            let dy = bj.position.y - bi.position.y;
            let d2 = dx * dx + dy * dy;
            let rsum = bi.particle.radius + bj.particle.radius;
            let num = (bi.velocity.x - bj.velocity.x) * dx + (bi.velocity.y - bj.velocity.y) * dy;
            let tx = div_trunc(num * dx, d2);
            let ty = div_trunc(num * dy, d2);
            (0 < d2 < rsum * rsum && num > 0) ==> {
                &&& d2 * tx == num * dx
                &&& d2 * ty == num * dy
                &&& -(VEL_MAX as int) <= bi.velocity.x - tx <= VEL_MAX as int
                &&& -(VEL_MAX as int) <= bi.velocity.y - ty <= VEL_MAX as int
                &&& -(VEL_MAX as int) <= bj.velocity.x + tx <= VEL_MAX as int
                &&& -(VEL_MAX as int) <= bj.velocity.y + ty <= VEL_MAX as int
            }
        }),
    ensures
        ({
            let r = collide_pair_spec(bi, bj);
            pair_ke(r.0.velocity, r.1.velocity) == pair_ke(bi.velocity, bj.velocity)
        }),
{
    let dx = bj.position.x - bi.position.x;
    let dy = bj.position.y - bi.position.y;
    let d2 = dx * dx + dy * dy;
    let rsum = bi.particle.radius + bj.particle.radius;
    let num = (bi.velocity.x - bj.velocity.x) * dx + (bi.velocity.y - bj.velocity.y) * dy;
    if 0 < d2 < rsum * rsum && num > 0 {
        let tx = div_trunc(num * dx, d2);
        let ty = div_trunc(num * dy, d2);
        let vix = bi.velocity.x as int;
        let viy = bi.velocity.y as int;
        let vjx = bj.velocity.x as int;
        let vjy = bj.velocity.y as int;
        lemma_collision_energy_conserved(vix, viy, vjx, vjy, dx, dy);
        assert((d2 * vix - num * dx) * (d2 * vix - num * dx) == (d2 * d2) * ((vix - tx) * (vix
            - tx))) by (nonlinear_arith)
            requires
                d2 * tx == num * dx,
        ;
        assert((d2 * viy - num * dy) * (d2 * viy - num * dy) == (d2 * d2) * ((viy - ty) * (viy
            - ty))) by (nonlinear_arith)
            requires
                d2 * ty == num * dy,
        ;
        assert((d2 * vjx + num * dx) * (d2 * vjx + num * dx) == (d2 * d2) * ((vjx + tx) * (vjx
            + tx))) by (nonlinear_arith)
            requires
                d2 * tx == num * dx,
        ;
        assert((d2 * vjy + num * dy) * (d2 * vjy + num * dy) == (d2 * d2) * ((vjy + ty) * (vjy
            + ty))) by (nonlinear_arith)
            requires
                d2 * ty == num * dy,
        ;
        assert(((vix - tx) * (vix - tx) + (viy - ty) * (viy - ty) + (vjx + tx) * (vjx + tx) + (vjy
            + ty) * (vjy + ty)) == (vix * vix + viy * viy + vjx * vjx + vjy * vjy))
            by (nonlinear_arith)
            requires
                (d2 * d2) * ((vix - tx) * (vix - tx)) + (d2 * d2) * ((viy - ty) * (viy - ty)) + (d2
                    * d2) * ((vjx + tx) * (vjx + tx)) + (d2 * d2) * ((vjy + ty) * (vjy + ty)) == (
                d2 * d2) * (vix * vix + viy * viy + vjx * vjx + vjy * vjy),
                d2 > 0,
        ;
    }
}

/// Updating one particle moves the kinetic-energy sum by exactly
/// that particle's change.
pub proof fn lemma_ke_sum_update(s: Seq<Body>, k: int, b: Body, upto: int)
    requires
        0 <= k < s.len(),
        0 <= upto <= s.len(),
    ensures
        ke_sum(s.update(k, b), upto) == ke_sum(s, upto) + if k < upto {
            speed2(b.velocity) - speed2(s[k].velocity)
        } else {
            0
        },
    decreases upto,
{
    if upto > 0 {
        lemma_ke_sum_update(s, k, b, upto - 1);
        if k == upto - 1 {
            assert(s.update(k, b)[upto - 1] == b);
        } else {
            assert(s.update(k, b)[upto - 1] == s[upto - 1]);
        }
    }
}

/// Resolve one pair of discs, exactly as `collide_pair_spec` states;
/// the pair's kinetic energy never increases.
pub fn resolve_pair(bi: Body, bj: Body) -> (r: (Body, Body))
    requires
        body_ok(bi),
        body_ok(bj),
    ensures
        r == collide_pair_spec(bi, bj),
        body_ok(r.0),
        body_ok(r.1),
        pair_ke(r.0.velocity, r.1.velocity) <= pair_ke(bi.velocity, bj.velocity),
        r.0.position == bi.position && r.0.particle == bi.particle && r.0.force == bi.force,
        r.1.position == bj.position && r.1.particle == bj.particle && r.1.force == bj.force,
{
    let dx = bj.position.x - bi.position.x;
    let dy = bj.position.y - bi.position.y;
    proof {
        assert(0 <= dx * dx <= 1125899906842624int * 2 && 0 <= dy * dy <= 1125899906842624int * 2
            && dx * dx + dy * dy <= 4503599627370496int) by (nonlinear_arith)
            requires
                -33554432 <= dx as int <= 33554432,
                -33554432 <= dy as int <= 33554432,
        ;
        assert(0 <= (bi.particle.radius as int + bj.particle.radius as int) * (
        bi.particle.radius as int + bj.particle.radius as int) <= 1125899906842624int * 1024)
            by (nonlinear_arith)
            requires
                0 <= bi.particle.radius as int + bj.particle.radius as int <= 33554432,
        ;
    }
    let d2 = dx * dx + dy * dy;
    let rsum = bi.particle.radius + bj.particle.radius;
    let rsum2 = rsum * rsum;
    let dvx = bi.velocity.x - bj.velocity.x;
    let dvy = bi.velocity.y - bj.velocity.y;
    proof {
        assert(-2251799813685248int <= (dvx as int) * (dx as int) <= 2251799813685248int
            && -2251799813685248int <= (dvy as int) * (dy as int) <= 2251799813685248int)
            by (nonlinear_arith)
            requires
                -33554432 <= dvx as int <= 33554432,
                -33554432 <= dvy as int <= 33554432,
                -33554432 <= dx as int <= 33554432,
                -33554432 <= dy as int <= 33554432,
        ;
    }
    let num = dvx * dx + dvy * dy;
    if 0 < d2 && d2 < rsum2 && num > 0 {
        proof {
            assert(-151115727451828646838272int <= (num as int) * (dx as int)
                <= 151115727451828646838272int && -151115727451828646838272int <= (num as int) * (
            dy as int) <= 151115727451828646838272int) by (nonlinear_arith)
                requires
                    -4503599627370496int <= num as int <= 4503599627370496int,
                    -33554432 <= dx as int <= 33554432,
                    -33554432 <= dy as int <= 33554432,
            ;
        }
        let tx = div_trunc_i128((num as i128) * (dx as i128), d2 as i128);
        let ty = div_trunc_i128((num as i128) * (dy as i128), d2 as i128);
        let vix = clamp_i128_to_i64((bi.velocity.x as i128) - tx, VEL_MAX);
        let viy = clamp_i128_to_i64((bi.velocity.y as i128) - ty, VEL_MAX);
        let vjx = clamp_i128_to_i64((bj.velocity.x as i128) + tx, VEL_MAX);
        let vjy = clamp_i128_to_i64((bj.velocity.y as i128) + ty, VEL_MAX);
        let ke_before = speed2_exec(bi.velocity.x, bi.velocity.y) + speed2_exec(
            bj.velocity.x,
            bj.velocity.y,
        );
        let ke_after = speed2_exec(vix, viy) + speed2_exec(vjx, vjy);
        if ke_after <= ke_before {
            let mut ri = bi;
            let mut rj = bj;
            ri.velocity.x = vix;
            ri.velocity.y = viy;
            rj.velocity.x = vjx;
            rj.velocity.y = vjy;
            (ri, rj)
        } else {
            (bi, bj)
        }
    } else {
        (bi, bj)
    }
}

/// Squared speed of one velocity, exactly.
fn speed2_exec(vx: i64, vy: i64) -> (r: i128)
    requires
        -VEL_MAX <= vx <= VEL_MAX,
        -VEL_MAX <= vy <= VEL_MAX,
    ensures
        r as int == speed2(Velocity { x: vx, y: vy }),
        0 <= r <= 562949953421312,
{
    proof {
        assert(0 <= (vx as int) * (vx as int) <= 281474976710656int && 0 <= (vy as int) * (
        vy as int) <= 281474976710656int) by (nonlinear_arith)
            requires
                -16777216 <= vx as int <= 16777216,
                -16777216 <= vy as int <= 16777216,
        ;
    }
    (vx as i128) * (vx as i128) + (vy as i128) * (vy as i128)
}

/// Resolve every unordered pair once, in ascending index order.  The
/// final population equals the pair-by-pair fold `collide_all_spec`;
/// positions, masses, radii, solver outputs and forces are untouched,
/// and the population's total kinetic energy does not increase.
pub fn resolve_collisions(bodies: &mut Vec<Body>)
    requires
        bodies_ok(old(bodies)@),
    ensures
        final(bodies)@.len() == old(bodies)@.len(),
        bodies_ok(final(bodies)@),
        final(bodies)@ == collide_all_spec(old(bodies)@, 0),
        ke_sum(final(bodies)@, final(bodies)@.len() as int) <= ke_sum(
            old(bodies)@,
            old(bodies)@.len() as int,
        ),
        forall|i: int|
            0 <= i < final(bodies)@.len() ==> {
                let b0 = #[trigger] old(bodies)@[i];
                let b1 = final(bodies)@[i];
                &&& b1.position == b0.position
                &&& b1.particle == b0.particle
                &&& b1.force == b0.force
            },
{
    let n = bodies.len();
    let mut i: usize = 0;
    while i < n
        invariant
            n == bodies@.len(),
            old(bodies)@.len() == n as int,
            i <= n,
            bodies_ok(bodies@),
            collide_all_spec(bodies@, i as int) == collide_all_spec(old(bodies)@, 0),
            ke_sum(bodies@, n as int) <= ke_sum(old(bodies)@, n as int),
            forall|q: int|
                0 <= q < n ==> {
                    let b0 = #[trigger] old(bodies)@[q];
                    let b1 = bodies@[q];
                    &&& b1.position == b0.position
                    &&& b1.particle == b0.particle
                    &&& b1.force == b0.force
                },
        decreases n - i,
    {
        proof {
            assert(collide_all_spec(bodies@, i as int) == collide_all_spec(
                collide_pairs_from(bodies@, i as int, i as int + 1),
                i as int + 1,
            ));
        }
        let mut j: usize = i + 1;
        while j < n
            invariant
                n == bodies@.len(),
                old(bodies)@.len() == n as int,
                i < n,
                i < j,
                j <= n,
                bodies_ok(bodies@),
                collide_all_spec(collide_pairs_from(bodies@, i as int, j as int), i as int + 1)
                    == collide_all_spec(old(bodies)@, 0),
                ke_sum(bodies@, n as int) <= ke_sum(old(bodies)@, n as int),
                forall|q: int|
                    0 <= q < n ==> {
                        let b0 = #[trigger] old(bodies)@[q];
                        let b1 = bodies@[q];
                        &&& b1.position == b0.position
                        &&& b1.particle == b0.particle
                        &&& b1.force == b0.force
                    },
            decreases n - j,
        {
            let bi = bodies[i];
            let bj = bodies[j];
            let (ri, rj) = resolve_pair(bi, bj);
            let ghost s0 = bodies@;
            bodies[i] = ri;
            bodies[j] = rj;
            proof {
                let s1 = s0.update(i as int, ri).update(j as int, rj);
                assert(bodies@ == s1);
                assert(collide_pairs_from(s0, i as int, j as int) == collide_pairs_from(
                    s1,
                    i as int,
                    j as int + 1,
                ));
                lemma_ke_sum_update(s0, i as int, ri, n as int);
                lemma_ke_sum_update(s0.update(i as int, ri), j as int, rj, n as int);
                assert(s0.update(i as int, ri)[j as int] == s0[j as int]);
            }
            j += 1;
        }
        proof {
            assert(collide_pairs_from(bodies@, i as int, n as int) == bodies@);
        }
        i += 1;
    }
    proof {
        assert(collide_all_spec(bodies@, n as int) == bodies@);
    }
}

} // verus!
