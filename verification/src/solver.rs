//! The two SPH solver passes.
//!
//! First pass: each particle's density is the kernel-weighted sum of
//! neighbor masses over predicted positions, and its pressure follows
//! the clamped equation of state
//! `max(0, pressure_multiplier * (density - rest_density))`.
//! Second pass: each particle adds the symmetric pressure-gradient
//! force
//! `-mass_i * sum_j (mass_j / max(density_j, 1)) * (p_i + p_j)/2 * grad`
//! into its force accumulator, on top of any force already injected
//! there; `clear_forces` zeroes the accumulators at the start of a
//! frame's force phase.
//!
//! Every sum is pinned to a brute-force ghost recursion over all
//! particle indices; the spatial hash only accelerates the search,
//! as the contracts prove.

use vstd::prelude::*;
use crate::fixed::div_trunc;
use crate::fixed::div_floor_i128;
use crate::fixed::add_clamped_i128;
use crate::fixed::clamp_spec;
use crate::particle::FORCE_MAX;
use crate::particle::Force;
use crate::fixed::div_trunc_i128;
use crate::fixed::isqrt_i64;
use crate::fixed::is_isqrt;
use crate::kernels::valid_h;
use crate::kernels::poly6_spec;
use crate::kernels::spiky_grad_spec;
use crate::kernels::poly6_kernel;
use crate::kernels::spiky_kernel_gradient;
use crate::grid::SpatialHash;
use crate::grid::pos_bounded;
use crate::grid::within_range;
use crate::grid::dist2;
use crate::grid::dist2_exec;
use crate::grid::strictly_ascending;
use crate::grid::lemma_ascending_gap;
use crate::grid::lemma_ascending_tail;
use crate::particle::Body;
use crate::particle::bodies_ok;
use crate::particle::body_ok;
use crate::particle::DENSITY_MAX;
use crate::particle::PRESSURE_MULT_MAX;
use crate::particle::REST_DENSITY_MAX;
use crate::particle::DT_MAX;

verus! {

/// Divisor turning raw kernel sums into stored densities (2^32).
pub const DENSITY_SCALE: i128 = 4294967296;

/// Scale of the mass-over-density ratio in the force sum (2^16).
pub const RATIO_SCALE: i64 = 65536;

/// The floor square root as a ghost value.
pub open spec fn sqrt_floor(n: int) -> int {
    choose|r: int| is_isqrt(n, r)
}

/// Any witness of `is_isqrt` is the unique floor square root.
pub proof fn lemma_sqrt_floor_unique(n: int, r: int)
    requires
        is_isqrt(n, r),
    ensures
        sqrt_floor(n) == r,
{
    let r2 = sqrt_floor(n);
    assert(is_isqrt(n, r2));
    assert(r == r2) by (nonlinear_arith)
        requires
            r * r <= n < (r + 1) * (r + 1),
            r2 * r2 <= n < (r2 + 1) * (r2 + 1),
            r >= 0,
            r2 >= 0,
    ;
}

/// Ghost predicted coordinate: position plus velocity times the frame
/// time, in milliseconds, rounded toward zero.
pub open spec fn predict_spec(p: int, v: int, dt: int) -> int {
    p + div_trunc(v * dt, 1000)
}

/// Predicted positions of a whole population.
pub open spec fn predict_seq(bs: Seq<Body>, dt: int) -> Seq<(i64, i64)> {
    Seq::new(
        bs.len(),
        |j: int|
            (
                predict_spec(bs[j].position.x as int, bs[j].velocity.x as int, dt) as i64,
                predict_spec(bs[j].position.y as int, bs[j].velocity.y as int, dt) as i64,
            ),
    )
}

/// Masses of a population, as ghost integers.
pub open spec fn mass_seq(bs: Seq<Body>) -> Seq<int> {
    Seq::new(bs.len(), |j: int| bs[j].particle.mass as int)
}

/// Densities of a population, as ghost integers.
pub open spec fn density_seq(bs: Seq<Body>) -> Seq<int> {
    Seq::new(bs.len(), |j: int| bs[j].particle.density as int)
}

/// Pressures of a population, as ghost integers.
pub open spec fn pressure_seq(bs: Seq<Body>) -> Seq<int> {
    Seq::new(bs.len(), |j: int| bs[j].particle.pressure as int)
}

/// One neighbor's contribution to particle `i`'s raw density: zero
/// for the particle itself and for non-neighbors.
pub open spec fn density_term(
    ms: Seq<int>,
    pred: Seq<(i64, i64)>,
    h: int,
    i: int,
    j: int,
) -> int {
    if j != i && within_range(pred, h, i, j) {
        ms[j] * poly6_spec(sqrt_floor(dist2(pred[i], pred[j])), h)
    } else {
        0
    }
}

/// Brute-force raw density sum of particle `i` over all indices below
/// `upto`.
pub open spec fn density_raw(
    ms: Seq<int>,
    pred: Seq<(i64, i64)>,
    h: int,
    i: int,
    upto: int,
) -> int
    decreases upto,
{
    if upto <= 0 {
        0
    } else {
        density_raw(ms, pred, h, i, upto - 1) + density_term(ms, pred, h, i, upto - 1)
    }
}

/// The stored density of particle `i`: the raw sum over the whole
/// population, rescaled.
pub open spec fn density_spec(ms: Seq<int>, pred: Seq<(i64, i64)>, h: int, i: int) -> int {
    density_raw(ms, pred, h, i, pred.len() as int) / (DENSITY_SCALE as int)
}

/// Clamped equation of state.
pub open spec fn pressure_spec(density: int, k: int, rho0: int) -> int {
    let p = k * (density - rho0);
    if p > 0 {
        p
    } else {
        0
    }
}

/// The raw density sum does not move across a stretch of indices that
/// contribute nothing.
pub proof fn lemma_density_raw_flat(
    ms: Seq<int>,
    pred: Seq<(i64, i64)>,
    h: int,
    i: int,
    a: int,
    b: int,
)
    requires
        0 <= a <= b,
        forall|j: int| a <= j < b ==> density_term(ms, pred, h, i, j) == 0,
    ensures
        density_raw(ms, pred, h, i, b) == density_raw(ms, pred, h, i, a),
    decreases b - a,
{
    if a < b {
        lemma_density_raw_flat(ms, pred, h, i, a, b - 1);
    }
}

/// A strictly ascending index sequence grows at least as fast as
/// its positions.
pub proof fn lemma_ascending_below(s: Seq<usize>, m: int)
    requires
        strictly_ascending(s),
        0 <= m < s.len(),
    ensures
        s[m] >= m,
    decreases m,
{
    if m > 0 {
        lemma_ascending_below(s, m - 1);
        assert(s[m - 1] < s[m]);
    }
}

/// Predicted positions of the whole population, each within the
/// grid's accepted coordinate range.
pub fn predict_positions(bodies: &Vec<Body>, dt: i64) -> (r: Vec<(i64, i64)>)
    requires
        bodies_ok(bodies@),
        0 <= dt <= DT_MAX,
    ensures
        r@ == predict_seq(bodies@, dt as int),
        r@.len() == bodies@.len(),
        forall|j: int| 0 <= j < r@.len() ==> pos_bounded(#[trigger] r@[j]),
{
    let n = bodies.len();
    let mut r: Vec<(i64, i64)> = Vec::new();
    let mut i: usize = 0;
    while i < n
        invariant
            n == bodies@.len(),
            bodies_ok(bodies@),
            0 <= dt <= DT_MAX,
            i <= n,
            r@.len() == i as int,
            forall|j: int| 0 <= j < (i as int) ==> r@[j] == predict_seq(bodies@, dt as int)[j],
            forall|j: int| 0 <= j < (i as int) ==> pos_bounded(#[trigger] r@[j]),
        decreases n - i,
    {
        let b = bodies[i];
        proof {
            assert(body_ok(bodies@[i as int]));
            assert(-16777216000int <= (b.velocity.x as int) * (dt as int) <= 16777216000int
                && -16777216000int <= (b.velocity.y as int) * (dt as int) <= 16777216000int)
                by (nonlinear_arith)
                requires
                    -16777216 <= b.velocity.x as int <= 16777216,
                    -16777216 <= b.velocity.y as int <= 16777216,
                    0 <= dt as int <= 1000,
            ;
            crate::fixed::lemma_div_trunc_bounds(
                (b.velocity.x as int) * (dt as int),
                1000,
                16777216,
            );
            crate::fixed::lemma_div_trunc_bounds(
                (b.velocity.y as int) * (dt as int),
                1000,
                16777216,
            );
        }
        let tx = div_trunc_i128((b.velocity.x as i128) * (dt as i128), 1000);
        let ty = div_trunc_i128((b.velocity.y as i128) * (dt as i128), 1000);
        let px = b.position.x + tx as i64;
        let py = b.position.y + ty as i64;
        r.push((px, py));
        i += 1;
    }
    proof {
        assert(r@ =~= predict_seq(bodies@, dt as int));
    }
    r
}

/// First solver pass: write every particle's density and pressure
/// from the predicted positions, leaving all other state untouched.
pub fn update_densities(
    bodies: &mut Vec<Body>,
    pred: &Vec<(i64, i64)>,
    g: &SpatialHash,
    h: i64,
    k: i64,
    rho0: i64,
)
    requires
        bodies_ok(old(bodies)@),
        pred@.len() == old(bodies)@.len(),
        forall|j: int| 0 <= j < pred@.len() ==> pos_bounded(#[trigger] pred@[j]),
        g.wf(pred@, h as int),
        valid_h(h as int),
        1 <= k <= PRESSURE_MULT_MAX,
        0 <= rho0 <= REST_DENSITY_MAX,
    ensures
        final(bodies)@.len() == old(bodies)@.len(),
        bodies_ok(final(bodies)@),
        forall|i: int|
            0 <= i < final(bodies)@.len() ==> {
                let b0 = #[trigger] old(bodies)@[i];
                let b1 = final(bodies)@[i];
                &&& b1.position == b0.position
                &&& b1.velocity == b0.velocity
                &&& b1.force == b0.force
                &&& b1.particle.mass == b0.particle.mass
                &&& b1.particle.radius == b0.particle.radius
                &&& b1.particle.density as int == density_spec(
                    mass_seq(old(bodies)@),
                    pred@,
                    h as int,
                    i,
                )
                &&& b1.particle.pressure as int == pressure_spec(
                    b1.particle.density as int,
                    k as int,
                    rho0 as int,
                )
            },
{
    let ghost ms = mass_seq(old(bodies)@);
    let n = bodies.len();
    let mut i: usize = 0;
    while i < n
        invariant
            n == bodies@.len(),
            bodies@.len() == old(bodies)@.len(),
            pred@.len() == old(bodies)@.len(),
            i <= n,
            ms == mass_seq(old(bodies)@),
            bodies_ok(old(bodies)@),
            forall|j: int| 0 <= j < pred@.len() ==> pos_bounded(#[trigger] pred@[j]),
            g.wf(pred@, h as int),
            valid_h(h as int),
            1 <= k <= PRESSURE_MULT_MAX,
            0 <= rho0 <= REST_DENSITY_MAX,
            forall|j: int| (i as int) <= j < n ==> bodies@[j] == old(bodies)@[j],
            forall|j: int|
                0 <= j < (i as int) ==> {
                    let b0 = #[trigger] old(bodies)@[j];
                    let b1 = bodies@[j];
                    &&& b1.position == b0.position
                    &&& b1.velocity == b0.velocity
                    &&& b1.force == b0.force
                    &&& b1.particle.mass == b0.particle.mass
                    &&& b1.particle.radius == b0.particle.radius
                    &&& b1.particle.density as int == density_spec(ms, pred@, h as int, j)
                    &&& b1.particle.pressure as int == pressure_spec(
                        b1.particle.density as int,
                        k as int,
                        rho0 as int,
                    )
                    &&& body_ok(b1)
                },
        decreases n - i,
    {
        let r = g.gather_neighbors(pred, h, i);
        let mut acc: i128 = 0;
        let mut kk: usize = 0;
        let ghost mut front: int = 0;
        while kk < r.len()
            invariant
                n == bodies@.len(),
                old(bodies)@.len() == n as int,
                pred@.len() == n as int,
                (i as int) < n as int,
                ms == mass_seq(old(bodies)@),
                bodies_ok(old(bodies)@),
                forall|j: int| 0 <= j < pred@.len() ==> pos_bounded(#[trigger] pred@[j]),
                valid_h(h as int),
                strictly_ascending(r@),
                forall|m: int| 0 <= m < r@.len() ==> ((#[trigger] r@[m]) as int) < pred@.len(),
                forall|j: int|
                    0 <= j < pred@.len() ==> ((#[trigger] r@.contains(j as usize))
                        <==> within_range(pred@, h as int, i as int, j)),
                forall|j: int| 0 <= j < n ==> (#[trigger] bodies@[j]).particle.mass as int
                    == ms[j],
                forall|j: int| (i as int) <= j < n ==> bodies@[j] == old(bodies)@[j],
                forall|j: int|
                    0 <= j < (i as int) ==> {
                        let b0 = #[trigger] old(bodies)@[j];
                        let b1 = bodies@[j];
                        &&& b1.position == b0.position
                        &&& b1.velocity == b0.velocity
                        &&& b1.force == b0.force
                        &&& b1.particle.mass == b0.particle.mass
                        &&& b1.particle.radius == b0.particle.radius
                        &&& b1.particle.density as int == density_spec(ms, pred@, h as int, j)
                        &&& b1.particle.pressure as int == pressure_spec(
                            b1.particle.density as int,
                            k as int,
                            rho0 as int,
                        )
                        &&& body_ok(b1)
                    },
                kk <= r@.len(),
                front == if kk == 0 {
                    0int
                } else {
                    r@[kk as int - 1] as int + 1
                },
                0 <= front <= n as int,
                acc as int == density_raw(ms, pred@, h as int, i as int, front),
                0 <= acc <= (kk as int) * 9007199254740992int,
            decreases r@.len() - kk,
        {
            let j = r[kk];
            proof {
                assert(r@.contains(r@[kk as int]));
                assert((j as int) < pred@.len());
                assert(front <= j as int) by {
                    if kk > 0 {
                        assert(r@[kk as int - 1] < r@[kk as int]);
                    }
                };
                assert forall|y: int|
                    front <= y < (j as int) implies density_term(ms, pred@, h as int, i as int, y)
                        == 0 by {
                    lemma_ascending_gap(r@, kk as int, y as usize);
                    assert(!r@.contains(y as usize));
                };
                lemma_density_raw_flat(ms, pred@, h as int, i as int, front, j as int);
            }
            if j != i {
                proof {
                    let ghost jj = j as int;
                    assert(r@.contains(jj as usize));
                    assert(within_range(pred@, h as int, i as int, jj));
                }
                let d2 = dist2_exec(pred[i], pred[j]);
                let d = isqrt_i64(d2);
                proof {
                    lemma_sqrt_floor_unique(d2 as int, d as int);
                }
                let w = poly6_kernel(d, h);
                let mj = bodies[j].particle.mass;
                proof {
                    assert(body_ok(old(bodies)@[j as int]));
                    assert(bodies@[j as int].particle.mass as int == ms[j as int]);
                    assert(0 <= (mj as int) * (w as int) <= 9007199254740992int)
                        by (nonlinear_arith)
                        requires
                            0 <= mj as int <= 1024,
                            0 <= w as int <= 8796093022208int,
                    ;
                }
                acc = acc + (mj as i128) * (w as i128);
                proof {
                    assert(density_term(ms, pred@, h as int, i as int, j as int) == (mj as int) * (
                    w as int));
                }
            } else {
                proof {
                    assert(density_term(ms, pred@, h as int, i as int, j as int) == 0);
                }
            }
            proof {
                front = j as int + 1;
            }
            kk += 1;
        }
        proof {
            assert forall|y: int|
                front <= y < (n as int) implies density_term(ms, pred@, h as int, i as int, y)
                    == 0 by {
                if kk == 0 {
                    lemma_ascending_tail(r@, y as usize);
                } else {
                    assert(r@[kk as int - 1] < y as usize);
                    lemma_ascending_tail(r@, y as usize);
                }
                assert(!r@.contains(y as usize));
            };
            lemma_density_raw_flat(ms, pred@, h as int, i as int, front, n as int);
            assert(acc as int == density_raw(ms, pred@, h as int, i as int, n as int));
        }
        let dens128 = div_floor_i128(acc, DENSITY_SCALE);
        proof {
            vstd::arithmetic::div_mod::lemma_div_pos_is_pos(acc as int, DENSITY_SCALE as int);
            assert(r@.len() <= n as int) by {
                if r@.len() > n as int {
                    lemma_ascending_below(r@, n as int);
                }
            };
            assert(acc as int <= (DENSITY_SCALE as int) * (DENSITY_MAX as int)) by {
                assert((kk as int) * 9007199254740992int <= 2048 * 9007199254740992int)
                    by (nonlinear_arith)
                    requires
                        0 <= kk as int <= 2048,
                ;
            };
            vstd::arithmetic::div_mod::lemma_multiply_divide_le(
                acc as int,
                DENSITY_SCALE as int,
                DENSITY_MAX as int,
            );
        }
        let dens = dens128 as i64;
        let diff = dens - rho0;
        proof {
            assert(-17592186044416int <= (k as int) * (diff as int) <= 17592186044416int)
                by (nonlinear_arith)
                requires
                    1 <= k as int <= 4096,
                    -4294967296int <= diff as int <= 4294967296int,
            ;
        }
        let pr128: i128 = (k as i128) * (diff as i128);
        let pressure: i64 = if pr128 > 0 {
            pr128 as i64
        } else {
            0
        };
        proof {
            assert(body_ok(old(bodies)@[i as int]));
        }
        let mut b = bodies[i];
        b.particle.density = dens;
        b.particle.pressure = pressure;
        bodies[i] = b;
        proof {
            assert(bodies@[i as int] == b);
            assert(b.particle.pressure as int == pressure_spec(
                b.particle.density as int,
                k as int,
                rho0 as int,
            ));
            assert(body_ok(b));
        }
        i += 1;
    }
    proof {
        assert forall|j: int| 0 <= j < bodies@.len() implies body_ok(#[trigger] bodies@[j]) by {
            let b0 = old(bodies)@[j];
            assert(body_ok(bodies@[j]));
        };
    }
}

/// One neighbor's contribution to the force sum on particle `i`:
/// `(mass_j * RATIO_SCALE / max(density_j, 1)) * (p_i + p_j) / 2`
/// times the spiky gradient, per axis.
pub open spec fn force_term(
    ms: Seq<int>,
    ds: Seq<int>,
    ps: Seq<int>,
    pred: Seq<(i64, i64)>,
    h: int,
    i: int,
    j: int,
) -> (int, int) {
    if j != i && within_range(pred, h, i, j) {
        let d = sqrt_floor(dist2(pred[i], pred[j]));
        let dx = pred[j].0 - pred[i].0;
        let dy = pred[j].1 - pred[i].1;
        let a = (ms[j] * (RATIO_SCALE as int)) / (if ds[j] >= 1 { ds[j] } else { 1 });
        let pavg = (ps[i] + ps[j]) / 2;
        ((a * pavg) * spiky_grad_spec(dx, d, h), (a * pavg) * spiky_grad_spec(dy, d, h))
    } else {
        (0, 0)
    }
}

/// Brute-force force sum on particle `i` over all indices below
/// `upto`.
pub open spec fn force_raw(
    ms: Seq<int>,
    ds: Seq<int>,
    ps: Seq<int>,
    pred: Seq<(i64, i64)>,
    h: int,
    i: int,
    upto: int,
) -> (int, int)
    decreases upto,
{
    if upto <= 0 {
        (0, 0)
    } else {
        let rest = force_raw(ms, ds, ps, pred, h, i, upto - 1);
        let t = force_term(ms, ds, ps, pred, h, i, upto - 1);
        (rest.0 + t.0, rest.1 + t.1)
    }
}

/// The accumulated pressure force of particle `i`: the raw sum over
/// the whole population, scaled by the particle's own negated mass.
pub open spec fn force_spec(
    ms: Seq<int>,
    ds: Seq<int>,
    ps: Seq<int>,
    pred: Seq<(i64, i64)>,
    h: int,
    i: int,
) -> (int, int) {
    let s = force_raw(ms, ds, ps, pred, h, i, pred.len() as int);
    (-ms[i] * s.0, -ms[i] * s.1)
}

/// The raw force sum does not move across a stretch of indices that
/// contribute nothing.
pub proof fn lemma_force_raw_flat(
    ms: Seq<int>,
    ds: Seq<int>,
    ps: Seq<int>,
    pred: Seq<(i64, i64)>,
    h: int,
    i: int,
    a: int,
    b: int,
)
    requires
        0 <= a <= b,
        forall|j: int| a <= j < b ==> force_term(ms, ds, ps, pred, h, i, j) == (0int, 0int),
    ensures
        force_raw(ms, ds, ps, pred, h, i, b) == force_raw(ms, ds, ps, pred, h, i, a),
    decreases b - a,
{
    if a < b {
        lemma_force_raw_flat(ms, ds, ps, pred, h, i, a, b - 1);
    }
}

/// Second solver pass: add every particle's pressure force, computed
/// from the predicted positions and the densities and pressures of
/// the first pass, into its force accumulator (saturating at the
/// stored range), leaving all other state untouched.
pub fn update_forces(bodies: &mut Vec<Body>, pred: &Vec<(i64, i64)>, g: &SpatialHash, h: i64)
    requires
        bodies_ok(old(bodies)@),
        pred@.len() == old(bodies)@.len(),
        forall|j: int| 0 <= j < pred@.len() ==> pos_bounded(#[trigger] pred@[j]),
        g.wf(pred@, h as int),
        valid_h(h as int),
    ensures
        final(bodies)@.len() == old(bodies)@.len(),
        bodies_ok(final(bodies)@),
        forall|i: int|
            0 <= i < final(bodies)@.len() ==> {
                let b0 = #[trigger] old(bodies)@[i];
                let b1 = final(bodies)@[i];
                let fs = force_spec(
                    mass_seq(old(bodies)@),
                    density_seq(old(bodies)@),
                    pressure_seq(old(bodies)@),
                    pred@,
                    h as int,
                    i,
                );
                &&& b1.position == b0.position
                &&& b1.velocity == b0.velocity
                &&& b1.particle == b0.particle
                &&& b1.force.x as int == clamp_spec(
                    b0.force.x + fs.0,
                    -(FORCE_MAX as int),
                    FORCE_MAX as int,
                )
                &&& b1.force.y as int == clamp_spec(
                    b0.force.y + fs.1,
                    -(FORCE_MAX as int),
                    FORCE_MAX as int,
                )
            },
{
    let ghost ms = mass_seq(old(bodies)@);
    let ghost ds = density_seq(old(bodies)@);
    let ghost ps = pressure_seq(old(bodies)@);
    let n = bodies.len();
    let mut i: usize = 0;
    while i < n
        invariant
            n == bodies@.len(),
            old(bodies)@.len() == n as int,
            pred@.len() == n as int,
            i <= n,
            ms == mass_seq(old(bodies)@),
            ds == density_seq(old(bodies)@),
            ps == pressure_seq(old(bodies)@),
            bodies_ok(old(bodies)@),
            forall|j: int| 0 <= j < pred@.len() ==> pos_bounded(#[trigger] pred@[j]),
            g.wf(pred@, h as int),
            valid_h(h as int),
            forall|j: int| (i as int) <= j < n ==> bodies@[j] == old(bodies)@[j],
            forall|j: int|
                0 <= j < (i as int) ==> {
                    let b0 = #[trigger] old(bodies)@[j];
                    let b1 = bodies@[j];
                    let fs = force_spec(ms, ds, ps, pred@, h as int, j);
                    &&& b1.position == b0.position
                    &&& b1.velocity == b0.velocity
                    &&& b1.particle == b0.particle
                    &&& b1.force.x as int == clamp_spec(
                        b0.force.x + fs.0,
                        -(FORCE_MAX as int),
                        FORCE_MAX as int,
                    )
                    &&& b1.force.y as int == clamp_spec(
                        b0.force.y + fs.1,
                        -(FORCE_MAX as int),
                        FORCE_MAX as int,
                    )
                    &&& body_ok(b1)
                },
        decreases n - i,
    {
        let r = g.gather_neighbors(pred, h, i);
        proof {
            assert(r@.len() <= n as int) by {
                if r@.len() > n as int {
                    lemma_ascending_below(r@, n as int);
                }
            };
        }
        let pres_i = bodies[i].particle.pressure;
        proof {
            assert(body_ok(old(bodies)@[i as int]));
            assert(pres_i as int == ps[i as int]);
        }
        let mut accx: i128 = 0;
        let mut accy: i128 = 0;
        let mut kk: usize = 0;
        let ghost mut front: int = 0;
        while kk < r.len()
            invariant
                n == bodies@.len(),
                old(bodies)@.len() == n as int,
                pred@.len() == n as int,
                (i as int) < n as int,
                ms == mass_seq(old(bodies)@),
                ds == density_seq(old(bodies)@),
                ps == pressure_seq(old(bodies)@),
                bodies_ok(old(bodies)@),
                forall|j: int| 0 <= j < pred@.len() ==> pos_bounded(#[trigger] pred@[j]),
                valid_h(h as int),
                pres_i as int == ps[i as int],
                strictly_ascending(r@),
                r@.len() <= n as int,
                forall|m: int| 0 <= m < r@.len() ==> ((#[trigger] r@[m]) as int) < pred@.len(),
                forall|j: int|
                    0 <= j < pred@.len() ==> ((#[trigger] r@.contains(j as usize))
                        <==> within_range(pred@, h as int, i as int, j)),
                forall|j: int| (i as int) <= j < n ==> bodies@[j] == old(bodies)@[j],
                forall|j: int|
                    0 <= j < (i as int) ==> {
                        let b0 = #[trigger] old(bodies)@[j];
                        let b1 = bodies@[j];
                        let fs = force_spec(ms, ds, ps, pred@, h as int, j);
                        &&& b1.position == b0.position
                        &&& b1.velocity == b0.velocity
                        &&& b1.particle == b0.particle
                        &&& b1.force.x as int == clamp_spec(
                            b0.force.x + fs.0,
                            -(FORCE_MAX as int),
                            FORCE_MAX as int,
                        )
                        &&& b1.force.y as int == clamp_spec(
                            b0.force.y + fs.1,
                            -(FORCE_MAX as int),
                            FORCE_MAX as int,
                        )
                        &&& body_ok(b1)
                    },
                kk <= r@.len(),
                front == if kk == 0 {
                    0int
                } else {
                    r@[kk as int - 1] as int + 1
                },
                0 <= front <= n as int,
                (accx as int, accy as int) == force_raw(ms, ds, ps, pred@, h as int, i as int,
                front),
                -(kk as int) * 4951760157141521099596496896int <= accx as int <= (kk as int)
                    * 4951760157141521099596496896int,
                -(kk as int) * 4951760157141521099596496896int <= accy as int <= (kk as int)
                    * 4951760157141521099596496896int,
            decreases r@.len() - kk,
        {
            let j = r[kk];
            proof {
                assert(r@.contains(r@[kk as int]));
                assert((j as int) < pred@.len());
                assert(front <= j as int) by {
                    if kk > 0 {
                        assert(r@[kk as int - 1] < r@[kk as int]);
                    }
                };
                assert forall|y: int|
                    front <= y < (j as int) implies force_term(ms, ds, ps, pred@, h as int,
                i as int, y) == (0int, 0int) by {
                    lemma_ascending_gap(r@, kk as int, y as usize);
                    assert(!r@.contains(y as usize));
                };
                lemma_force_raw_flat(ms, ds, ps, pred@, h as int, i as int, front, j as int);
            }
            if j != i {
                proof {
                    let ghost jj = j as int;
                    assert(r@.contains(jj as usize));
                    assert(within_range(pred@, h as int, i as int, jj));
                    assert(body_ok(old(bodies)@[j as int]));
                }
                let d2 = dist2_exec(pred[i], pred[j]);
                let d = isqrt_i64(d2);
                let dx = pred[j].0 - pred[i].0;
                let dy = pred[j].1 - pred[i].1;
                proof {
                    lemma_sqrt_floor_unique(d2 as int, d as int);
                    assert(-(d as int) <= dx as int <= d as int
                        && -(d as int) <= dy as int <= d as int) by (nonlinear_arith)
                        requires
                            (d as int) * (d as int) <= (dx as int) * (dx as int) + (dy as int) * (
                            dy as int) < ((d as int) + 1) * ((d as int) + 1),
                            d as int >= 0,
                    ;
                }
                let grad = spiky_kernel_gradient(dx, dy, d, h);
                let bj = bodies[j];
                proof {
                    assert(bj.particle.mass as int == ms[j as int]);
                    assert(bj.particle.density as int == ds[j as int]);
                    assert(bj.particle.pressure as int == ps[j as int]);
                }
                let denom: i64 = if bj.particle.density >= 1 {
                    bj.particle.density
                } else {
                    1
                };
                let a128 = div_floor_i128((bj.particle.mass as i128) * (RATIO_SCALE as i128),
                    denom as i128);
                proof {
                    vstd::arithmetic::div_mod::lemma_div_pos_is_pos(
                        (bj.particle.mass as int) * (RATIO_SCALE as int),
                        denom as int,
                    );
                    vstd::arithmetic::div_mod::lemma_div_nonincreasing(
                        (bj.particle.mass as int) * (RATIO_SCALE as int),
                        denom as int,
                    );
                }
                let pavg = div_floor_i128((pres_i as i128) + (bj.particle.pressure as i128), 2);
                proof {
                    vstd::arithmetic::div_mod::lemma_div_pos_is_pos(
                        pres_i as int + bj.particle.pressure as int,
                        2,
                    );
                    vstd::arithmetic::div_mod::lemma_multiply_divide_le(
                        pres_i as int + bj.particle.pressure as int,
                        2,
                        17592186044416int,
                    );
                    assert(0 <= (a128 as int) * (pavg as int) <= 1180591620717411303424int)
                        by (nonlinear_arith)
                        requires
                            0 <= a128 as int <= 67108864,
                            0 <= pavg as int <= 17592186044416int,
                    ;
                }
                let ap: i128 = a128 * pavg;
                proof {
                    assert(-4951760157141521099596496896int <= (ap as int) * (grad.0 as int)
                        <= 4951760157141521099596496896int
                        && -4951760157141521099596496896int <= (ap as int) * (grad.1 as int)
                            <= 4951760157141521099596496896int) by (nonlinear_arith)
                        requires
                            0 <= ap as int <= 1180591620717411303424int,
                            -4194304 <= grad.0 as int <= 4194304,
                            -4194304 <= grad.1 as int <= 4194304,
                    ;
                }
                let tx: i128 = ap * (grad.0 as i128);
                let ty: i128 = ap * (grad.1 as i128);
                accx = accx + tx;
                accy = accy + ty;
                proof {
                    assert(force_term(ms, ds, ps, pred@, h as int, i as int, j as int) == (
                    tx as int, ty as int));
                }
            } else {
                proof {
                    assert(force_term(ms, ds, ps, pred@, h as int, i as int, j as int) == (0int,
                    0int));
                }
            }
            proof {
                front = j as int + 1;
            }
            kk += 1;
        }
        proof {
            assert forall|y: int|
                front <= y < (n as int) implies force_term(ms, ds, ps, pred@, h as int, i as int,
            y) == (0int, 0int) by {
                lemma_ascending_tail(r@, y as usize);
                assert(!r@.contains(y as usize));
            };
            lemma_force_raw_flat(ms, ds, ps, pred@, h as int, i as int, front, n as int);
            assert((accx as int, accy as int) == force_raw(ms, ds, ps, pred@, h as int, i as int,
            n as int));
        }
        let mi = bodies[i].particle.mass;
        proof {
            assert(mi as int == ms[i as int]);
            assert(-10141204801825835211973625643008int <= accx as int
                <= 10141204801825835211973625643008int
                && -10141204801825835211973625643008int <= accy as int
                    <= 10141204801825835211973625643008int) by (nonlinear_arith)
                requires
                    -(kk as int) * 4951760157141521099596496896int <= accx as int <= (kk as int)
                        * 4951760157141521099596496896int,
                    -(kk as int) * 4951760157141521099596496896int <= accy as int <= (kk as int)
                        * 4951760157141521099596496896int,
                    0 <= kk as int <= 2048,
            ;
            assert(-10384593717069655257060992658440192int <= -(mi as int) * (accx as int)
                <= 10384593717069655257060992658440192int
                && -10384593717069655257060992658440192int <= -(mi as int) * (accy as int)
                    <= 10384593717069655257060992658440192int) by (nonlinear_arith)
                requires
                    1 <= mi as int <= 1024,
                    -10141204801825835211973625643008int <= accx as int
                        <= 10141204801825835211973625643008int,
                    -10141204801825835211973625643008int <= accy as int
                        <= 10141204801825835211973625643008int,
            ;
        }
        let fx: i128 = -(mi as i128) * accx;
        let fy: i128 = -(mi as i128) * accy;
        proof {
            assert(body_ok(old(bodies)@[i as int]));
        }
        let mut b = bodies[i];
        proof {
            assert(b == old(bodies)@[i as int]);
        }
        b.force.x = add_clamped_i128(b.force.x, fx, FORCE_MAX);
        b.force.y = add_clamped_i128(b.force.y, fy, FORCE_MAX);
        bodies[i] = b;
        proof {
            let fs = force_spec(ms, ds, ps, pred@, h as int, i as int);
            assert(fx as int == fs.0 && fy as int == fs.1);
            assert(bodies@[i as int].force.x as int == clamp_spec(
                old(bodies)@[i as int].force.x + fs.0,
                -(FORCE_MAX as int),
                FORCE_MAX as int,
            ));
            assert(bodies@[i as int].force.y as int == clamp_spec(
                old(bodies)@[i as int].force.y + fs.1,
                -(FORCE_MAX as int),
                FORCE_MAX as int,
            ));
            assert(body_ok(b));
        }
        i += 1;
    }
    proof {
        assert forall|j: int| 0 <= j < bodies@.len() implies body_ok(#[trigger] bodies@[j]) by {
            let b0 = old(bodies)@[j];
            assert(body_ok(bodies@[j]));
        };
    }
}

/// Zero every particle's force accumulator: the start of a frame's
/// force phase.  All other state is untouched.
pub fn clear_forces(bodies: &mut Vec<Body>)
    requires
        bodies_ok(old(bodies)@),
    ensures
        final(bodies)@.len() == old(bodies)@.len(),
        bodies_ok(final(bodies)@),
        forall|i: int|
            0 <= i < final(bodies)@.len() ==> {
                let b0 = #[trigger] old(bodies)@[i];
                let b1 = final(bodies)@[i];
                &&& b1.position == b0.position
                &&& b1.velocity == b0.velocity
                &&& b1.particle == b0.particle
                &&& b1.force.x == 0 && b1.force.y == 0
            },
{
    let n = bodies.len();
    let mut i: usize = 0;
    while i < n
        invariant
            n == bodies@.len(),
            old(bodies)@.len() == n as int,
            i <= n,
            bodies_ok(old(bodies)@),
            forall|j: int| (i as int) <= j < n ==> bodies@[j] == old(bodies)@[j],
            forall|j: int|
                0 <= j < (i as int) ==> {
                    let b0 = #[trigger] old(bodies)@[j];
                    let b1 = bodies@[j];
                    &&& b1.position == b0.position
                    &&& b1.velocity == b0.velocity
                    &&& b1.particle == b0.particle
                    &&& b1.force.x == 0 && b1.force.y == 0
                    &&& body_ok(b1)
                },
        decreases n - i,
    {
        proof {
            assert(body_ok(old(bodies)@[i as int]));
        }
        let mut b = bodies[i];
        b.force = Force { x: 0, y: 0 };
        bodies[i] = b;
        i += 1;
    }
    proof {
        assert forall|j: int| 0 <= j < bodies@.len() implies body_ok(#[trigger] bodies@[j]) by {
            let b0 = old(bodies)@[j];
            assert(body_ok(bodies@[j]));
        };
    }
}

} // verus!
