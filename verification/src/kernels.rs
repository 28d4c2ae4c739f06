//! SPH smoothing kernels in fixed-point arithmetic.
//!
//! Distances and the smoothing radius `h` are world units (`i64`).
//! `poly6_kernel` mirrors `4 / (pi h^8) * (h^2 - r^2)^3`, scaled by
//! `KERNEL_SCALE`, with `pi` approximated by `PI_MILLI / 1000`.
//! `spiky_kernel_gradient` mirrors the spiky-kernel gradient
//! `-45 / (pi h^5) * (h - d)^2 / d * (dx, dy)`, scaled by `GRAD_SCALE`.
//! Every result is pinned exactly by a ghost `int` computation.

use vstd::prelude::*;
use crate::fixed::div_trunc;
use crate::fixed::div_floor_i128;
use crate::fixed::div_trunc_i128;
use crate::fixed::lemma_div_trunc_neg;
use crate::fixed::lemma_div_trunc_bounds;
use vstd::arithmetic::div_mod::lemma_div_pos_is_pos;
use vstd::arithmetic::div_mod::lemma_multiply_divide_le;
use vstd::arithmetic::div_mod::lemma_div_is_ordered;
use vstd::arithmetic::div_mod::lemma_div_by_self;
use vstd::arithmetic::mul::lemma_mul_is_commutative;

verus! {

/// Fixed-point scale of `poly6_kernel` results (2^54).
pub const KERNEL_SCALE: i128 = 18014398509481984;

/// Fixed-point scale of `spiky_kernel_gradient` results (2^36).
pub const GRAD_SCALE: i128 = 68719476736;

/// 1000 * pi, rounded.
pub const PI_MILLI: i128 = 3142;

/// Smallest accepted smoothing radius, in world units.
pub const H_MIN: i64 = 64;

/// Largest accepted smoothing radius, in world units.
pub const H_MAX: i64 = 1024;

/// Largest value `poly6_kernel` can return for a valid radius (2^43).
pub const POLY6_MAX: i64 = 8796093022208;

/// Largest magnitude of either component of `spiky_kernel_gradient`
/// for a valid radius (2^22).
pub const GRAD_MAX: i64 = 4194304;

/// An admissible smoothing radius.
pub open spec fn valid_h(h: int) -> bool {
    H_MIN <= h <= H_MAX
}

/// Ghost value of the poly6 density kernel: zero outside the support
/// `r < h`, and otherwise the fixed-point evaluation of
/// `4 / (pi h^8) * (h^2 - r^2)^3` at scale `KERNEL_SCALE`.
pub open spec fn poly6_spec(r: int, h: int) -> int {
    if r >= h {
        0
    } else {
        let t = h * h - r * r;
        let h4 = (h * h) * (h * h);
        let num = (4000 * KERNEL_SCALE) * ((t * t) * t);
        let den = PI_MILLI * (h4 * h4);
        num / den
    }
}

/// Ghost value of the positive scalar factor of the spiky-kernel
/// gradient, `45 / (pi h^5) * (h - d)^2` at scale `GRAD_SCALE`.
pub open spec fn spiky_factor_spec(d: int, h: int) -> int {
    let num = (45000 * GRAD_SCALE) * ((h - d) * (h - d));
    let den = PI_MILLI * ((((h * h) * (h * h)) * h));
    num / den
}

/// Ghost value of one component of the spiky-kernel gradient: zero in
/// the degenerate cases `d >= h` and `d < 1`, otherwise
/// `-factor * delta / d` rounded toward zero.
pub open spec fn spiky_grad_spec(delta: int, d: int, h: int) -> int {
    if d >= h || d < 1 {
        0
    } else {
        -div_trunc(spiky_factor_spec(d, h) * delta, d)
    }
}

/// Poly6 density kernel.  Exact fixed-point mirror of
/// `4 / (pi h^8) * (h^2 - r^2)^3` for `r < h`, and `0` for `r >= h`.
pub fn poly6_kernel(r: i64, h: i64) -> (res: i64)
    requires
        0 <= r,
        valid_h(h as int),
    ensures
        res == poly6_spec(r as int, h as int),
        0 <= res <= POLY6_MAX,
{
    if r >= h {
        return 0;
    }
    proof {
        assert((r as int) * (r as int) < (h as int) * (h as int)
            && 0 <= (r as int) * (r as int)
            && 4096 <= (h as int) * (h as int) <= 1048576) by (nonlinear_arith)
            requires
                0 <= (r as int) < (h as int),
                64 <= (h as int) <= 1024,
        ;
    }
    let hh: i64 = h * h;
    let t: i64 = hh - r * r;
    proof {
        assert(1 <= (t as int) * (t as int) <= 1099511627776int
            && 1 <= ((t as int) * (t as int)) * (t as int) <= 1152921504606846976int
            && ((t as int) * (t as int)) * (t as int) <= ((hh as int) * (hh as int)) * (hh as int))
            by (nonlinear_arith)
            requires
                1 <= (t as int) <= (hh as int),
                (hh as int) <= 1048576,
        ;
        assert(16777216 <= (hh as int) * (hh as int) <= 1099511627776int) by (nonlinear_arith)
            requires
                4096 <= (hh as int) <= 1048576,
        ;
    }
    let t3: i128 = ((t as i128) * (t as i128)) * (t as i128);
    proof {
        assert(0 <= (4000 * KERNEL_SCALE) * (t3 as int)
            <= 83076749736557242056487941267521536000int) by (nonlinear_arith)
            requires
                1 <= t3 as int <= 1152921504606846976int,
                KERNEL_SCALE == 18014398509481984,
        ;
    }
    let num: i128 = (4000 * KERNEL_SCALE) * t3;
    let h4: i64 = hh * hh;
    proof {
        assert(281474976710656int <= (h4 as int) * (h4 as int) <= 1208925819614629174706176int)
            by (nonlinear_arith)
            requires
                16777216 <= (h4 as int) <= 1099511627776int,
        ;
    }
    let h8: i128 = (h4 as i128) * (h4 as i128);
    let den: i128 = PI_MILLI * h8;
    proof {
        // num <= den * POLY6_MAX, because t^3 <= hh^3 and
        // 4000 * KERNEL_SCALE <= POLY6_MAX * PI_MILLI * hh for hh >= 4096.
        assert((4000 * KERNEL_SCALE) * (((hh as int) * (hh as int)) * (hh as int))
            <= (PI_MILLI * (((hh as int) * (hh as int)) * ((hh as int) * (hh as int))))
                * (POLY6_MAX as int)) by (nonlinear_arith)
            requires
                4096 <= (hh as int) <= 1048576,
        ;
        assert(num as int <= (4000 * KERNEL_SCALE) * (((hh as int) * (hh as int)) * (hh as int)));
        assert((h4 as int) * (h4 as int) == ((hh as int) * (hh as int)) * ((hh as int) * (hh as int)));
        assert(num as int <= (den as int) * (POLY6_MAX as int));
    }
    let q: i128 = div_floor_i128(num, den);
    proof {
        lemma_div_pos_is_pos(num as int, den as int);
        lemma_multiply_divide_le(num as int, den as int, POLY6_MAX as int);
    }
    q as i64
}

/// Spiky-kernel gradient.  Exact fixed-point mirror of
/// `-45 / (pi h^5) * (h - d)^2 / d * (dx, dy)` inside the support,
/// and `(0, 0)` when `d >= h` or in the degenerate near-zero case
/// `d < 1` that would divide by (near) zero.
pub fn spiky_kernel_gradient(dx: i64, dy: i64, distance: i64, h: i64) -> (g: (i64, i64))
    requires
        valid_h(h as int),
        0 <= distance,
        -distance <= dx <= distance,
        -distance <= dy <= distance,
    ensures
        g.0 == spiky_grad_spec(dx as int, distance as int, h as int),
        g.1 == spiky_grad_spec(dy as int, distance as int, h as int),
        -GRAD_MAX <= g.0 <= GRAD_MAX,
        -GRAD_MAX <= g.1 <= GRAD_MAX,
{
    if distance >= h || distance < 1 {
        return (0, 0);
    }
    let hd: i64 = h - distance;
    proof {
        assert(1 <= (hd as int) * (hd as int) <= 1048576
            && 0 <= (45000 * GRAD_SCALE) * ((hd as int) * (hd as int))
                <= 3242591731706757120000int) by (nonlinear_arith)
            requires
                1 <= (hd as int) <= 1024,
                GRAD_SCALE == 68719476736,
        ;
        assert(4096 <= (h as int) * (h as int) <= 1048576) by (nonlinear_arith)
            requires
                64 <= (h as int) <= 1024,
        ;
    }
    let num: i128 = (45000 * GRAD_SCALE) * ((hd as i128) * (hd as i128));
    let h2: i64 = h * h;
    proof {
        assert(16777216 <= (h2 as int) * (h2 as int) <= 1099511627776int) by (nonlinear_arith)
            requires
                4096 <= (h2 as int) <= 1048576,
        ;
    }
    let h4: i64 = h2 * h2;
    proof {
        assert(1073741824 <= (h4 as int) * (h as int) <= 1125899906842624int
            && 0 < PI_MILLI * ((h4 as int) * (h as int)) <= 3537577507299524608int)
            by (nonlinear_arith)
            requires
                16777216 <= (h4 as int) <= 1099511627776int,
                64 <= (h as int) <= 1024,
                PI_MILLI == 3142,
        ;
    }
    let h5: i128 = (h4 as i128) * (h as i128);
    let den: i128 = PI_MILLI * h5;
    proof {
        // num <= den * GRAD_MAX because (h - d)^2 <= h^2 and
        // 45000 * GRAD_SCALE <= GRAD_MAX * PI_MILLI * h^3 for h >= 64.
        assert(num as int <= (den as int) * (GRAD_MAX as int)) by (nonlinear_arith)
            requires
                num == (45000 * GRAD_SCALE) * ((hd as int) * (hd as int)),
                den == PI_MILLI * ((h4 as int) * (h as int)),
                h4 == (h2 as int) * (h2 as int),
                h2 == (h as int) * (h as int),
                1 <= (hd as int) <= (h as int),
                64 <= (h as int) <= 1024,
                GRAD_SCALE == 68719476736,
                PI_MILLI == 3142,
                GRAD_MAX == 4194304,
        ;
    }
    let factor: i128 = div_floor_i128(num, den);
    proof {
        lemma_div_pos_is_pos(num as int, den as int);
        lemma_multiply_divide_le(num as int, den as int, GRAD_MAX as int);
        assert(-((factor as int) * (distance as int)) <= (factor as int) * (dx as int)
            <= (factor as int) * (distance as int)
            && -((factor as int) * (distance as int)) <= (factor as int) * (dy as int)
                <= (factor as int) * (distance as int)
            && 0 <= (factor as int) * (distance as int) <= 4294967296000int)
            by (nonlinear_arith)
            requires
                0 <= factor as int <= 4194304,
                -(distance as int) <= dx as int <= distance as int,
                -(distance as int) <= dy as int <= distance as int,
                1 <= distance as int <= 1024,
        ;
    }
    let gxn: i128 = factor * (dx as i128);
    let gyn: i128 = factor * (dy as i128);
    let gx: i128 = div_trunc_i128(gxn, distance as i128);
    let gy: i128 = div_trunc_i128(gyn, distance as i128);
    proof {
        lemma_div_trunc_bounds(gxn as int, distance as int, factor as int);
        lemma_div_trunc_bounds(gyn as int, distance as int, factor as int);
    }
    ((-gx) as i64, (-gy) as i64)
}

/// Gradient antisymmetry: flipping the displacement flips the
/// gradient exactly, component by component.
pub proof fn lemma_spiky_gradient_antisymmetric(delta: int, d: int, h: int)
    ensures
        spiky_grad_spec(-delta, d, h) == -spiky_grad_spec(delta, d, h),
{
    if !(d >= h || d < 1) {
        let f = spiky_factor_spec(d, h);
        assert(f * (-delta) == -(f * delta)) by (nonlinear_arith);
        lemma_div_trunc_neg(f * delta, d);
    }
}

/// The poly6 kernel vanishes on and beyond the smoothing radius.
pub proof fn lemma_poly6_zero_outside(r: int, h: int)
    requires
        r >= h,
    ensures
        poly6_spec(r, h) == 0,
{
}

/// The poly6 kernel is strictly positive strictly inside the
/// smoothing radius.
pub proof fn lemma_poly6_positive(r: int, h: int)
    requires
        0 <= r < h,
        valid_h(h),
    ensures
        poly6_spec(r, h) >= 1,
{
    let t = h * h - r * r;
    let h4 = (h * h) * (h * h);
    let num = (4000 * KERNEL_SCALE) * ((t * t) * t);
    let den = PI_MILLI * (h4 * h4);
    // t >= h, so t^3 >= h^3, and 4000 * KERNEL_SCALE >= PI_MILLI * h^5.
    assert(t >= h) by (nonlinear_arith)
        requires
            t == h * h - r * r,
            0 <= r <= h - 1,
            64 <= h,
    ;
    assert(1 <= den <= num) by (nonlinear_arith)
        requires
            h <= t,
            t == h * h - r * r,
            h4 == (h * h) * (h * h),
            num == (4000 * KERNEL_SCALE) * ((t * t) * t),
            den == PI_MILLI * (h4 * h4),
            64 <= h <= 1024,
    ;
    assert(num / den >= den / den) by {
        lemma_div_is_ordered(den, num, den);
    };
    lemma_div_by_self(den);
}

/// Continuity of the poly6 kernel at the edge of its support: the
/// value is bounded by a quadratic in `h - r`, so both the kernel and
/// its slope vanish as `r` approaches `h`.
pub proof fn lemma_poly6_support_decay(r: int, h: int)
    requires
        0 <= r <= h,
        valid_h(h),
    ensures
        poly6_spec(r, h)
            <= ((32000 * KERNEL_SCALE) * ((h - r) * (h - r))) / (PI_MILLI * ((h * h) * (h * h))),
{
    let w = (32000 * KERNEL_SCALE) * ((h - r) * (h - r));
    let d4 = PI_MILLI * ((h * h) * (h * h));
    assert(0 <= w && 0 < d4) by (nonlinear_arith)
        requires
            w == (32000 * KERNEL_SCALE) * ((h - r) * (h - r)),
            d4 == PI_MILLI * ((h * h) * (h * h)),
            0 <= r <= h,
            64 <= h,
            KERNEL_SCALE == 18014398509481984,
            PI_MILLI == 3142,
    ;
    if r == h {
        lemma_div_pos_is_pos(w, d4);
    } else {
        let t = h * h - r * r;
        let h4 = (h * h) * (h * h);
        let num = (4000 * KERNEL_SCALE) * ((t * t) * t);
        let den = PI_MILLI * (h4 * h4);
        // t^3 = (h - r)^3 (h + r)^3 <= (h - r)^2 * h * (2h)^3, so num <= w * h4.
        let a = h - r;
        let b = h + r;
        assert((t * t) * t == (((a * a) * a) * ((b * b) * b))) by (nonlinear_arith)
            requires
                t == h * h - r * r,
                a == h - r,
                b == h + r,
        ;
        assert((a * a) * a <= (a * a) * h && 0 <= (a * a) * a) by (nonlinear_arith)
            requires
                0 < a <= h,
        ;
        assert((b * b) * b <= 8 * ((h * h) * h) && 0 <= (b * b) * b) by (nonlinear_arith)
            requires
                0 < b <= 2 * h,
        ;
        assert((((a * a) * a) * ((b * b) * b)) <= ((a * a) * h) * (8 * ((h * h) * h)))
            by (nonlinear_arith)
            requires
                0 <= (a * a) * a <= (a * a) * h,
                0 <= (b * b) * b <= 8 * ((h * h) * h),
        ;
        assert((4000 * KERNEL_SCALE) * (((a * a) * h) * (8 * ((h * h) * h))) == w * h4)
            by (nonlinear_arith)
            requires
                w == (32000 * KERNEL_SCALE) * (a * a),
                h4 == (h * h) * (h * h),
        ;
        assert(num <= w * h4) by (nonlinear_arith)
            requires
                num == (4000 * KERNEL_SCALE) * ((t * t) * t),
                (t * t) * t <= ((a * a) * h) * (8 * ((h * h) * h)),
                (4000 * KERNEL_SCALE) * (((a * a) * h) * (8 * ((h * h) * h))) == w * h4,
                KERNEL_SCALE == 18014398509481984,
        ;
        assert(0 < h4 && 0 < den && 0 <= num && den == h4 * d4) by (nonlinear_arith)
            requires
                t == h * h - r * r,
                h4 == (h * h) * (h * h),
                num == (4000 * KERNEL_SCALE) * ((t * t) * t),
                den == PI_MILLI * (h4 * h4),
                d4 == PI_MILLI * ((h * h) * (h * h)),
                0 <= r < h,
                64 <= h <= 1024,
                KERNEL_SCALE == 18014398509481984,
                PI_MILLI == 3142,
        ;
        lemma_div_is_ordered(num, w * h4, den);
        vstd::arithmetic::div_mod::lemma_div_denominator(w * h4, h4, d4);
        assert((w * h4) / h4 == w) by {
            vstd::arithmetic::mul::lemma_mul_is_commutative(w, h4);
            vstd::arithmetic::div_mod::lemma_div_multiples_vanish(w, h4);
        };
        assert(num / den <= w / d4);
    }
}

} // verus!
