//! Fixed-point arithmetic helpers: floor and truncating division,
//! clamping, and an integer square root.
//!
//! Ghost-code `/` on `int` is Euclidean division, which coincides with
//! floor division whenever the divisor is positive; the executable
//! helpers here are specified against that ghost division, so every
//! caller's contract can be stated directly over `int` arithmetic.

use vstd::prelude::*;
use vstd::arithmetic::div_mod::lemma_fundamental_div_mod;

verus! {

/// Truncating (round-toward-zero) division, as used for signed
/// fixed-point products whose sign must mirror the sign of the
/// numerator exactly.
pub open spec fn div_trunc(a: int, b: int) -> int {
    if a >= 0 {
        a / b
    } else {
        -((-a) / b)
    }
}

/// Clamping a value into a closed interval.
pub open spec fn clamp_spec(x: int, lo: int, hi: int) -> int {
    if x < lo {
        lo
    } else if x > hi {
        hi
    } else {
        x
    }
}

pub fn clamp_i64(x: i64, lo: i64, hi: i64) -> (r: i64)
    requires
        lo <= hi,
    ensures
        r == clamp_spec(x as int, lo as int, hi as int),
{
    if x < lo {
        lo
    } else if x > hi {
        hi
    } else {
        x
    }
}

/// Floor division of a (possibly negative) value by a positive divisor.
/// Equal to ghost `a / b` because ghost division is Euclidean and the
/// divisor is positive.
pub fn div_floor_i128(a: i128, b: i128) -> (q: i128)
    requires
        b > 0,
        a > i128::MIN,
    ensures
        q == a as int / b as int,
{
    if a >= 0 {
        let q = ((a as u128) / (b as u128)) as i128;
        proof {
            vstd::arithmetic::div_mod::lemma_div_nonincreasing(a as int, b as int);
            vstd::arithmetic::div_mod::lemma_div_pos_is_pos(a as int, b as int);
        }
        q
    } else {
        let na = (-a) as u128;
        let ub = b as u128;
        // ceil(na / b) == (na + b - 1) / b; floor(a / b) == -ceil(-a / b).
        let qc = (na + (ub - 1)) / ub;
        proof {
            lemma_fundamental_div_mod(a as int, b as int);
            let qe = a as int / b as int;
            let re = a as int % b as int;
            // na + b - 1 == b * (-qe) + (b - 1 - re), with 0 <= b - 1 - re < b.
            assert((b as int) * (-qe) == -((b as int) * qe)) by {
                vstd::arithmetic::mul::lemma_mul_unary_negation(b as int, qe);
            };
            assert(na as int + (ub as int - 1) == (b as int) * (-qe) + ((b as int) - 1 - re));
            vstd::arithmetic::div_mod::lemma_fundamental_div_mod_converse(
                na as int + (ub as int - 1),
                b as int,
                -qe,
                (b as int) - 1 - re,
            );
            assert(qc as int == -qe);
            assert(-qe <= -(a as int)) by (nonlinear_arith)
                requires
                    (b as int) * qe + re == a as int,
                    0 <= re < b as int,
                    a < 0,
                    b > 0,
            ;
        }
        -(qc as i128)
    }
}

/// Truncating division of a (possibly negative) value by a positive
/// divisor, matching `div_trunc`.
pub fn div_trunc_i128(a: i128, b: i128) -> (q: i128)
    requires
        b > 0,
        a > i128::MIN,
    ensures
        q == div_trunc(a as int, b as int),
{
    if a >= 0 {
        let q = ((a as u128) / (b as u128)) as i128;
        proof {
            vstd::arithmetic::div_mod::lemma_div_nonincreasing(a as int, b as int);
            vstd::arithmetic::div_mod::lemma_div_pos_is_pos(a as int, b as int);
        }
        q
    } else {
        let na = (-a) as u128;
        let q = (na / (b as u128)) as i128;
        proof {
            vstd::arithmetic::div_mod::lemma_div_nonincreasing(na as int, b as int);
            vstd::arithmetic::div_mod::lemma_div_pos_is_pos(na as int, b as int);
        }
        -q
    }
}

/// Floor division on `i64`, with sign-aware range facts for callers.
pub fn div_floor_i64(a: i64, b: i64) -> (q: i64)
    requires
        b > 0,
    ensures
        q == a as int / b as int,
        a >= 0 ==> 0 <= q <= a,
        a < 0 ==> a <= q <= 0,
{
    let q128 = div_floor_i128(a as i128, b as i128);
    proof {
        lemma_fundamental_div_mod(a as int, b as int);
        if a >= 0 {
            vstd::arithmetic::div_mod::lemma_div_nonincreasing(a as int, b as int);
            vstd::arithmetic::div_mod::lemma_div_pos_is_pos(a as int, b as int);
        } else {
            assert(a as int <= ((a as int) / (b as int)) <= 0) by (nonlinear_arith)
                requires
                    a as int == (b as int) * ((a as int) / (b as int)) + ((a as int) % (b as int)),
                    0 <= ((a as int) % (b as int)) < (b as int),
                    a < 0,
                    b > 0,
            ;
        }
    }
    q128 as i64
}

/// Truncating division is an odd function of the numerator.
pub proof fn lemma_div_trunc_neg(a: int, b: int)
    requires
        b > 0,
    ensures
        div_trunc(-a, b) == -div_trunc(a, b),
{
    if a == 0 {
        vstd::arithmetic::div_mod::lemma_div_of0(b);
    }
}

/// A magnitude bound carries through truncating division: if
/// `|a| <= m * b` then `|div_trunc(a, b)| <= m`.
pub proof fn lemma_div_trunc_bounds(a: int, b: int, m: int)
    requires
        b > 0,
        0 <= m,
        -(m * b) <= a <= m * b,
    ensures
        -m <= div_trunc(a, b) <= m,
{
    vstd::arithmetic::mul::lemma_mul_is_commutative(m, b);
    if a >= 0 {
        vstd::arithmetic::div_mod::lemma_multiply_divide_le(a, b, m);
        vstd::arithmetic::div_mod::lemma_div_pos_is_pos(a, b);
    } else {
        vstd::arithmetic::div_mod::lemma_multiply_divide_le(-a, b, m);
        vstd::arithmetic::div_mod::lemma_div_pos_is_pos(-a, b);
    }
}

/// `r` is the integer square root of `n`.
pub open spec fn is_isqrt(n: int, r: int) -> bool {
    &&& r >= 0
    &&& r * r <= n
    &&& n < (r + 1) * (r + 1)
}

/// Integer square root by binary search.
pub fn isqrt_i64(n: i64) -> (r: i64)
    requires
        0 <= n,
    ensures
        is_isqrt(n as int, r as int),
        0 <= r <= 4294967296,
{
    let un: u64 = n as u64;
    let mut lo: u64 = 0;
    let mut hi: u64 = 4294967296;
    proof {
        assert((hi as int) * (hi as int) > un as int) by (nonlinear_arith)
            requires hi == 4294967296u64 && un < 9223372036854775808u64;
    }
    while lo + 1 < hi
        invariant
            lo < hi <= 4294967296,
            ((lo as int) * (lo as int)) <= un as int,
            (un as int) < ((hi as int) * (hi as int)),
            un == n,
        decreases hi - lo,
    {
        let mid: u64 = lo + (hi - lo) / 2;
        proof {
            vstd::arithmetic::div_mod::lemma_div_pos_is_pos((hi - lo) as int, 2int);
            vstd::arithmetic::div_mod::lemma_div_is_strictly_smaller((hi - lo) as int, 2int);
            assert(((mid as int) * (mid as int)) <= 4294967296int * 4294967296int) by (nonlinear_arith)
                requires 0 <= mid as int <= 4294967296int;
        }
        let sq: u128 = (mid as u128) * (mid as u128);
        if sq <= (un as u128) {
            lo = mid;
        } else {
            hi = mid;
        }
    }
    lo as i64
}

/// Clamp a wide intermediate into a symmetric `i64` range.
pub fn clamp_i128_to_i64(x: i128, m: i64) -> (r: i64)
    requires
        0 <= m,
    ensures
        r as int == clamp_spec(x as int, -(m as int), m as int),
{
    if x < -(m as i128) {
        -m
    } else if x > m as i128 {
        m
    } else {
        x as i64
    }
}

/// Add into a symmetric saturating accumulator: the sum clamped to
/// `[-m, m]`.
pub fn add_clamped_i128(f: i128, add: i128, m: i128) -> (r: i128)
    requires
        0 <= m,
        -m <= f <= m,
        -(170141183460469231731687303715884105727int - m) <= add <= (
        170141183460469231731687303715884105727int - m),
    ensures
        r as int == clamp_spec(f + add, -(m as int), m as int),
        -m <= r <= m,
{
    let s = f + add;
    if s < -m {
        -m
    } else if s > m {
        m
    } else {
        s
    }
}

} // verus!
