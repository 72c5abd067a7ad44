//! Fixed-point scalar arithmetic: every quantity in the engine is an integer
//! counting thousandths of its unit (metres, radians, seconds, or a pure
//! ratio). This module provides the shared rounding division and integer
//! square root that the rest of the engine is specified with.

use vstd::prelude::*;
use vstd::arithmetic::div_mod::{
    lemma_fundamental_div_mod, lemma_fundamental_div_mod_converse, lemma_div_is_ordered,
    lemma_div_pos_is_pos, lemma_div_nonincreasing, lemma_remainder_lower, lemma_remainder_upper,
};
use vstd::arithmetic::mul::{lemma_mul_inequality, lemma_mul_strict_inequality};

verus! {

/// Fixed-point steps per whole unit: all scalars are integers counting
/// thousandths.
pub const SCALE: i64 = 1000;

/// Magnitude cap on host-supplied coordinates, velocities and actuation
/// limits (in thousandths), chosen so that every intermediate product of the
/// engine fits the machine integers.
pub const MAG_LIMIT: i64 = 1_000_000_000;

/// Cap on durations (thousandths of a second) accepted by extrapolation,
/// chosen so that extrapolated coordinates stay inside `i64`.
pub const TIME_LIMIT: i64 = 5_000_000_000_000;

/// Magnitude bound on any coordinate an extrapolation can produce:
/// `MAG_LIMIT + TIME_LIMIT * MAG_LIMIT / SCALE` rounded up.
pub const WIDE_LIMIT: i64 = 6_000_000_000_000_000_000;

/// Absolute value of a mathematical integer.
pub open spec fn mag(a: int) -> int {
    if a >= 0 {
        a
    } else {
        -a
    }
}

/// Division by a positive divisor, rounded to the nearest integer with ties
/// away from zero; the rounding used throughout the engine.
pub open spec fn div_round(a: int, b: int) -> int
    recommends
        b >= 1,
{
    let q = mag(a) / b;
    let q2 = if 2 * (mag(a) % b) >= b {
        q + 1
    } else {
        q
    };
    if a >= 0 {
        q2
    } else {
        -q2
    }
}

/// Floor of the square root of a non-negative integer.
pub open spec fn sqrt_floor(n: int) -> int
    decreases n,
{
    if n <= 0 {
        0
    } else if (sqrt_floor(n - 1) + 1) * (sqrt_floor(n - 1) + 1) <= n {
        sqrt_floor(n - 1) + 1
    } else {
        sqrt_floor(n - 1)
    }
}

/// `sqrt_floor` is the unique integer whose square brackets its argument.
pub proof fn lemma_sqrt_floor_bounds(n: int)
    requires
        n >= 0,
    ensures
        0 <= sqrt_floor(n),
        sqrt_floor(n) * sqrt_floor(n) <= n,
        n < (sqrt_floor(n) + 1) * (sqrt_floor(n) + 1),
    decreases n,
{
    if n == 0 {
    } else {
        lemma_sqrt_floor_bounds(n - 1);
        let p = sqrt_floor(n - 1);
        if (p + 1) * (p + 1) <= n {
            assert((p + 2) * (p + 2) > n) by (nonlinear_arith)
                requires
                    p >= 0,
                    n - 1 < (p + 1) * (p + 1),
                    (p + 1) * (p + 1) <= n,
            ;
        }
    }
}

/// Any integer whose square brackets `n` is `sqrt_floor(n)`.
pub proof fn lemma_sqrt_floor_unique(n: int, r: int)
    requires
        n >= 0,
        r >= 0,
        r * r <= n,
        n < (r + 1) * (r + 1),
    ensures
        r == sqrt_floor(n),
{
    lemma_sqrt_floor_bounds(n);
    let s = sqrt_floor(n);
    assert(r == s) by (nonlinear_arith)
        requires
            r >= 0,
            s >= 0,
            r * r <= n,
            n < (r + 1) * (r + 1),
            s * s <= n,
            n < (s + 1) * (s + 1),
    ;
}

/// The square root never grows past a bound whose square exceeds its argument.
pub proof fn lemma_sqrt_floor_le(n: int, b: int)
    requires
        0 <= n,
        0 <= b,
        n < b * b,
    ensures
        sqrt_floor(n) < b,
{
    lemma_sqrt_floor_bounds(n);
    let s = sqrt_floor(n);
    assert(s < b) by (nonlinear_arith)
        requires
            s >= 0,
            b >= 0,
            s * s <= n,
            n < b * b,
    ;
}

/// Rounding division keeps the sign of the dividend and never grows its
/// magnitude.
pub proof fn lemma_div_round_bounds(a: int, b: int)
    requires
        b >= 1,
    ensures
        mag(div_round(a, b)) <= mag(a),
        a >= 0 ==> div_round(a, b) >= 0,
        a <= 0 ==> div_round(a, b) <= 0,
        div_round(-a, b) == -div_round(a, b),
{
    let m = mag(a);
    let q = m / b;
    lemma_div_pos_is_pos(m, b);
    lemma_div_nonincreasing(m, b);
    if 2 * (m % b) >= b {
        lemma_fundamental_div_mod(m, b);
        if b == 1 {
            lemma_remainder_upper(m, b);
        } else {
            assert(q + 1 <= m) by (nonlinear_arith)
                requires
                    b >= 2,
                    m >= 0,
                    q >= 0,
                    m == q * b + m % b,
                    2 * (m % b) >= b,
            ;
        }
    }
}

/// If the dividend is at most `b * k` in magnitude, the rounded quotient is at
/// most `k` in magnitude.
pub proof fn lemma_div_round_le(a: int, b: int, k: int)
    requires
        b >= 1,
        k >= 0,
        mag(a) <= b * k,
    ensures
        mag(div_round(a, b)) <= k,
{
    let m = mag(a);
    let q = m / b;
    lemma_div_pos_is_pos(m, b);
    lemma_fundamental_div_mod(m, b);
    lemma_remainder_lower(m, b);
    lemma_remainder_upper(m, b);
    if 2 * (m % b) >= b {
        // q + 1 <= k: otherwise q >= k, so m = q*b + r >= k*b + b/2 > b*k.
        assert(q + 1 <= k) by (nonlinear_arith)
            requires
                b >= 1,
                k >= 0,
                q >= 0,
                m <= b * k,
                m == q * b + m % b,
                2 * (m % b) >= b,
        ;
    } else {
        assert(q <= k) by (nonlinear_arith)
            requires
                b >= 1,
                k >= 0,
                q >= 0,
                m <= b * k,
                m == q * b + m % b,
                0 <= m % b,
        ;
    }
}

/// Rounding division is monotone in the dividend, for a fixed positive
/// divisor.
pub proof fn lemma_div_round_monotone(a1: int, a2: int, b: int)
    requires
        b >= 1,
        a1 <= a2,
    ensures
        div_round(a1, b) <= div_round(a2, b),
{
    lemma_div_round_bounds(a1, b);
    lemma_div_round_bounds(a2, b);
    if a1 >= 0 {
        lemma_div_round_monotone_nonneg(a1, a2, b);
    } else if a2 <= 0 {
        lemma_div_round_monotone_nonneg(-a2, -a1, b);
    }
}

proof fn lemma_div_round_monotone_nonneg(a1: int, a2: int, b: int)
    requires
        b >= 1,
        0 <= a1 <= a2,
    ensures
        div_round(a1, b) <= div_round(a2, b),
{
    let q1 = a1 / b;
    let q2 = a2 / b;
    lemma_div_is_ordered(a1, a2, b);
    if 2 * (a1 % b) >= b && !(2 * (a2 % b) >= b) {
        // the rounded-up quotient of a1 still cannot pass q2:
        // if q1 == q2 then a1 % b <= a2 % b is violated.
        lemma_fundamental_div_mod(a1, b);
        lemma_fundamental_div_mod(a2, b);
        assert(q1 + 1 <= q2) by (nonlinear_arith)
            requires
                b >= 1,
                a1 <= a2,
                q1 <= q2,
                a1 == q1 * b + a1 % b,
                a2 == q2 * b + a2 % b,
                2 * (a1 % b) >= b,
                2 * (a2 % b) < b,
                0 <= a1 % b < b,
                0 <= a2 % b < b,
        ;
    }
}

/// An exact multiple divides with no rounding at all.
pub proof fn lemma_div_round_exact(q: int, b: int)
    requires
        b >= 1,
        q >= 0,
    ensures
        div_round(q * b, b) == q,
{
    lemma_fundamental_div_mod_converse(q * b, b, q, 0);
    assert(q * b >= 0) by (nonlinear_arith)
        requires
            q >= 0,
            b >= 1,
    ;
}

/// Division of an `i128` by a positive divisor, rounded to nearest with ties
/// away from zero.
pub fn div_round_i128(a: i128, b: i128) -> (r: i128)
    requires
        1 <= b,
        a > i128::MIN,
    ensures
        r as int == div_round(a as int, b as int),
{
    proof {
        lemma_div_round_bounds(a as int, b as int);
    }
    let neg = a < 0;
    let m: u128 = if neg {
        (-a) as u128
    } else {
        a as u128
    };
    let bu = b as u128;
    let q = m / bu;
    let rem = m % bu;
    proof {
        lemma_div_nonincreasing(m as int, bu as int);
        lemma_div_pos_is_pos(m as int, bu as int);
        if 2 * (m as int % bu as int) >= bu {
            lemma_fundamental_div_mod(m as int, bu as int);
            if bu == 1 {
                lemma_remainder_upper(m as int, bu as int);
            } else {
                assert(q + 1 <= m) by (nonlinear_arith)
                    requires
                        bu >= 2,
                        m >= 0,
                        q >= 0,
                        m as int == q as int * bu as int + m as int % bu as int,
                        2 * (m as int % bu as int) >= bu,
                ;
            }
        }
    }
    let q2 = if rem >= bu - rem {
        q + 1
    } else {
        q
    };
    if neg {
        -(q2 as i128)
    } else {
        q2 as i128
    }
}

/// `a * b / c` rounded to nearest (ties away from zero), computed without
/// intermediate overflow; `c` must be positive and the true quotient must fit
/// the result type.
pub fn mul_div_round(a: i64, b: i64, c: i64) -> (r: i64)
    requires
        1 <= c,
        mag(a as int * b as int) <= c as int * i64::MAX as int,
    ensures
        r as int == div_round(a as int * b as int, c as int),
{
    let p: i128 = (a as i128) * (b as i128);
    proof {
        lemma_div_round_le(p as int, c as int, i64::MAX as int);
    }
    let q = div_round_i128(p, c as i128);
    q as i64
}

/// Rounding division lands within half a divisor of the exact quotient:
/// twice the residue of `div_round(a, b) * b` against `a` is at most `b`.
pub proof fn lemma_div_round_err(a: int, b: int)
    requires
        b >= 1,
    ensures
        2 * mag(div_round(a, b) * b - a) <= b,
{
    let m = mag(a);
    let q = m / b;
    let rem = m % b;
    lemma_fundamental_div_mod(m, b);
    lemma_remainder_lower(m, b);
    lemma_remainder_upper(m, b);
    lemma_div_pos_is_pos(m, b);
    let r = if 2 * rem >= b {
        q + 1
    } else {
        q
    };
    assert(2 * mag(r * b - m) <= b) by (nonlinear_arith)
        requires
            m == q * b + rem,
            0 <= rem < b,
            r == (if 2 * rem >= b {
                q + 1
            } else {
                q
            }),
            b >= 1,
    ;
    if a < 0 {
        assert((-r) * b - a == -(r * b - m)) by (nonlinear_arith)
            requires
                m == -a,
        ;
    }
}

/// Magnitude of a product is bounded by the product of magnitude bounds.
pub proof fn lemma_mul_bound(a: int, b: int, ka: int, kb: int)
    requires
        mag(a) <= ka,
        mag(b) <= kb,
        0 <= ka,
        0 <= kb,
    ensures
        mag(a * b) <= ka * kb,
        a == b ==> a * b >= 0,
{
    assert(mag(a * b) <= ka * kb && (a == b ==> a * b >= 0)) by (nonlinear_arith)
        requires
            mag(a) <= ka,
            mag(b) <= kb,
            0 <= ka,
            0 <= kb,
    ;
}

/// Rounding division extended to a divisor of either sign.
pub open spec fn div_round_any(a: int, b: int) -> int
    recommends
        b != 0,
{
    if b > 0 {
        div_round(a, b)
    } else {
        div_round(-a, -b)
    }
}

/// Division of an `i128` by a nonzero divisor of either sign, rounded to
/// nearest with ties away from zero.
pub fn div_round_any_i128(a: i128, b: i128) -> (r: i128)
    requires
        b != 0,
        a > i128::MIN,
        b > i128::MIN,
    ensures
        r as int == div_round_any(a as int, b as int),
{
    if b > 0 {
        div_round_i128(a, b)
    } else {
        proof {
            lemma_div_round_bounds(-(a as int), -(b as int));
        }
        div_round_i128(-a, -b)
    }
}

/// Rounding division by a divisor of either sign lands within half a divisor
/// of the exact quotient.
pub proof fn lemma_div_round_any_err(a: int, b: int)
    requires
        b != 0,
    ensures
        2 * mag(div_round_any(a, b) * b - a) <= mag(b),
{
    if b > 0 {
        lemma_div_round_err(a, b);
    } else {
        lemma_div_round_err(-a, -b);
        let q = div_round(-a, -b);
        assert(q * b - a == -(q * (-b) - (-a))) by (nonlinear_arith);
    }
}

/// A non-positive dividend and positive divisor round to a non-positive
/// quotient, whichever sign the divisor carries once `div_round_any`
/// resolves it.
pub proof fn lemma_div_round_any_nonpos(a: int, b: int)
    requires
        b > 0,
        a <= 0,
    ensures
        div_round_any(a, b) <= 0,
{
    lemma_div_round_bounds(a, b);
}

/// Division of an `i64` by a positive `i64`, rounded to nearest with ties
/// away from zero.
pub fn div_round_i64(a: i64, b: i64) -> (r: i64)
    requires
        1 <= b,
    ensures
        r as int == div_round(a as int, b as int),
{
    proof {
        lemma_div_round_bounds(a as int, b as int);
    }
    let q = div_round_i128(a as i128, b as i128);
    q as i64
}

/// Euclidean remainder of an `i64` by a positive divisor: the result is the
/// mathematical `a % b`, always in `[0, b)`.
pub fn rem_euclid_i64(a: i64, b: i64) -> (r: i64)
    requires
        1 <= b,
        a > i64::MIN,
    ensures
        r as int == (a as int) % (b as int),
        0 <= r < b,
{
    let bu = b as u64;
    if a >= 0 {
        let m = (a as u64) % bu;
        proof {
            lemma_fundamental_div_mod(a as int, b as int);
        }
        m as i64
    } else {
        let m0 = ((-a) as u64) % bu;
        proof {
            lemma_fundamental_div_mod((-a) as int, b as int);
            let q = (-a) as int / b as int;
            assert((-q) * (b as int) == -(q * (b as int))) by (nonlinear_arith);
            assert((-q - 1) * (b as int) == -(q * (b as int)) - b as int) by (nonlinear_arith);
            if m0 == 0 {
                lemma_fundamental_div_mod_converse(a as int, b as int, -q, 0);
            } else {
                lemma_fundamental_div_mod_converse(a as int, b as int, -q - 1, b - m0);
            }
        }
        if m0 == 0 {
            0
        } else {
            b - (m0 as i64)
        }
    }
}

/// Floor of the square root of a `u128`, found by bisection.
pub fn isqrt_u128(n: u128) -> (r: u128)
    ensures
        r as int == sqrt_floor(n as int),
        r * r <= n,
{
    proof {
        lemma_sqrt_floor_bounds(n as int);
    }
    if n == 0 {
        return 0;
    }
    let mut lo: u128 = 0;
    let mut hi: u128 = 0x1_0000_0000_0000_0000;
    proof {
        assert((hi as int) * (hi as int) > n as int) by (nonlinear_arith)
            requires
                hi == 0x1_0000_0000_0000_0000u128,
                n <= u128::MAX,
        ;
    }
    while lo + 1 < hi
        invariant
            lo < hi <= 0x1_0000_0000_0000_0000u128,
            (lo as int) * (lo as int) <= n as int,
            (n as int) < (hi as int) * (hi as int),
        decreases hi - lo,
    {
        let mid = lo + (hi - lo) / 2;
        proof {
            assert((mid as int) * (mid as int) <= u128::MAX as int) by (nonlinear_arith)
                requires
                    mid < 0x1_0000_0000_0000_0000u128,
            ;
        }
        if mid * mid <= n {
            lo = mid;
        } else {
            hi = mid;
        }
    }
    proof {
        lemma_sqrt_floor_unique(n as int, lo as int);
    }
    lo
}

/// Floor of the square root of a non-negative `i128` no larger than twice
/// `WIDE_LIMIT` squared; the result then fits an `i64`.
pub fn isqrt_len(n: i128) -> (r: i64)
    requires
        0 <= n,
        n as int <= 2 * (WIDE_LIMIT as int) * (WIDE_LIMIT as int),
    ensures
        r as int == sqrt_floor(n as int),
        0 <= r,
        (r as int) * (r as int) <= n as int,
        (n as int) < (r as int + 1) * (r as int + 1),
{
    proof {
        lemma_sqrt_floor_bounds(n as int);
        lemma_sqrt_floor_le(n as int, 9_000_000_000_000_000_000);
        assert(2 * (WIDE_LIMIT as int) * (WIDE_LIMIT as int) < 9_000_000_000_000_000_000int
            * 9_000_000_000_000_000_000int) by (nonlinear_arith);
    }
    let r = isqrt_u128(n as u128);
    r as i64
}

} // verus!
