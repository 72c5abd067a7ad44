//! Angles in fixed point: thousandths of a radian, with a half turn of
//! `PI_FP`. Provides normalization to the shortest signed representative,
//! the signed difference between two headings, and rational approximations
//! of sine, cosine and the two-argument arctangent, each specified exactly
//! by its integer formula.

use vstd::prelude::*;
use crate::fixed::{
    mag, div_round, lemma_div_round_bounds, lemma_div_round_le, div_round_i64, mul_div_round,
    rem_euclid_i64, SCALE, WIDE_LIMIT,
};

verus! {

/// Half turn, in thousandths of a radian.
pub const PI_FP: i64 = 3142;

/// Full turn: exactly `2 * PI_FP`, so normalized angles land in
/// `(-PI_FP, PI_FP]`.
pub const TWO_PI_FP: i64 = 6284;

/// Quarter turn.
pub const HALF_PI_FP: i64 = 1571;

/// Eighth of a turn.
pub const QUARTER_PI_FP: i64 = 785;

/// Correction weight of the arctangent approximation, in thousandths.
pub const ATAN_TUNE: i64 = 273;

/// Magnitude cap on the headings and angular rates the engine stores.
pub const ANGLE_LIMIT: i64 = 1_000_000_000_000_000;

/// The representative of an angle in `(-PI_FP, PI_FP]`, congruent to it
/// modulo a full turn.
pub open spec fn norm_angle_spec(a: int) -> int {
    let m = a % (TWO_PI_FP as int);
    if m > PI_FP {
        m - TWO_PI_FP
    } else {
        m
    }
}

/// Normalize an angle to the shortest signed representative.
pub fn norm_angle(a: i64) -> (r: i64)
    requires
        mag(a as int) <= 4_000_000_000_000_000_000,
    ensures
        r as int == norm_angle_spec(a as int),
        -PI_FP < r <= PI_FP,
{
    let m = rem_euclid_i64(a, TWO_PI_FP);
    if m > PI_FP {
        m - TWO_PI_FP
    } else {
        m
    }
}

/// Shortest signed rotation that carries heading `a` onto heading `b`.
pub fn angle_diff(a: i64, b: i64) -> (r: i64)
    requires
        mag(a as int) <= 2_000_000_000_000_000_000,
        mag(b as int) <= 2_000_000_000_000_000_000,
    ensures
        r as int == norm_angle_spec(b - a),
        -PI_FP < r <= PI_FP,
{
    norm_angle(b - a)
}

/// Rational sine approximation on `[0, PI_FP]` (greatest error about 0.002).
pub open spec fn sin_half_spec(n: int) -> int {
    div_round(
        16 * n * (PI_FP - n) * SCALE,
        5 * PI_FP * PI_FP - 4 * n * (PI_FP - n),
    )
}

/// Sine of an angle in thousandths of a radian, in thousandths.
pub open spec fn sin_fp_spec(a: int) -> int {
    let n = norm_angle_spec(a);
    if n >= 0 {
        sin_half_spec(n)
    } else {
        -sin_half_spec(-n)
    }
}

/// Cosine as the sine of the angle advanced a quarter turn.
pub open spec fn cos_fp_spec(a: int) -> int {
    sin_fp_spec(a + HALF_PI_FP)
}

fn sin_nonneg(x: i64) -> (r: i64)
    requires
        0 <= x <= PI_FP,
    ensures
        r as int == sin_half_spec(x as int),
        0 <= r <= SCALE,
{
    proof {
        assert(0 <= x as int * (PI_FP - x as int) <= 2_468_041) by (nonlinear_arith)
            requires
                0 <= x <= PI_FP,
                PI_FP == 3142,
        ;
    }
    let p: i64 = x * (PI_FP - x);
    let num: i64 = 16 * p * SCALE;
    let den: i64 = 5 * PI_FP * PI_FP - 4 * p;
    proof {
        assert(16 * p <= den) by (nonlinear_arith)
            requires
                p == x as int * (PI_FP - x as int),
                den == 5 * PI_FP * PI_FP - 4 * p,
                0 <= x <= PI_FP,
                PI_FP == 3142,
        ;
        assert(num as int == 16 * (x as int) * (PI_FP - x as int) * SCALE) by (nonlinear_arith)
            requires
                p == x as int * (PI_FP - x as int),
                num == 16 * p * SCALE,
        ;
        assert(den as int == 5 * PI_FP * PI_FP - 4 * (x as int) * (PI_FP - x as int))
            by (nonlinear_arith)
            requires
                p == x as int * (PI_FP - x as int),
                den == 5 * PI_FP * PI_FP - 4 * p,
        ;
        lemma_div_round_le(num as int, den as int, SCALE as int);
        assert(mag(num as int) <= den as int * SCALE as int) by (nonlinear_arith)
            requires
                num == 16 * p * SCALE,
                0 <= 16 * p <= den,
                SCALE == 1000,
        ;
        lemma_div_round_bounds(num as int, den as int);
    }
    div_round_i64(num, den)
}

/// Sine in fixed point; the result is exactly the rational approximation of
/// the normalized angle and always lies in `[-SCALE, SCALE]`.
pub fn sin_fp(a: i64) -> (r: i64)
    requires
        mag(a as int) <= 4_000_000_000_000_000_000,
    ensures
        r as int == sin_fp_spec(a as int),
        -SCALE <= r <= SCALE,
{
    let n = norm_angle(a);
    if n >= 0 {
        sin_nonneg(n)
    } else {
        let s = sin_nonneg(-n);
        -s
    }
}

/// Cosine in fixed point, as the sine a quarter turn ahead.
pub fn cos_fp(a: i64) -> (r: i64)
    requires
        mag(a as int) <= 2_000_000_000_000_000_000,
    ensures
        r as int == cos_fp_spec(a as int),
        -SCALE <= r <= SCALE,
{
    sin_fp(a + HALF_PI_FP)
}

/// Rational arctangent approximation for a ratio `n / d` in `[0, 1]`, in
/// thousandths of a radian.
pub open spec fn atan_unit_spec(n: int, d: int) -> int {
    let z = div_round(n * SCALE, d);
    div_round(
        QUARTER_PI_FP * z * SCALE + ATAN_TUNE * z * (SCALE - z),
        SCALE * SCALE,
    )
}

/// Angle of the vector `(x, y)`, measured from the positive x axis, in
/// `[-PI_FP, PI_FP]`; zero for the zero vector.
pub open spec fn atan2_fp_spec(y: int, x: int) -> int {
    let ay = mag(y);
    let ax = mag(x);
    let base = if ax >= ay {
        if ax == 0 {
            0
        } else {
            atan_unit_spec(ay, ax)
        }
    } else {
        HALF_PI_FP - atan_unit_spec(ax, ay)
    };
    let a = if x >= 0 {
        base
    } else {
        PI_FP - base
    };
    if y >= 0 {
        a
    } else {
        -a
    }
}

fn atan_unit(n: i64, d: i64) -> (r: i64)
    requires
        0 <= n <= d,
        1 <= d <= WIDE_LIMIT,
    ensures
        r as int == atan_unit_spec(n as int, d as int),
        0 <= r <= HALF_PI_FP,
{
    proof {
        assert(mag(n as int * SCALE as int) <= d as int * i64::MAX as int) by (nonlinear_arith)
            requires
                0 <= n <= d,
                1 <= d,
                SCALE == 1000,
        ;
        assert(mag(n as int * SCALE as int) <= d as int * SCALE as int) by (nonlinear_arith)
            requires
                0 <= n <= d,
                1 <= d,
                SCALE == 1000,
        ;
        lemma_div_round_le(n as int * SCALE as int, d as int, SCALE as int);
        lemma_div_round_bounds(n as int * SCALE as int, d as int);
        assert(n as int * SCALE as int >= 0) by (nonlinear_arith)
            requires
                n >= 0,
        ;
    }
    let z = mul_div_round(n, SCALE, d);
    proof {
        assert(0 <= ATAN_TUNE * (z as int) && ATAN_TUNE * (z as int) <= 273_000 && 0 <= ATAN_TUNE
            * (z as int) * (SCALE - z as int) && ATAN_TUNE * (z as int) * (SCALE - z as int)
            <= 68_250_000) by (nonlinear_arith)
            requires
                0 <= z <= SCALE,
                SCALE == 1000 && ATAN_TUNE == 273,
        ;
        assert(0 <= QUARTER_PI_FP * (z as int) && QUARTER_PI_FP * (z as int) <= 785_000 && 0
            <= QUARTER_PI_FP * (z as int) * SCALE && QUARTER_PI_FP * (z as int) * SCALE
            <= 785_000_000) by (nonlinear_arith)
            requires
                0 <= z <= SCALE,
                SCALE == 1000 && QUARTER_PI_FP == 785,
        ;
    }
    let num: i64 = QUARTER_PI_FP * z * SCALE + ATAN_TUNE * z * (SCALE - z);
    proof {
        lemma_div_round_le(num as int, SCALE as int * SCALE as int, HALF_PI_FP as int);
        lemma_div_round_bounds(num as int, SCALE as int * SCALE as int);
    }
    div_round_i64(num, SCALE * SCALE)
}

/// Two-argument arctangent in fixed point; the result is exactly the
/// quadrant-resolved rational approximation and lies in `[-PI_FP, PI_FP]`.
pub fn atan2_fp(y: i64, x: i64) -> (r: i64)
    requires
        mag(x as int) <= WIDE_LIMIT,
        mag(y as int) <= WIDE_LIMIT,
    ensures
        r as int == atan2_fp_spec(y as int, x as int),
        -PI_FP <= r <= PI_FP,
{
    let ax: i64 = if x >= 0 {
        x
    } else {
        -x
    };
    let ay: i64 = if y >= 0 {
        y
    } else {
        -y
    };
    let base: i64 = if ax >= ay {
        if ax == 0 {
            0
        } else {
            atan_unit(ay, ax)
        }
    } else {
        HALF_PI_FP - atan_unit(ax, ay)
    };
    let a: i64 = if x >= 0 {
        base
    } else {
        PI_FP - base
    };
    if y >= 0 {
        a
    } else {
        -a
    }
}

/// Thousandths of a degree converted to thousandths of a radian, by the
/// half-turn ratio.
pub fn deg_to_rad(mdeg: i64) -> (r: i64)
    requires
        mag(mdeg as int) <= ANGLE_LIMIT,
    ensures
        r as int == div_round(mdeg as int * PI_FP as int, 180 * SCALE as int),
{
    mul_div_round(mdeg, PI_FP, 180 * SCALE)
}

} // verus!
