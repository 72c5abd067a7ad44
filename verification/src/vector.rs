//! Two-dimensional vectors with fixed-point components (thousandths of a
//! unit): componentwise sums and differences, dot product, squared length,
//! the integer length, and rescaling along the same direction.

use vstd::prelude::*;
use crate::fixed::{
    mag, div_round, sqrt_floor, lemma_div_round_le, isqrt_len, mul_div_round, MAG_LIMIT,
    WIDE_LIMIT,
};

verus! {

/// A 2D vector (or point) whose components count thousandths of a unit.
#[derive(Clone, Copy, PartialEq, Eq, Structural, Debug)]
pub struct Vec2 {
    pub x: i64,
    pub y: i64,
}

/// Squared Euclidean length, exactly.
pub open spec fn sq_len_spec(x: int, y: int) -> int {
    x * x + y * y
}

/// Integer Euclidean length: the floor of the square root of the squared
/// length.
pub open spec fn len_spec(x: int, y: int) -> int {
    sqrt_floor(sq_len_spec(x, y))
}

/// Components within the host-supplied magnitude cap.
pub open spec fn in_mag(v: Vec2) -> bool {
    mag(v.x as int) <= MAG_LIMIT && mag(v.y as int) <= MAG_LIMIT
}

/// Components within the widest magnitude extrapolation can produce.
pub open spec fn in_wide(v: Vec2) -> bool {
    mag(v.x as int) <= WIDE_LIMIT && mag(v.y as int) <= WIDE_LIMIT
}

/// Vectors that expose their squared length.
pub trait Vector {
    /// Squared Euclidean length.
    fn sq_length(&self) -> (r: i128)
        requires
            self.sq_ok(),
        ensures
            r as int == self.sq_spec(),
    ;

    /// Whether the squared length can be computed without overflow.
    spec fn sq_ok(&self) -> bool;

    /// The exact squared length.
    spec fn sq_spec(&self) -> int;
}

impl Vector for Vec2 {
    open spec fn sq_ok(&self) -> bool {
        in_wide(*self)
    }

    open spec fn sq_spec(&self) -> int {
        sq_len_spec(self.x as int, self.y as int)
    }

    fn sq_length(&self) -> (r: i128) {
        proof {
            lemma_wide_products(self.x as int, self.y as int);
        }
        (self.x as i128) * (self.x as i128) + (self.y as i128) * (self.y as i128)
    }
}

/// Squares and cross products of wide components stay within `i128`.
proof fn lemma_wide_products(x: int, y: int)
    requires
        mag(x) <= WIDE_LIMIT,
        mag(y) <= WIDE_LIMIT,
    ensures
        0 <= x * x <= WIDE_LIMIT * WIDE_LIMIT,
        0 <= y * y <= WIDE_LIMIT * WIDE_LIMIT,
        mag(x * y) <= WIDE_LIMIT * WIDE_LIMIT,
{
    assert(0 <= x * x <= WIDE_LIMIT * WIDE_LIMIT && 0 <= y * y <= WIDE_LIMIT * WIDE_LIMIT && mag(
        x * y,
    ) <= WIDE_LIMIT * WIDE_LIMIT) by (nonlinear_arith)
        requires
            mag(x) <= WIDE_LIMIT,
            mag(y) <= WIDE_LIMIT,
    ;
}

/// The length of a vector bounds each of its components.
pub proof fn lemma_len_bounds_components(x: int, y: int)
    ensures
        0 <= len_spec(x, y),
        mag(x) <= len_spec(x, y),
        mag(y) <= len_spec(x, y),
        len_spec(x, y) == 0 ==> x == 0 && y == 0,
{
    assert(x * x >= 0 && y * y >= 0) by (nonlinear_arith);
    crate::fixed::lemma_sqrt_floor_bounds(sq_len_spec(x, y));
    let l = len_spec(x, y);
    assert(mag(x) <= l && mag(y) <= l) by (nonlinear_arith)
        requires
            l >= 0,
            x * x + y * y < (l + 1) * (l + 1),
            x * x >= 0,
            y * y >= 0,
    ;
}

impl Vec2 {
    /// The componentwise sum.
    pub fn plus(self, other: Vec2) -> (r: Vec2)
        requires
            mag(self.x + other.x) <= i64::MAX,
            mag(self.y + other.y) <= i64::MAX,
        ensures
            r.x as int == self.x + other.x,
            r.y as int == self.y + other.y,
    {
        Vec2 { x: self.x + other.x, y: self.y + other.y }
    }

    /// The componentwise difference.
    pub fn minus(self, other: Vec2) -> (r: Vec2)
        requires
            mag(self.x - other.x) <= i64::MAX,
            mag(self.y - other.y) <= i64::MAX,
        ensures
            r.x as int == self.x - other.x,
            r.y as int == self.y - other.y,
    {
        Vec2 { x: self.x - other.x, y: self.y - other.y }
    }

    /// The dot product with another vector, exactly.
    pub fn dot(self, other: Vec2) -> (r: i128)
        requires
            in_wide(self),
            in_wide(other),
        ensures
            r as int == self.x * other.x + self.y * other.y,
    {
        proof {
            lemma_wide_products(self.x as int, other.x as int);
            lemma_wide_products(self.y as int, other.y as int);
        }
        (self.x as i128) * (other.x as i128) + (self.y as i128) * (other.y as i128)
    }

    /// The integer Euclidean length.
    pub fn length(self) -> (r: i64)
        requires
            in_wide(self),
        ensures
            r as int == len_spec(self.x as int, self.y as int),
            0 <= r,
            mag(self.x as int) <= r,
            mag(self.y as int) <= r,
    {
        proof {
            lemma_wide_products(self.x as int, self.y as int);
            lemma_len_bounds_components(self.x as int, self.y as int);
        }
        let sq: i128 = (self.x as i128) * (self.x as i128) + (self.y as i128) * (self.y as i128);
        isqrt_len(sq)
    }

    /// Both components rescaled by `num / den`, each rounded to nearest.
    pub fn scaled(self, num: i64, den: i64) -> (r: Vec2)
        requires
            1 <= den,
            mag(self.x as int * num as int) <= den as int * i64::MAX as int,
            mag(self.y as int * num as int) <= den as int * i64::MAX as int,
        ensures
            r.x as int == div_round(self.x as int * num as int, den as int),
            r.y as int == div_round(self.y as int * num as int, den as int),
    {
        Vec2 { x: mul_div_round(self.x, num, den), y: mul_div_round(self.y, num, den) }
    }
}

/// Rescaling toward a direction keeps each component within the target
/// magnitude whenever the numerator is bounded by the component's own length
/// bound; stated for reuse by the strategy contracts.
pub proof fn lemma_scaled_component_le(c: int, num: int, den: int)
    requires
        1 <= den,
        0 <= num,
        mag(c) <= den,
    ensures
        mag(div_round(c * num, den)) <= num,
        mag(c * num) <= den * i64::MAX as int || num > i64::MAX,
{
    assert(mag(c * num) <= den * num) by (nonlinear_arith)
        requires
            mag(c) <= den,
            0 <= num,
            1 <= den,
    ;
    lemma_div_round_le(c * num, den, num);
    if num <= i64::MAX {
        assert(den * num <= den * i64::MAX as int) by (nonlinear_arith)
            requires
                num <= i64::MAX,
                1 <= den,
        ;
    }
}

} // verus!
