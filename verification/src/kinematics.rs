//! The kinematic and motor views of an agent: host-supplied position,
//! velocity, heading and angular rate, the derived queries (forward
//! direction, speed, linear extrapolation), the ballistic lead-time
//! prediction, and the actuation limits and braking thresholds layered on
//! top.

use vstd::prelude::*;
use crate::fixed::{
    lemma_mul_bound, lemma_div_round_err, mag, div_round, div_round_any, sqrt_floor,
    div_round_i128, div_round_any_i128, isqrt_u128, lemma_div_round_bounds, lemma_div_round_le,
    lemma_div_round_any_nonpos, lemma_sqrt_floor_le, lemma_sqrt_floor_bounds, SCALE, MAG_LIMIT,
    TIME_LIMIT,
};
use crate::trig::{cos_fp_spec, sin_fp_spec, cos_fp, sin_fp, ANGLE_LIMIT};
use crate::vector::{Vec2, sq_len_spec, len_spec, in_mag, in_wide};

verus! {

/// Instantaneous kinematic readings of one agent, taken fresh from the host
/// each tick: a point, a velocity, a heading (thousandths of a radian) and
/// an angular rate (thousandths of a radian per second).
#[derive(Clone, Copy, PartialEq, Eq, Structural, Debug)]
pub struct KinematicState {
    pub position: Vec2,
    pub velocity: Vec2,
    pub orientation: i64,
    pub rotation: i64,
}

impl KinematicState {
    /// Host-supplied readings within the engine's magnitude caps.
    pub open spec fn wf(self) -> bool {
        &&& in_mag(self.position)
        &&& in_mag(self.velocity)
        &&& mag(self.orientation as int) <= ANGLE_LIMIT
        &&& mag(self.rotation as int) <= ANGLE_LIMIT
    }

    /// The agent's current position.
    pub fn position(&self) -> (r: Vec2)
        ensures
            r == self.position,
    {
        self.position
    }

    /// The agent's current velocity.
    pub fn velocity(&self) -> (r: Vec2)
        ensures
            r == self.velocity,
    {
        self.velocity
    }

    /// The agent's current heading.
    pub fn orientation(&self) -> (r: i64)
        ensures
            r == self.orientation,
    {
        self.orientation
    }

    /// The agent's current angular rate.
    pub fn rotation(&self) -> (r: i64)
        ensures
            r == self.rotation,
    {
        self.rotation
    }

    /// Unit vector (in thousandths) along the agent's heading.
    pub fn forward(&self) -> (r: Vec2)
        requires
            self.wf(),
        ensures
            r.x as int == cos_fp_spec(self.orientation as int),
            r.y as int == sin_fp_spec(self.orientation as int),
            mag(r.x as int) <= SCALE,
            mag(r.y as int) <= SCALE,
    {
        Vec2 { x: cos_fp(self.orientation), y: sin_fp(self.orientation) }
    }

    /// Current speed: the integer length of the velocity.
    pub fn speed(&self) -> (r: i64)
        requires
            self.wf(),
        ensures
            r as int == len_spec(self.velocity.x as int, self.velocity.y as int),
            0 <= r <= 1_500_000_000,
    {
        proof {
            assert(0 <= sq_len_spec(self.velocity.x as int, self.velocity.y as int) && sq_len_spec(
                self.velocity.x as int,
                self.velocity.y as int,
            ) < 1_500_000_001i64 * 1_500_000_001i64) by (nonlinear_arith)
                requires
                    mag(self.velocity.x as int) <= MAG_LIMIT,
                    mag(self.velocity.y as int) <= MAG_LIMIT,
                    MAG_LIMIT == 1_000_000_000i64,
            ;
            lemma_sqrt_floor_le(
                sq_len_spec(self.velocity.x as int, self.velocity.y as int),
                1_500_000_001,
            );
        }
        self.velocity.length()
    }

    /// Where this point goes under linear extrapolation after `t` thousandths
    /// of a second: position plus velocity times `t`, each component rounded
    /// to nearest. Valid only over short horizons where the target's own
    /// acceleration is negligible.
    pub fn at_time(&self, t: i64) -> (r: Vec2)
        requires
            self.wf(),
            0 <= t <= TIME_LIMIT,
        ensures
            r.x as int == self.position.x + div_round(self.velocity.x as int * t, SCALE as int),
            r.y as int == self.position.y + div_round(self.velocity.y as int * t, SCALE as int),
            in_wide(r),
            mag(r.x as int) <= 5_000_000_001_000_000_000,
            mag(r.y as int) <= 5_000_000_001_000_000_000,
    {
        proof {
            lemma_at_time_bounds(self.velocity.x as int, t as int);
            lemma_at_time_bounds(self.velocity.y as int, t as int);
        }
        let shift = self.velocity.scaled(t, SCALE);
        self.position.plus(shift)
    }

    /// Quadratic coefficient of the intercept equation: squared target speed
    /// minus squared projectile speed.
    pub open spec fn lead_a_spec(self, s: int) -> int {
        sq_len_spec(self.velocity.x as int, self.velocity.y as int) - s * s
    }

    /// Linear coefficient: twice the dot product of velocity and the offset
    /// from the cannon.
    pub open spec fn lead_b_spec(self, cannon: Vec2) -> int {
        2 * (self.velocity.x * (self.position.x - cannon.x) + self.velocity.y * (self.position.y
            - cannon.y))
    }

    /// Constant coefficient: the squared distance from the cannon.
    pub open spec fn lead_c_spec(self, cannon: Vec2) -> int {
        sq_len_spec(self.position.x - cannon.x, self.position.y - cannon.y)
    }

    /// The smallest positive root (in thousandths of a second, rounded to
    /// nearest) of `a*t^2 + b*t + c = 0`, the time at which a projectile of
    /// the given speed launched from `cannon` meets this point's linear
    /// extrapolation; `None` when the discriminant is negative, no root is
    /// positive, or the root passes the engine's duration cap.
    pub open spec fn lead_time_spec(self, cannon: Vec2, s: int) -> Option<int> {
        let a = self.lead_a_spec(s);
        let b = self.lead_b_spec(cannon);
        let c = self.lead_c_spec(cannon);
        if a == 0 {
            if b < 0 {
                Self::lead_admit(div_round(c * SCALE, -b))
            } else {
                None
            }
        } else {
            let disc = b * b - 4 * a * c;
            if disc < 0 {
                None
            } else {
                let root = sqrt_floor(disc);
                let t1 = div_round_any((-b - root) * SCALE, 2 * a);
                let t2 = div_round_any((-b + root) * SCALE, 2 * a);
                if t1 > 0 && (t2 <= 0 || t1 <= t2) {
                    Self::lead_admit(t1)
                } else if t2 > 0 {
                    Self::lead_admit(t2)
                } else {
                    None
                }
            }
        }
    }

    /// A candidate root is kept only when positive and within the duration
    /// cap.
    pub open spec fn lead_admit(t: int) -> Option<int> {
        if 0 < t <= TIME_LIMIT {
            Some(t)
        } else {
            None
        }
    }

    /// Solve the intercept quadratic for the earliest positive lead time.
    pub fn lead_time(&self, cannon: Vec2, projectile_speed: i64) -> (r: Option<i64>)
        requires
            self.wf(),
            in_mag(cannon),
            0 <= projectile_speed <= MAG_LIMIT,
        ensures
            r is Some <==> self.lead_time_spec(cannon, projectile_speed as int) is Some,
            r matches Some(t) ==> Some(t as int) == self.lead_time_spec(
                cannon,
                projectile_speed as int,
            ) && 0 < t <= TIME_LIMIT,
    {
        let vx = self.velocity.x as i128;
        let vy = self.velocity.y as i128;
        let dpx = (self.position.x - cannon.x) as i128;
        let dpy = (self.position.y - cannon.y) as i128;
        let s = projectile_speed as i128;
        proof {
            lemma_mul_bound(vx as int, vx as int, MAG_LIMIT as int, MAG_LIMIT as int);
            lemma_mul_bound(vy as int, vy as int, MAG_LIMIT as int, MAG_LIMIT as int);
            lemma_mul_bound(s as int, s as int, MAG_LIMIT as int, MAG_LIMIT as int);
            lemma_mul_bound(vx as int, dpx as int, MAG_LIMIT as int, 2 * MAG_LIMIT as int);
            lemma_mul_bound(vy as int, dpy as int, MAG_LIMIT as int, 2 * MAG_LIMIT as int);
            lemma_mul_bound(dpx as int, dpx as int, 2 * MAG_LIMIT as int, 2 * MAG_LIMIT as int);
            lemma_mul_bound(dpy as int, dpy as int, 2 * MAG_LIMIT as int, 2 * MAG_LIMIT as int);
        }
        let a: i128 = vx * vx + vy * vy - s * s;
        let b: i128 = 2 * (vx * dpx + vy * dpy);
        let c: i128 = dpx * dpx + dpy * dpy;
        proof {
            lemma_mul_bound(
                b as int,
                b as int,
                8_000_000_000_000_000_000,
                8_000_000_000_000_000_000,
            );
            lemma_mul_bound(
                4 * a as int,
                c as int,
                12_000_000_000_000_000_000,
                8_000_000_000_000_000_000,
            );
        }
        if a == 0 {
            if b < 0 {
                let t = div_round_i128(c * (SCALE as i128), -b);
                proof {
                    lemma_div_round_bounds(c as int * SCALE as int, -(b as int));
                }
                if t > 0 && t <= TIME_LIMIT as i128 {
                    Some(t as i64)
                } else {
                    None
                }
            } else {
                None
            }
        } else {
            let disc: i128 = b * b - 4 * a * c;
            if disc < 0 {
                None
            } else {
                let root_u = isqrt_u128(disc as u128);
                proof {
                    assert((disc as int) < (20_000_000_000_000_000_000int) * (
                    20_000_000_000_000_000_000int)) by (nonlinear_arith)
                        requires
                            disc <= 170_000_000_000_000_000_000_000_000_000_000_000_000i128,
                    ;
                    lemma_sqrt_floor_le(disc as int, 20_000_000_000_000_000_000);
                }
                let root = root_u as i128;
                let t1 = div_round_any_i128((-b - root) * (SCALE as i128), 2 * a);
                let t2 = div_round_any_i128((-b + root) * (SCALE as i128), 2 * a);
                let cand: i128 = if t1 > 0 && (t2 <= 0 || t1 <= t2) {
                    t1
                } else if t2 > 0 {
                    t2
                } else {
                    0
                };
                if cand > 0 && cand <= TIME_LIMIT as i128 {
                    Some(cand as i64)
                } else {
                    None
                }
            }
        }
    }

    /// The extrapolated position at the lead time, when one exists.
    pub fn lead_position(&self, cannon: Vec2, projectile_speed: i64) -> (r: Option<Vec2>)
        requires
            self.wf(),
            in_mag(cannon),
            0 <= projectile_speed <= MAG_LIMIT,
        ensures
            r is Some <==> self.lead_time_spec(cannon, projectile_speed as int) is Some,
            r matches Some(p) ==> (self.lead_time_spec(cannon, projectile_speed as int) matches
                Some(t) && p.x as int == self.position.x + div_round(
                self.velocity.x as int * t,
                SCALE as int,
            ) && p.y as int == self.position.y + div_round(self.velocity.y as int * t, SCALE as int)
                && in_wide(p)),
    {
        match self.lead_time(cannon, projectile_speed) {
            Some(t) => Some(self.at_time(t)),
            None => None,
        }
    }
}

/// The kinematic readings of an agent together with its actuation limits and
/// braking thresholds: the view the movement strategies steer against.
#[derive(Clone, Copy, PartialEq, Eq, Structural, Debug)]
pub struct MotorState {
    pub kin: KinematicState,
    /// Hard cap on commanded linear acceleration (thousandths of a unit per
    /// second squared).
    pub max_linear_acceleration: i64,
    /// Hard cap on commanded angular acceleration (thousandths of a radian
    /// per second squared).
    pub max_angular_acceleration: i64,
    /// Distance at which arrival starts braking.
    pub slow_radius: i64,
    /// Distance within which arrival stops commanding.
    pub stop_radius: i64,
    /// Angular difference at which alignment starts braking.
    pub slow_angle: i64,
    /// Angular difference within which alignment stops commanding.
    pub stop_angle: i64,
    /// Fixed short duration (thousandths of a second, nominally one tick)
    /// that converts a desired velocity or rotation change into an
    /// acceleration.
    pub control_horizon: i64,
}

impl MotorState {
    /// Limits and thresholds within the engine's caps, with the slow
    /// thresholds strictly beyond the stop thresholds.
    pub open spec fn wf(self) -> bool {
        &&& self.kin.wf()
        &&& 0 <= self.max_linear_acceleration <= MAG_LIMIT
        &&& 0 <= self.max_angular_acceleration <= MAG_LIMIT
        &&& 0 <= self.stop_radius < self.slow_radius <= MAG_LIMIT
        &&& 0 <= self.stop_angle < self.slow_angle <= MAG_LIMIT
        &&& 1 <= self.control_horizon <= 10_000_000
    }

    /// A motor view with the stock braking thresholds: slow radius 100
    /// units, stop radius 25 units, slow angle a quarter turn, stop angle
    /// half a degree.
    pub fn new(
        kin: KinematicState,
        max_linear_acceleration: i64,
        max_angular_acceleration: i64,
        control_horizon: i64,
    ) -> (r: MotorState)
        requires
            kin.wf(),
            0 <= max_linear_acceleration <= MAG_LIMIT,
            0 <= max_angular_acceleration <= MAG_LIMIT,
            1 <= control_horizon <= 10_000_000,
        ensures
            r.wf(),
            r.kin == kin,
            r.max_linear_acceleration == max_linear_acceleration,
            r.max_angular_acceleration == max_angular_acceleration,
            r.slow_radius == 100 * SCALE,
            r.stop_radius == 25 * SCALE,
            r.slow_angle == crate::trig::HALF_PI_FP,
            r.stop_angle == 9,
            r.control_horizon == control_horizon,
    {
        let slow_angle = crate::trig::deg_to_rad(90 * SCALE);
        let stop_angle = crate::trig::deg_to_rad(500);
        proof {
            // 90 degrees lands exactly on the quarter turn; half a degree
            // rounds to 9 thousandths of a radian.
            assert(div_round(90_000int * 3142, 180_000int) == 1571);
            assert(div_round(500int * 3142, 180_000int) == 9);
        }
        MotorState {
            kin,
            max_linear_acceleration,
            max_angular_acceleration,
            slow_radius: 100 * SCALE,
            stop_radius: 25 * SCALE,
            slow_angle,
            stop_angle,
            control_horizon,
        }
    }

    /// Distance at which arrival starts braking.
    pub fn slow_radius(&self) -> (r: i64)
        ensures
            r == self.slow_radius,
    {
        self.slow_radius
    }

    /// Distance within which arrival stops commanding.
    pub fn stop_radius(&self) -> (r: i64)
        ensures
            r == self.stop_radius,
    {
        self.stop_radius
    }

    /// Angular difference at which alignment starts braking.
    pub fn slow_angle(&self) -> (r: i64)
        ensures
            r == self.slow_angle,
    {
        self.slow_angle
    }

    /// Angular difference within which alignment stops commanding.
    pub fn stop_angle(&self) -> (r: i64)
        ensures
            r == self.stop_angle,
    {
        self.stop_angle
    }

    /// Hard cap on commanded linear acceleration.
    pub fn max_linear_acceleration(&self) -> (r: i64)
        ensures
            r == self.max_linear_acceleration,
    {
        self.max_linear_acceleration
    }

    /// Hard cap on commanded angular acceleration.
    pub fn max_angular_acceleration(&self) -> (r: i64)
        ensures
            r == self.max_angular_acceleration,
    {
        self.max_angular_acceleration
    }

    /// The control horizon over which a velocity delta becomes an
    /// acceleration.
    pub fn time_to_target(&self) -> (r: i64)
        ensures
            r == self.control_horizon,
    {
        self.control_horizon
    }
}

/// A velocity component times a capped duration stays within the widened
/// coordinate range once divided by the scale.
proof fn lemma_at_time_bounds(v: int, t: int)
    requires
        mag(v) <= MAG_LIMIT,
        0 <= t <= TIME_LIMIT,
    ensures
        mag(v * t) <= SCALE as int * i64::MAX as int,
        mag(div_round(v * t, SCALE as int)) <= 5_000_000_000_000_000_000,
{
    assert(mag(v * t) <= SCALE as int * 5_000_000_000_000_000_000 && SCALE as int
        * 5_000_000_000_000_000_000 <= SCALE as int * i64::MAX as int) by (nonlinear_arith)
        requires
            mag(v) <= MAG_LIMIT,
            0 <= t <= TIME_LIMIT,
            MAG_LIMIT == 1_000_000_000i64 && TIME_LIMIT == 5_000_000_000_000i64 && SCALE
                == 1000i64,
    ;
    lemma_div_round_le(v * t, SCALE as int, 5_000_000_000_000_000_000);
}

/// The round trip of the lead prediction: whenever a lead time is returned,
/// it satisfies the intercept equation `a*t^2 + b*t + c = 0` up to the
/// rounding of the integer square root and of the closing division — and
/// that equation says exactly that the distance from the cannon to the
/// target's extrapolated position at `t` equals the distance the projectile
/// covers in `t`. In the degenerate linear case the residual is within half
/// a rounding step of zero.
pub proof fn lemma_lead_time_round_trip(k: KinematicState, cannon: Vec2, s: int)
    requires
        k.lead_time_spec(cannon, s) is Some,
    ensures
        k.lead_time_spec(cannon, s) matches Some(t) ==> ({
            let a = k.lead_a_spec(s);
            let b = k.lead_b_spec(cannon);
            let c = k.lead_c_spec(cannon);
            let r = sqrt_floor(b * b - 4 * a * c);
            if a == 0 {
                2 * mag(b * SCALE * t + c * SCALE * SCALE) <= SCALE as int * mag(b)
            } else {
                mag(4 * a * (a * t * t + b * SCALE * t + c * SCALE * SCALE)) <= 2 * SCALE * SCALE
                    * r + mag(a) * (mag(a) + 2 * SCALE * r)
            }
        }),
{
    let a = k.lead_a_spec(s);
    let b = k.lead_b_spec(cannon);
    let c = k.lead_c_spec(cannon);
    let sc = SCALE as int;
    let t = k.lead_time_spec(cannon, s)->Some_0;
    if a == 0 {
        // the linear branch: t rounds c * SCALE / (-b), so the residual of
        // b * t + c * SCALE is the (halved) rounding error
        assert(b < 0);
        assert(t == div_round(c * sc, -b));
        lemma_div_round_err(c * sc, -b);
        let d2 = t * (-b) - c * sc;
        assert(b * sc * t + c * sc * sc == sc * (-d2)) by (nonlinear_arith)
            requires
                d2 == t * (-b) - c * sc,
        ;
        assert(2 * (sc * mag(d2)) <= sc * mag(b)) by (nonlinear_arith)
            requires
                2 * mag(d2) <= mag(b),
                sc == 1000,
        ;
        assert(mag(sc * (-d2)) == sc * mag(d2)) by (nonlinear_arith)
            requires
                sc == 1000,
        ;
    } else {
        let disc = b * b - 4 * a * c;
        assert(disc >= 0);
        let r = sqrt_floor(disc);
        lemma_sqrt_floor_bounds(disc);
        assert(disc - r * r <= 2 * r) by (nonlinear_arith)
            requires
                disc < (r + 1) * (r + 1),
                r >= 0,
                r * r <= disc,
        ;
        let t1 = div_round_any((-b - r) * sc, 2 * a);
        let t2 = div_round_any((-b + r) * sc, 2 * a);
        let u = if t == t1 {
            -b - r
        } else {
            -b + r
        };
        assert(t == t1 || t == t2);
        assert(t == div_round_any(u * sc, 2 * a));
        crate::fixed::lemma_div_round_any_err(u * sc, 2 * a);
        let delta = t * (2 * a) - u * sc;
        assert(mag(delta) <= mag(a)) by (nonlinear_arith)
            requires
                2 * mag(delta) <= mag(2 * a),
        ;
        let w = 2 * a * t;
        let e = u + b;
        // the quadratic residual, scaled by 4a, in terms of w = 2at:
        assert(w * w == 4 * a * (a * t * t)) by (nonlinear_arith)
            requires
                w == 2 * a * t,
        ;
        assert(2 * b * sc * w == 4 * a * (b * sc * t)) by (nonlinear_arith)
            requires
                w == 2 * a * t,
        ;
        assert(4 * a * (a * t * t + b * sc * t + c * sc * sc) == 4 * a * (a * t * t) + 4 * a * (b
            * sc * t) + 4 * a * (c * sc * sc)) by (nonlinear_arith);
        assert(4 * a * (c * sc * sc) == 4 * a * c * sc * sc) by (nonlinear_arith);
        // substitute w = u * sc + delta:
        assert(w * w == sc * sc * (u * u) + 2 * (u * sc) * delta + delta * delta)
            by (nonlinear_arith)
            requires
                w == u * sc + delta,
        ;
        assert(2 * b * sc * w == 2 * b * u * sc * sc + 2 * b * sc * delta) by (nonlinear_arith)
            requires
                w == u * sc + delta,
        ;
        assert(sc * sc * (u * u) + 2 * b * u * sc * sc + 4 * a * c * sc * sc == sc * sc * (u * u + 2
            * b * u + 4 * a * c)) by (nonlinear_arith);
        assert(2 * (u * sc) * delta + delta * delta + 2 * b * sc * delta == delta * (2 * sc * e
            + delta)) by (nonlinear_arith)
            requires
                e == u + b,
        ;
        // with u = -b +- r, the bracket collapses to the square-root defect:
        assert(u * u + 2 * b * u + 4 * a * c == r * r - (b * b - 4 * a * c) && (e == r || e == -r))
            by (nonlinear_arith)
            requires
                u == -b - r || u == -b + r,
                e == u + b,
        ;
        // bound the two residual pieces separately:
        assert(mag(sc * sc * (r * r - (b * b - 4 * a * c))) <= 2 * sc * sc * r)
            by (nonlinear_arith)
            requires
                0 <= (b * b - 4 * a * c) - r * r <= 2 * r,
                sc == 1000,
        ;
        assert(mag(2 * sc * e + delta) <= 2 * sc * r + mag(a)) by (nonlinear_arith)
            requires
                e == r || e == -r,
                r >= 0,
                mag(delta) <= mag(a),
                sc == 1000,
        ;
        lemma_mul_bound(delta, 2 * sc * e + delta, mag(a), 2 * sc * r + mag(a));
    }
}

/// A projectile slower than a target that is heading directly away from the
/// cannon never intercepts it: the lead time is absent.
pub proof fn lemma_lead_time_receding(k: KinematicState, cannon: Vec2, s: int)
    requires
        k.wf(),
        in_mag(cannon),
        0 <= s <= MAG_LIMIT,
        k.position.x != cannon.x || k.position.y != cannon.y,
        // straight line through the cannon:
        k.velocity.x * (k.position.y - cannon.y) == k.velocity.y * (k.position.x - cannon.x),
        // moving away, not toward:
        k.velocity.x * (k.position.x - cannon.x) + k.velocity.y * (k.position.y - cannon.y) >= 0,
        // slower projectile than target:
        s * s < k.velocity.x * k.velocity.x + k.velocity.y * k.velocity.y,
    ensures
        k.lead_time_spec(cannon, s) is None,
{
    let a = k.lead_a_spec(s);
    let b = k.lead_b_spec(cannon);
    let c = k.lead_c_spec(cannon);
    let dpx = k.position.x - cannon.x;
    let dpy = k.position.y - cannon.y;
    assert(c >= 1) by (nonlinear_arith)
        requires
            c == dpx * dpx + dpy * dpy,
            dpx != 0 || dpy != 0,
    ;
    assert(a >= 1);
    let disc = b * b - 4 * a * c;
    assert(4 * a * c >= 4) by (nonlinear_arith)
        requires
            a >= 1,
            c >= 1,
    ;
    assert(disc < b * b);
    if disc >= 0 {
        lemma_sqrt_floor_le(disc, b);
        let root = sqrt_floor(disc);
        lemma_sqrt_floor_bounds(disc);
        assert((-b - root) * SCALE <= 0 && (-b + root) * SCALE <= 0) by (nonlinear_arith)
            requires
                root < b,
                root >= 0,
                b >= 0,
                SCALE == 1000i64,
        ;
        lemma_div_round_any_nonpos((-b - root) * SCALE, 2 * a);
        lemma_div_round_any_nonpos((-b + root) * SCALE, 2 * a);
        assert(div_round_any((-b - root) * SCALE, 2 * a) == div_round((-b - root) * SCALE, 2 * a));
    }
}

} // verus!
