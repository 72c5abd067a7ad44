//! Movement strategies: one-shot policies that turn a motor view into an
//! optional desired command (a linear-acceleration vector and an
//! angular-acceleration scalar). Abstention is a first-class outcome — it
//! means "nothing commanded", never "command zero". A weighted blend
//! composes several strategies into one command.

use vstd::prelude::*;
use crate::fixed::{
    mag, div_round, lemma_div_round_bounds, lemma_div_round_le, lemma_div_round_monotone,
    lemma_div_round_exact, lemma_mul_bound, mul_div_round, div_round_i128, SCALE, MAG_LIMIT,
    TIME_LIMIT, WIDE_LIMIT,
};
use crate::trig::{
    norm_angle_spec, atan2_fp_spec, angle_diff, atan2_fp, cos_fp_spec, sin_fp_spec, ANGLE_LIMIT,
    PI_FP,
};
use crate::vector::{
    Vec2, sq_len_spec, len_spec, in_mag, lemma_len_bounds_components, lemma_scaled_component_le,
};
use crate::kinematics::{KinematicState, MotorState};

verus! {

/// A desired command: a linear acceleration vector and an angular
/// acceleration scalar, both in thousandths.
#[derive(Clone, Copy, PartialEq, Eq, Structural, Debug)]
pub struct MovementOutput {
    pub linear: Vec2,
    pub angular: i64,
}

/// An executable output agrees with a mathematical one: both absent, or both
/// present with equal components.
pub open spec fn out_matches(r: Option<MovementOutput>, s: Option<(int, int, int)>) -> bool {
    match (r, s) {
        (Option::None, Option::None) => true,
        (Option::Some(o), Option::Some(t)) => o.linear.x == t.0 && o.linear.y == t.1 && o.angular
            == t.2,
        _ => false,
    }
}

/// Offsets a strategy may steer toward stay inside the widened coordinate
/// range.
pub open spec fn offset_ok(target: Vec2, position: Vec2) -> bool {
    &&& mag(target.x - position.x) <= WIDE_LIMIT
    &&& mag(target.y - position.y) <= WIDE_LIMIT
}

/// What seeking commands: full linear acceleration along the unit vector
/// from the agent's position to the target, or nothing when the two
/// coincide.
pub open spec fn seek_out(m: MotorState, target: Vec2) -> Option<(int, int, int)> {
    let dx = target.x - m.kin.position.x;
    let dy = target.y - m.kin.position.y;
    if dx == 0 && dy == 0 {
        None
    } else {
        let l = len_spec(dx, dy);
        Some(
            (
                div_round(dx * m.max_linear_acceleration, l),
                div_round(dy * m.max_linear_acceleration, l),
                0,
            ),
        )
    }
}

/// Accelerate at the full linear limit straight toward a fixed target point.
#[derive(Clone, Copy, PartialEq, Eq, Structural, Debug)]
pub struct Seek {
    pub target: Vec2,
}

impl Seek {
    /// Abstains exactly when the target coincides with the current position;
    /// otherwise both components follow the unit direction scaled to the
    /// linear limit, so neither exceeds it.
    pub fn execute(&self, motor: &MotorState) -> (r: Option<MovementOutput>)
        requires
            motor.wf(),
            offset_ok(self.target, motor.kin.position),
        ensures
            out_matches(r, seek_out(*motor, self.target)),
            r matches Some(o) ==> mag(o.linear.x as int) <= motor.max_linear_acceleration && mag(
                o.linear.y as int,
            ) <= motor.max_linear_acceleration && o.angular == 0,
    {
        let d = self.target.minus(motor.kin.position);
        if d.x == 0 && d.y == 0 {
            None
        } else {
            let l = d.length();
            proof {
                lemma_scaled_component_le(d.x as int, motor.max_linear_acceleration as int, l as int);
                lemma_scaled_component_le(d.y as int, motor.max_linear_acceleration as int, l as int);
            }
            let linear = d.scaled(motor.max_linear_acceleration, l);
            Some(MovementOutput { linear, angular: 0 })
        }
    }
}

/// What fleeing commands: full linear acceleration along the unit vector
/// away from the target, or nothing when the two coincide.
pub open spec fn flee_out(m: MotorState, target: Vec2) -> Option<(int, int, int)> {
    let dx = m.kin.position.x - target.x;
    let dy = m.kin.position.y - target.y;
    if dx == 0 && dy == 0 {
        None
    } else {
        let l = len_spec(dx, dy);
        Some(
            (
                div_round(dx * m.max_linear_acceleration, l),
                div_round(dy * m.max_linear_acceleration, l),
                0,
            ),
        )
    }
}

/// Accelerate at the full linear limit straight away from a fixed target
/// point.
#[derive(Clone, Copy, PartialEq, Eq, Structural, Debug)]
pub struct Flee {
    pub target: Vec2,
}

impl Flee {
    /// Abstains exactly when the target coincides with the current position;
    /// otherwise the command is the full linear limit away from it.
    pub fn execute(&self, motor: &MotorState) -> (r: Option<MovementOutput>)
        requires
            motor.wf(),
            offset_ok(self.target, motor.kin.position),
        ensures
            out_matches(r, flee_out(*motor, self.target)),
            r matches Some(o) ==> mag(o.linear.x as int) <= motor.max_linear_acceleration && mag(
                o.linear.y as int,
            ) <= motor.max_linear_acceleration && o.angular == 0,
    {
        let d = motor.kin.position.minus(self.target);
        if d.x == 0 && d.y == 0 {
            None
        } else {
            let l = d.length();
            proof {
                lemma_scaled_component_le(d.x as int, motor.max_linear_acceleration as int, l as int);
                lemma_scaled_component_le(d.y as int, motor.max_linear_acceleration as int, l as int);
            }
            let linear = d.scaled(motor.max_linear_acceleration, l);
            Some(MovementOutput { linear, angular: 0 })
        }
    }
}

/// Seek and flee toward the same target are exact opposites: they abstain
/// together, and otherwise command componentwise negated accelerations.
pub proof fn lemma_seek_flee_opposite(m: MotorState, target: Vec2)
    requires
        m.wf(),
        offset_ok(target, m.kin.position),
    ensures
        seek_out(m, target) is Some <==> flee_out(m, target) is Some,
        seek_out(m, target) matches Some(s) ==> (flee_out(m, target) matches Some(f) && s.0 == -f.0
            && s.1 == -f.1 && s.2 == 0 && f.2 == 0),
{
    let dx = target.x - m.kin.position.x;
    let dy = target.y - m.kin.position.y;
    assert((-dx) * (-dx) == dx * dx && (-dy) * (-dy) == dy * dy && (-dx)
        * m.max_linear_acceleration == -(dx * m.max_linear_acceleration) && (-dy)
        * m.max_linear_acceleration == -(dy * m.max_linear_acceleration)) by (nonlinear_arith);
    if !(dx == 0 && dy == 0) {
        let l = len_spec(dx, dy);
        lemma_len_bounds_components(dx, dy);
        lemma_div_round_bounds(dx * m.max_linear_acceleration, l);
        lemma_div_round_bounds(dy * m.max_linear_acceleration, l);
    }
}

/// Seek's command points along the offset to the target: the cross product
/// of the command with the offset vanishes up to one rounding step per
/// component, and the larger component carries at least (almost) half the
/// linear limit.
pub proof fn lemma_seek_direction(m: MotorState, target: Vec2)
    requires
        m.wf(),
        offset_ok(target, m.kin.position),
        target.x != m.kin.position.x || target.y != m.kin.position.y,
    ensures
        seek_out(m, target) is Some,
        seek_out(m, target) matches Some(s) ==> 2 * mag(
            s.0 * (target.y - m.kin.position.y) - s.1 * (target.x - m.kin.position.x),
        ) <= mag(target.x - m.kin.position.x) + mag(target.y - m.kin.position.y),
        seek_out(m, target) matches Some(s) ==> 2 * mag(s.0) + 1 >= m.max_linear_acceleration || 2
            * mag(s.1) + 1 >= m.max_linear_acceleration,
{
    let dx = target.x - m.kin.position.x;
    let dy = target.y - m.kin.position.y;
    let max = m.max_linear_acceleration as int;
    let l = len_spec(dx, dy);
    lemma_len_bounds_components(dx, dy);
    assert(sq_len_spec(dx, dy) >= 0) by (nonlinear_arith);
    crate::fixed::lemma_sqrt_floor_bounds(sq_len_spec(dx, dy));
    let s0 = div_round(dx * max, l);
    let s1 = div_round(dy * max, l);
    crate::fixed::lemma_div_round_err(dx * max, l);
    crate::fixed::lemma_div_round_err(dy * max, l);
    let e0 = s0 * l - dx * max;
    let e1 = s1 * l - dy * max;
    // cross product: l * (s0 * dy - s1 * dx) == e0 * dy - e1 * dx.
    assert(l * (s0 * dy - s1 * dx) == e0 * dy - e1 * dx) by (nonlinear_arith)
        requires
            e0 == s0 * l - dx * max,
            e1 == s1 * l - dy * max,
    ;
    assert(2 * mag(e0 * dy - e1 * dx) <= l * (mag(dx) + mag(dy))) by (nonlinear_arith)
        requires
            2 * mag(e0) <= l,
            2 * mag(e1) <= l,
            l >= 0,
    ;
    assert(2 * mag(s0 * dy - s1 * dx) <= mag(dx) + mag(dy)) by (nonlinear_arith)
        requires
            l * (s0 * dy - s1 * dx) == e0 * dy - e1 * dx,
            2 * mag(e0 * dy - e1 * dx) <= l * (mag(dx) + mag(dy)),
            l >= 1,
    ;
    // the dominant component: the larger of |dx|, |dy| is at least half the
    // length, so its command is at least (max - 1) / 2.
    assert((mag(dx) + mag(dy)) * (mag(dx) + mag(dy)) >= l * l) by (nonlinear_arith)
        requires
            sq_len_spec(dx, dy) == dx * dx + dy * dy,
            l * l <= sq_len_spec(dx, dy),
    ;
    assert(mag(dx) + mag(dy) >= l) by (nonlinear_arith)
        requires
            (mag(dx) + mag(dy)) * (mag(dx) + mag(dy)) >= l * l,
            l >= 0,
    ;
    let c = if mag(dx) >= mag(dy) {
        dx
    } else {
        dy
    };
    assert(2 * mag(c) >= l);
    let sc = div_round(c * max, l);
    assert(2 * mag(sc * l) + l >= 2 * mag(c * max)) by (nonlinear_arith)
        requires
            2 * mag(sc * l - c * max) <= l,
            sc == div_round(c * max, l),
            (if mag(dx) >= mag(dy) {
                sc == div_round(dx * max, l)
            } else {
                sc == div_round(dy * max, l)
            }),
    ;
    assert(2 * mag(sc) + 1 >= max) by (nonlinear_arith)
        requires
            2 * mag(sc * l) + l >= 2 * mag(c * max),
            2 * mag(c) >= l,
            l >= 1,
            max >= 0,
    ;
}

/// Seek's command carries the full linear limit: scaled by the squared
/// offset length, the command's squared magnitude differs from the squared
/// limit by at most one rounding step per component — the unit direction at
/// the limit, up to the fixed-point grid.
#[verifier::spinoff_prover]
pub proof fn lemma_seek_magnitude(m: MotorState, target: Vec2)
    requires
        m.wf(),
        offset_ok(target, m.kin.position),
        target.x != m.kin.position.x || target.y != m.kin.position.y,
    ensures
        seek_out(m, target) matches Some(s) ==> ({
            let dx = target.x - m.kin.position.x;
            let dy = target.y - m.kin.position.y;
            let l = len_spec(dx, dy);
            let max = m.max_linear_acceleration as int;
            mag(l * l * (s.0 * s.0 + s.1 * s.1) - max * max * (dx * dx + dy * dy)) <= 2 * max * (l
                * l) + l * l
        }),
{
    let dx = target.x - m.kin.position.x;
    let dy = target.y - m.kin.position.y;
    let max = m.max_linear_acceleration as int;
    let l = len_spec(dx, dy);
    lemma_len_bounds_components(dx, dy);
    let s0 = div_round(dx * max, l);
    let s1 = div_round(dy * max, l);
    crate::fixed::lemma_div_round_err(dx * max, l);
    crate::fixed::lemma_div_round_err(dy * max, l);
    let e0 = s0 * l - dx * max;
    let e1 = s1 * l - dy * max;
    let w0 = l * s0;
    let w1 = l * s1;
    assert(w0 * w0 == l * l * (s0 * s0) && w1 * w1 == l * l * (s1 * s1)) by (nonlinear_arith)
        requires
            w0 == l * s0,
            w1 == l * s1,
    ;
    assert(w0 * w0 == max * max * (dx * dx) + max * (2 * (dx * e0)) + e0 * e0)
        by (nonlinear_arith)
        requires
            w0 == dx * max + e0,
    ;
    assert(w1 * w1 == max * max * (dy * dy) + max * (2 * (dy * e1)) + e1 * e1)
        by (nonlinear_arith)
        requires
            w1 == dy * max + e1,
    ;
    lemma_mul_bound(dx, 2 * e0, l, l);
    lemma_mul_bound(dy, 2 * e1, l, l);
    assert(mag(2 * (dx * e0)) <= l * l && mag(2 * (dy * e1)) <= l * l) by (nonlinear_arith)
        requires
            mag(dx * (2 * e0)) <= l * l,
            mag(dy * (2 * e1)) <= l * l,
    ;
    lemma_mul_bound(max, 2 * (dx * e0) + 2 * (dy * e1), max, 2 * (l * l));
    assert(max * (2 * (dx * e0)) + max * (2 * (dy * e1)) == max * (2 * (dx * e0) + 2 * (dy * e1)))
        by (nonlinear_arith);
    assert(e0 * e0 + e1 * e1 <= l * l) by (nonlinear_arith)
        requires
            2 * mag(e0) <= l,
            2 * mag(e1) <= l,
            l >= 0,
    ;
    assert(e0 * e0 >= 0 && e1 * e1 >= 0) by (nonlinear_arith);
    assert(mag(max * (2 * (dx * e0) + 2 * (dy * e1))) <= 2 * max * (l * l)) by (nonlinear_arith)
        requires
            mag(max * (2 * (dx * e0) + 2 * (dy * e1))) <= max * (2 * (l * l)),
    ;
    assert(l * l * (s0 * s0 + s1 * s1) == l * l * (s0 * s0) + l * l * (s1 * s1))
        by (nonlinear_arith);
    assert(max * max * (dx * dx + dy * dy) == max * max * (dx * dx) + max * max * (dy * dy))
        by (nonlinear_arith);
}

/// The braking ramp of arrival: zero within the stop radius, the linear
/// limit scaled by distance over the slow radius between the two, the full
/// limit beyond.
pub open spec fn arrive_speed(max: int, slow: int, stop: int, dist: int) -> int {
    if dist <= stop {
        0
    } else if dist <= slow {
        div_round(max * dist, slow)
    } else {
        max
    }
}

/// What arrival commands: the velocity delta from the current velocity to
/// the ramped speed toward the target, over the control horizon; nothing
/// within the stop radius.
pub open spec fn arrive_out(m: MotorState, target: Vec2) -> Option<(int, int, int)> {
    let dx = target.x - m.kin.position.x;
    let dy = target.y - m.kin.position.y;
    let dist = len_spec(dx, dy);
    if dist <= m.stop_radius {
        None
    } else {
        let spd = arrive_speed(
            m.max_linear_acceleration as int,
            m.slow_radius as int,
            m.stop_radius as int,
            dist,
        );
        let tvx = div_round(dx * spd, dist);
        let tvy = div_round(dy * spd, dist);
        Some(
            (
                div_round((tvx - m.kin.velocity.x) * SCALE, m.control_horizon as int),
                div_round((tvy - m.kin.velocity.y) * SCALE, m.control_horizon as int),
                0,
            ),
        )
    }
}

/// Accelerate toward a target point, braking smoothly inside the slow
/// radius and stopping to command inside the stop radius.
#[derive(Clone, Copy, PartialEq, Eq, Structural, Debug)]
pub struct Arrive {
    pub target: Vec2,
}

impl Arrive {
    /// Abstains exactly when the distance to the target is within the stop
    /// radius.
    pub fn execute(&self, motor: &MotorState) -> (r: Option<MovementOutput>)
        requires
            motor.wf(),
            offset_ok(self.target, motor.kin.position),
        ensures
            out_matches(r, arrive_out(*motor, self.target)),
            r is None <==> len_spec(
                self.target.x - motor.kin.position.x,
                self.target.y - motor.kin.position.y,
            ) <= motor.stop_radius,
    {
        let d = self.target.minus(motor.kin.position);
        let dist = d.length();
        if dist <= motor.stop_radius {
            None
        } else {
            let spd: i64 = if dist <= motor.slow_radius {
                proof {
                    lemma_mul_bound(
                        motor.max_linear_acceleration as int,
                        dist as int,
                        MAG_LIMIT as int,
                        MAG_LIMIT as int,
                    );
                    assert(mag(motor.max_linear_acceleration as int * dist as int)
                        <= motor.slow_radius as int * motor.max_linear_acceleration as int)
                        by (nonlinear_arith)
                        requires
                            0 <= motor.max_linear_acceleration,
                            0 <= dist <= motor.slow_radius,
                    ;
                    lemma_div_round_le(
                        motor.max_linear_acceleration as int * dist as int,
                        motor.slow_radius as int,
                        motor.max_linear_acceleration as int,
                    );
                    lemma_div_round_bounds(
                        motor.max_linear_acceleration as int * dist as int,
                        motor.slow_radius as int,
                    );
                }
                mul_div_round(motor.max_linear_acceleration, dist, motor.slow_radius)
            } else {
                motor.max_linear_acceleration
            };
            proof {
                lemma_scaled_component_le(d.x as int, spd as int, dist as int);
                lemma_scaled_component_le(d.y as int, spd as int, dist as int);
            }
            let tv = d.scaled(spd, dist);
            let ax = mul_div_round(tv.x - motor.kin.velocity.x, SCALE, motor.control_horizon);
            let ay = mul_div_round(tv.y - motor.kin.velocity.y, SCALE, motor.control_horizon);
            Some(MovementOutput { linear: Vec2 { x: ax, y: ay }, angular: 0 })
        }
    }
}

/// The arrival ramp is monotone: a farther agent is never commanded a slower
/// approach speed.
pub proof fn lemma_arrive_speed_monotone(max: int, slow: int, stop: int, d1: int, d2: int)
    requires
        0 <= max,
        0 <= stop < slow,
        0 <= d1 <= d2,
    ensures
        arrive_speed(max, slow, stop, d1) <= arrive_speed(max, slow, stop, d2),
{
    if stop < d1 <= slow {
        assert(mag(max * d1) <= slow * max) by (nonlinear_arith)
            requires
                0 <= max,
                0 < slow,
                0 <= d1 <= slow,
        ;
        if d2 <= slow {
            assert(max * d1 <= max * d2) by (nonlinear_arith)
                requires
                    0 <= max,
                    d1 <= d2,
            ;
            lemma_div_round_monotone(max * d1, max * d2, slow);
        } else {
            lemma_div_round_le(max * d1, slow, max);
            lemma_div_round_bounds(max * d1, slow);
        }
    } else if d1 > slow {
    } else {
        lemma_div_round_bounds(max * d2, slow);
        assert(max * d2 >= 0) by (nonlinear_arith)
            requires
                max >= 0,
                d2 >= 0,
        ;
    }
}

/// The ramp is continuous at the slow radius: at exactly that distance the
/// scaled speed equals the full limit.
pub proof fn lemma_arrive_speed_at_slow(max: int, slow: int, stop: int)
    requires
        0 <= max,
        0 <= stop < slow,
    ensures
        arrive_speed(max, slow, stop, slow) == max,
{
    lemma_div_round_exact(max, slow);
}

/// What alignment commands: nothing within the stop angle; otherwise the
/// delta from the current angular rate to a ramped target rate (full limit
/// beyond the slow angle, scaled inside it, signed along the shortest
/// rotation), over the control horizon.
pub open spec fn align_out(m: MotorState, target: int) -> Option<(int, int, int)> {
    let d = norm_angle_spec(target - m.kin.orientation);
    if mag(d) <= m.stop_angle {
        None
    } else {
        let ramp = if mag(d) < m.slow_angle {
            div_round(m.max_angular_acceleration * mag(d), m.slow_angle as int)
        } else {
            m.max_angular_acceleration as int
        };
        let tr = if d >= 0 {
            ramp
        } else {
            -ramp
        };
        Some((0, 0, div_round((tr - m.kin.rotation) * SCALE, m.control_horizon as int)))
    }
}

/// Rotate to face a target heading, braking smoothly inside the slow angle
/// and abstaining inside the stop angle.
#[derive(Clone, Copy, PartialEq, Eq, Structural, Debug)]
pub struct Align {
    pub target: i64,
}

impl Align {
    /// Abstains exactly when the shortest angular difference from the
    /// current heading to the target is within the stop angle.
    pub fn execute(&self, motor: &MotorState) -> (r: Option<MovementOutput>)
        requires
            motor.wf(),
            mag(self.target as int) <= ANGLE_LIMIT,
        ensures
            out_matches(r, align_out(*motor, self.target as int)),
            r is None <==> mag(norm_angle_spec(self.target - motor.kin.orientation))
                <= motor.stop_angle,
    {
        let d = angle_diff(motor.kin.orientation, self.target);
        let ad: i64 = if d >= 0 {
            d
        } else {
            -d
        };
        if ad <= motor.stop_angle {
            None
        } else {
            let ramp: i64 = if ad < motor.slow_angle {
                proof {
                    lemma_mul_bound(
                        motor.max_angular_acceleration as int,
                        ad as int,
                        MAG_LIMIT as int,
                        PI_FP as int,
                    );
                    assert(mag(motor.max_angular_acceleration as int * ad as int)
                        <= motor.slow_angle as int * motor.max_angular_acceleration as int)
                        by (nonlinear_arith)
                        requires
                            0 <= motor.max_angular_acceleration,
                            0 <= ad <= motor.slow_angle,
                    ;
                    lemma_div_round_le(
                        motor.max_angular_acceleration as int * ad as int,
                        motor.slow_angle as int,
                        motor.max_angular_acceleration as int,
                    );
                    lemma_div_round_bounds(
                        motor.max_angular_acceleration as int * ad as int,
                        motor.slow_angle as int,
                    );
                }
                mul_div_round(motor.max_angular_acceleration, ad, motor.slow_angle)
            } else {
                motor.max_angular_acceleration
            };
            let tr: i64 = if d >= 0 {
                ramp
            } else {
                -ramp
            };
            let ang = mul_div_round(tr - motor.kin.rotation, SCALE, motor.control_horizon);
            Some(MovementOutput { linear: Vec2 { x: 0, y: 0 }, angular: ang })
        }
    }
}

/// What facing commands: alignment toward the angle of the offset to a
/// target point; nothing when the point coincides with the position.
pub open spec fn face_out(m: MotorState, target: Vec2) -> Option<(int, int, int)> {
    let dx = target.x - m.kin.position.x;
    let dy = target.y - m.kin.position.y;
    if dx == 0 && dy == 0 {
        None
    } else {
        align_out(m, atan2_fp_spec(dy, dx))
    }
}

/// Rotate to face a target point, by aligning with the direction toward it.
#[derive(Clone, Copy, PartialEq, Eq, Structural, Debug)]
pub struct Face {
    pub target: Vec2,
}

impl Face {
    /// Delegates to alignment at the offset's angle; abstains when the
    /// target coincides with the position, or when alignment does.
    pub fn execute(&self, motor: &MotorState) -> (r: Option<MovementOutput>)
        requires
            motor.wf(),
            offset_ok(self.target, motor.kin.position),
        ensures
            out_matches(r, face_out(*motor, self.target)),
    {
        let d = self.target.minus(motor.kin.position);
        if d.x == 0 && d.y == 0 {
            None
        } else {
            let ang = atan2_fp(d.y, d.x);
            Align { target: ang }.execute(motor)
        }
    }
}

/// What velocity matching commands: the delta from the current velocity to
/// the target velocity, over the control horizon. It never abstains.
pub open spec fn match_velocity_out(m: MotorState, target: Vec2) -> Option<(int, int, int)> {
    Some(
        (
            div_round((target.x - m.kin.velocity.x) * SCALE, m.control_horizon as int),
            div_round((target.y - m.kin.velocity.y) * SCALE, m.control_horizon as int),
            0,
        ),
    )
}

/// Command the acceleration that closes the gap to a target velocity over
/// the control horizon.
#[derive(Clone, Copy, PartialEq, Eq, Structural, Debug)]
pub struct MatchVelocity {
    pub target: Vec2,
}

impl MatchVelocity {
    /// Never abstains.
    pub fn execute(&self, motor: &MotorState) -> (r: Option<MovementOutput>)
        requires
            motor.wf(),
            in_mag(self.target),
        ensures
            out_matches(r, match_velocity_out(*motor, self.target)),
            r is Some,
    {
        let ax = mul_div_round(self.target.x - motor.kin.velocity.x, SCALE, motor.control_horizon);
        let ay = mul_div_round(self.target.y - motor.kin.velocity.y, SCALE, motor.control_horizon);
        Some(MovementOutput { linear: Vec2 { x: ax, y: ay }, angular: 0 })
    }
}

/// The capped prediction horizon shared by pursuit and evasion: the full
/// horizon when the agent is too slow to cover the distance within it,
/// otherwise distance over speed.
pub open spec fn prediction_spec(m: MotorState, tpos: Vec2, max_prediction: int) -> int {
    let dist = len_spec(tpos.x - m.kin.position.x, tpos.y - m.kin.position.y);
    let spd = len_spec(m.kin.velocity.x as int, m.kin.velocity.y as int);
    if spd * max_prediction <= dist * SCALE {
        max_prediction
    } else {
        div_round(dist * SCALE, spd)
    }
}

/// Where a tracked agent is predicted to be after the capped horizon.
pub open spec fn predicted_point(k: KinematicState, pred: int) -> Vec2 {
    Vec2 {
        x: (k.position.x + div_round(k.velocity.x as int * pred, SCALE as int)) as i64,
        y: (k.position.y + div_round(k.velocity.y as int * pred, SCALE as int)) as i64,
    }
}

/// What pursuit commands: seeking the target's predicted position.
pub open spec fn pursue_out(m: MotorState, target: KinematicState, max_prediction: int) -> Option<
    (int, int, int),
> {
    seek_out(m, predicted_point(target, prediction_spec(m, target.position, max_prediction)))
}

/// Chase a moving target by seeking its predicted interception point.
#[derive(Clone, Copy, PartialEq, Eq, Structural, Debug)]
pub struct Pursue {
    pub target: KinematicState,
    /// Longest prediction horizon, in thousandths of a second.
    pub max_prediction: i64,
}

impl Pursue {
    /// Delegates to seek at the predicted point, inheriting its abstention
    /// rule.
    pub fn execute(&self, motor: &MotorState) -> (r: Option<MovementOutput>)
        requires
            motor.wf(),
            self.target.wf(),
            1 <= self.max_prediction <= TIME_LIMIT,
        ensures
            out_matches(r, pursue_out(*motor, self.target, self.max_prediction as int)),
    {
        let pred = prediction_horizon(motor, &self.target, self.max_prediction);
        let point = self.target.at_time(pred);
        Seek { target: point }.execute(motor)
    }
}

/// What evasion commands: fleeing the target's predicted position.
pub open spec fn evade_out(m: MotorState, target: KinematicState, max_prediction: int) -> Option<
    (int, int, int),
> {
    flee_out(m, predicted_point(target, prediction_spec(m, target.position, max_prediction)))
}

/// Run from a moving target by fleeing its predicted interception point.
#[derive(Clone, Copy, PartialEq, Eq, Structural, Debug)]
pub struct Evade {
    pub target: KinematicState,
    /// Longest prediction horizon, in thousandths of a second.
    pub max_prediction: i64,
}

impl Evade {
    /// Delegates to flee at the predicted point, inheriting its abstention
    /// rule.
    pub fn execute(&self, motor: &MotorState) -> (r: Option<MovementOutput>)
        requires
            motor.wf(),
            self.target.wf(),
            1 <= self.max_prediction <= TIME_LIMIT,
        ensures
            out_matches(r, evade_out(*motor, self.target, self.max_prediction as int)),
    {
        let pred = prediction_horizon(motor, &self.target, self.max_prediction);
        let point = self.target.at_time(pred);
        Flee { target: point }.execute(motor)
    }
}

/// The capped prediction horizon, computed exactly.
fn prediction_horizon(motor: &MotorState, target: &KinematicState, max_prediction: i64) -> (r: i64)
    requires
        motor.wf(),
        target.wf(),
        1 <= max_prediction <= TIME_LIMIT,
    ensures
        r as int == prediction_spec(*motor, target.position, max_prediction as int),
        0 <= r <= TIME_LIMIT,
{
    let d = target.position.minus(motor.kin.position);
    let dist = d.length();
    proof {
        assert(0 <= sq_len_spec(d.x as int, d.y as int) && sq_len_spec(d.x as int, d.y as int)
            < 3_000_000_000i64 * 3_000_000_000i64) by (nonlinear_arith)
            requires
                mag(d.x as int) <= 2 * MAG_LIMIT,
                mag(d.y as int) <= 2 * MAG_LIMIT,
                MAG_LIMIT == 1_000_000_000i64,
        ;
        crate::fixed::lemma_sqrt_floor_le(sq_len_spec(d.x as int, d.y as int), 3_000_000_000);
    }
    let spd = motor.kin.speed();
    proof {
        lemma_mul_bound(spd as int, max_prediction as int, 1_500_000_000, TIME_LIMIT as int);
        lemma_mul_bound(dist as int, SCALE as int, 3_000_000_000, SCALE as int);
    }
    if (spd as i128) * (max_prediction as i128) <= (dist as i128) * (SCALE as i128) {
        max_prediction
    } else {
        proof {
            assert(spd >= 1) by (nonlinear_arith)
                requires
                    spd as int * max_prediction as int > dist as int * SCALE as int,
                    dist >= 0,
                    max_prediction >= 1,
                    spd >= 0,
            ;
            lemma_div_round_bounds(dist as int * SCALE as int, spd as int);
        }
        let p = div_round_i128((dist as i128) * (SCALE as i128), spd as i128);
        proof {
            assert(dist as int * SCALE as int <= TIME_LIMIT) by (nonlinear_arith)
                requires
                    0 <= dist <= 3_000_000_000i64,
                    SCALE == 1000i64,
                    TIME_LIMIT == 5_000_000_000_000i64,
            ;
        }
        p as i64
    }
}

/// What forward-facing commands: alignment with the direction of travel;
/// nothing when the agent is not moving.
pub open spec fn face_forward_out(m: MotorState) -> Option<(int, int, int)> {
    if m.kin.velocity.x == 0 && m.kin.velocity.y == 0 {
        None
    } else {
        align_out(m, atan2_fp_spec(m.kin.velocity.y as int, m.kin.velocity.x as int))
    }
}

/// Align the heading with the current direction of travel.
#[derive(Clone, Copy, PartialEq, Eq, Structural, Debug)]
pub struct FaceForward {
}

impl FaceForward {
    /// Abstains when the current speed is zero (no defined direction), or
    /// when the alignment it delegates to abstains.
    pub fn execute(&self, motor: &MotorState) -> (r: Option<MovementOutput>)
        requires
            motor.wf(),
        ensures
            out_matches(r, face_forward_out(*motor)),
    {
        let v = motor.kin.velocity;
        if v.x == 0 && v.y == 0 {
            None
        } else {
            let ang = atan2_fp(v.y, v.x);
            Align { target: ang }.execute(motor)
        }
    }
}

/// How wander advances its persistent heading offset: the host's bounded
/// random sample (in thousandths of `[-1, 1]`) times the wander rate times
/// the control horizon, added and renormalized.
pub open spec fn wander_next_orientation(w: Wander, m: MotorState, jitter: int) -> int {
    norm_angle_spec(
        w.orientation + div_round(
            div_round(jitter * w.rate, SCALE as int) * m.control_horizon,
            SCALE as int,
        ),
    )
}

/// The circular wander target: a point on a circle of the wander radius,
/// centred the wander offset ahead of the agent, at the advanced heading
/// offset from the agent's heading.
pub open spec fn wander_target(w: Wander, m: MotorState, jitter: int) -> Vec2 {
    let o2 = wander_next_orientation(w, m, jitter);
    let cx = m.kin.position.x + div_round(
        cos_fp_spec(m.kin.orientation as int) * w.offset,
        SCALE as int,
    );
    let cy = m.kin.position.y + div_round(
        sin_fp_spec(m.kin.orientation as int) * w.offset,
        SCALE as int,
    );
    let ta = m.kin.orientation + o2;
    Vec2 {
        x: (cx + div_round(cos_fp_spec(ta) * w.radius, SCALE as int)) as i64,
        y: (cy + div_round(sin_fp_spec(ta) * w.radius, SCALE as int)) as i64,
    }
}

/// What wandering commands: seek's linear acceleration toward the circular
/// target blended with facing's angular acceleration toward it, either
/// falling back to zero when its delegate abstains. Wandering itself never
/// abstains.
pub open spec fn wander_out(w: Wander, m: MotorState, jitter: int) -> (int, int, int) {
    let t = wander_target(w, m, jitter);
    let lin = match seek_out(m, t) {
        Option::Some(o) => (o.0, o.1),
        Option::None => (0, 0),
    };
    let ang = match face_out(m, t) {
        Option::Some(o) => o.2,
        Option::None => 0,
    };
    (lin.0, lin.1, ang)
}

/// Drift on a jittered heading: each tick a bounded random increment turns
/// the persistent heading offset, and the agent steers toward and turns
/// toward a circular target ahead of itself.
#[derive(Clone, Copy, PartialEq, Eq, Structural, Debug)]
pub struct Wander {
    /// Radius of the wander circle.
    pub radius: i64,
    /// How far ahead of the agent the circle is centred.
    pub offset: i64,
    /// How fast the heading offset may turn, in thousandths of a radian per
    /// second.
    pub rate: i64,
    /// The persistent heading offset, mutated each tick and kept across
    /// ticks.
    pub orientation: i64,
}

impl Wander {
    /// Parameters within the engine's caps.
    pub open spec fn wf(self) -> bool {
        &&& mag(self.radius as int) <= MAG_LIMIT
        &&& mag(self.offset as int) <= MAG_LIMIT
        &&& mag(self.rate as int) <= MAG_LIMIT
        &&& mag(self.orientation as int) <= ANGLE_LIMIT
    }

    /// Advance the heading offset by the host-supplied bounded random sample
    /// and command toward the circular target; never abstains.
    pub fn execute(&mut self, motor: &MotorState, jitter: i64) -> (r: Option<MovementOutput>)
        requires
            motor.wf(),
            old(self).wf(),
            mag(jitter as int) <= SCALE,
        ensures
            r is Some,
            out_matches(r, Some(wander_out(*old(self), *motor, jitter as int))),
            final(self).orientation as int == wander_next_orientation(
                *old(self),
                *motor,
                jitter as int,
            ),
            final(self).radius == old(self).radius,
            final(self).offset == old(self).offset,
            final(self).rate == old(self).rate,
            final(self).wf(),
    {
        proof {
            lemma_mul_bound(jitter as int, self.rate as int, SCALE as int, MAG_LIMIT as int);
            lemma_div_round_le(jitter as int * self.rate as int, SCALE as int, MAG_LIMIT as int);
        }
        let d1 = mul_div_round(jitter, self.rate, SCALE);
        proof {
            lemma_mul_bound(d1 as int, motor.control_horizon as int, MAG_LIMIT as int, 10_000_000);
            lemma_div_round_le(
                d1 as int * motor.control_horizon as int,
                SCALE as int,
                10_000_000_000_000,
            );
        }
        let delta = mul_div_round(d1, motor.control_horizon, SCALE);
        let o2 = crate::trig::norm_angle(self.orientation + delta);
        self.orientation = o2;
        let fwd = motor.kin.forward();
        proof {
            lemma_mul_bound(fwd.x as int, self.offset as int, SCALE as int, MAG_LIMIT as int);
            lemma_mul_bound(fwd.y as int, self.offset as int, SCALE as int, MAG_LIMIT as int);
            lemma_div_round_le(fwd.x as int * self.offset as int, SCALE as int, MAG_LIMIT as int);
            lemma_div_round_le(fwd.y as int * self.offset as int, SCALE as int, MAG_LIMIT as int);
        }
        let cx = motor.kin.position.x + mul_div_round(fwd.x, self.offset, SCALE);
        let cy = motor.kin.position.y + mul_div_round(fwd.y, self.offset, SCALE);
        let ta = motor.kin.orientation + o2;
        let cosr = crate::trig::cos_fp(ta);
        let sinr = crate::trig::sin_fp(ta);
        proof {
            lemma_mul_bound(cosr as int, self.radius as int, SCALE as int, MAG_LIMIT as int);
            lemma_mul_bound(sinr as int, self.radius as int, SCALE as int, MAG_LIMIT as int);
            lemma_div_round_le(cosr as int * self.radius as int, SCALE as int, MAG_LIMIT as int);
            lemma_div_round_le(sinr as int * self.radius as int, SCALE as int, MAG_LIMIT as int);
        }
        let target = Vec2 {
            x: cx + mul_div_round(cosr, self.radius, SCALE),
            y: cy + mul_div_round(sinr, self.radius, SCALE),
        };
        let lin = match (Seek { target }.execute(motor)) {
            Some(o) => o.linear,
            None => Vec2 { x: 0, y: 0 },
        };
        let ang = match (Face { target }.execute(motor)) {
            Some(o) => o.angular,
            None => 0,
        };
        Some(MovementOutput { linear: lin, angular: ang })
    }
}

/// The closed set of movement strategies the blend can compose; blending
/// dispatches over this tagged union.
#[derive(Clone, Copy, PartialEq, Eq, Structural, Debug)]
pub enum Strategy {
    Seek(Seek),
    Flee(Flee),
    Arrive(Arrive),
    Align(Align),
    Face(Face),
    MatchVelocity(MatchVelocity),
    Pursue(Pursue),
    Evade(Evade),
    FaceForward(FaceForward),
    Wander(Wander),
}

/// Each strategy's own precondition, lifted over the tagged union.
pub open spec fn strategy_requires(s: Strategy, m: MotorState) -> bool {
    match s {
        Strategy::Seek(x) => offset_ok(x.target, m.kin.position),
        Strategy::Flee(x) => offset_ok(x.target, m.kin.position),
        Strategy::Arrive(x) => offset_ok(x.target, m.kin.position),
        Strategy::Align(x) => mag(x.target as int) <= ANGLE_LIMIT,
        Strategy::Face(x) => offset_ok(x.target, m.kin.position),
        Strategy::MatchVelocity(x) => in_mag(x.target),
        Strategy::Pursue(x) => x.target.wf() && 1 <= x.max_prediction <= TIME_LIMIT,
        Strategy::Evade(x) => x.target.wf() && 1 <= x.max_prediction <= TIME_LIMIT,
        Strategy::FaceForward(_) => true,
        Strategy::Wander(w) => w.wf(),
    }
}

/// Each strategy's command, lifted over the tagged union; the jitter feeds
/// only wander.
pub open spec fn strategy_out(s: Strategy, m: MotorState, jitter: int) -> Option<(int, int, int)> {
    match s {
        Strategy::Seek(x) => seek_out(m, x.target),
        Strategy::Flee(x) => flee_out(m, x.target),
        Strategy::Arrive(x) => arrive_out(m, x.target),
        Strategy::Align(x) => align_out(m, x.target as int),
        Strategy::Face(x) => face_out(m, x.target),
        Strategy::MatchVelocity(x) => match_velocity_out(m, x.target),
        Strategy::Pursue(x) => pursue_out(m, x.target, x.max_prediction as int),
        Strategy::Evade(x) => evade_out(m, x.target, x.max_prediction as int),
        Strategy::FaceForward(_) => face_forward_out(m),
        Strategy::Wander(w) => Some(wander_out(w, m, jitter)),
    }
}

/// How executing a strategy changes it: only wander carries state, its
/// heading offset advancing by the jitter.
pub open spec fn strategy_step(s: Strategy, m: MotorState, jitter: int) -> Strategy {
    match s {
        Strategy::Wander(w) => Strategy::Wander(
            Wander { orientation: wander_next_orientation(w, m, jitter) as i64, ..w },
        ),
        _ => s,
    }
}

impl Strategy {
    /// Execute the wrapped strategy; the jitter is the host's bounded random
    /// sample for this tick, read only by wander.
    pub fn execute(&mut self, motor: &MotorState, jitter: i64) -> (r: Option<MovementOutput>)
        requires
            motor.wf(),
            strategy_requires(*old(self), *motor),
            mag(jitter as int) <= SCALE,
        ensures
            out_matches(r, strategy_out(*old(self), *motor, jitter as int)),
            *final(self) == strategy_step(*old(self), *motor, jitter as int),
    {
        let s = *self;
        match s {
            Strategy::Seek(x) => x.execute(motor),
            Strategy::Flee(x) => x.execute(motor),
            Strategy::Arrive(x) => x.execute(motor),
            Strategy::Align(x) => x.execute(motor),
            Strategy::Face(x) => x.execute(motor),
            Strategy::MatchVelocity(x) => x.execute(motor),
            Strategy::Pursue(x) => x.execute(motor),
            Strategy::Evade(x) => x.execute(motor),
            Strategy::FaceForward(x) => x.execute(motor),
            Strategy::Wander(mut w) => {
                let r = w.execute(motor, jitter);
                *self = Strategy::Wander(w);
                r
            },
        }
    }
}

/// A command scaled componentwise by a weight in thousandths.
pub open spec fn weighted(o: Option<(int, int, int)>, w: int) -> Option<(int, int, int)> {
    match o {
        Option::None => None,
        Option::Some(c) => Some(
            (
                div_round(c.0 * w, SCALE as int),
                div_round(c.1 * w, SCALE as int),
                div_round(c.2 * w, SCALE as int),
            ),
        ),
    }
}

/// Componentwise accumulation that skips absent commands.
pub open spec fn combine(acc: Option<(int, int, int)>, cur: Option<(int, int, int)>) -> Option<
    (int, int, int),
> {
    match cur {
        Option::None => acc,
        Option::Some(c) => match acc {
            Option::None => Some(c),
            Option::Some(a) => Some((a.0 + c.0, a.1 + c.1, a.2 + c.2)),
        },
    }
}

/// The weighted sum of the first `n` strategies' commands, skipping the
/// ones that abstain; absent when every one of them abstains.
pub open spec fn blend_prefix(
    moves: Seq<(Strategy, i64)>,
    m: MotorState,
    jitter: int,
    n: int,
) -> Option<(int, int, int)>
    decreases n,
{
    if n <= 0 {
        None
    } else {
        combine(
            blend_prefix(moves, m, jitter, n - 1),
            weighted(strategy_out(moves[n - 1].0, m, jitter), moves[n - 1].1 as int),
        )
    }
}

/// The whole blend: the weighted sum over every child strategy.
pub open spec fn blend_out(moves: Seq<(Strategy, i64)>, m: MotorState, jitter: int) -> Option<
    (int, int, int),
> {
    blend_prefix(moves, m, jitter, moves.len() as int)
}

/// Weighted combinator: runs each child strategy in order, scales each
/// non-abstaining command by its weight (in thousandths) and sums them
/// componentwise; abstains only when every child abstains. The sum is
/// neither renormalized by the total weight nor clamped to the motor's
/// limits — that is left to the actuation layer.
pub struct MovementBlend {
    pub moves: Vec<(Strategy, i64)>,
}

impl MovementBlend {
    /// Execute every child against the motor, stepping each child's own
    /// state, and sum the weighted commands of those that answered.
    #[verifier::rlimit(100)]
    pub fn execute(&mut self, motor: &MotorState, jitter: i64) -> (r: Option<MovementOutput>)
        requires
            motor.wf(),
            mag(jitter as int) <= SCALE,
            old(self).moves@.len() <= 1000,
            forall|i: int|
                0 <= i < old(self).moves@.len() ==> strategy_requires(
                    #[trigger] old(self).moves@[i].0,
                    *motor,
                ) && mag(old(self).moves@[i].1 as int) <= 1_000_000,
            blend_out(old(self).moves@, *motor, jitter as int) matches Some(o) ==> mag(o.0)
                <= i64::MAX && mag(o.1) <= i64::MAX && mag(o.2) <= i64::MAX,
        ensures
            out_matches(r, blend_out(old(self).moves@, *motor, jitter as int)),
            final(self).moves@.len() == old(self).moves@.len(),
            forall|i: int|
                0 <= i < old(self).moves@.len() ==> #[trigger] final(self).moves@[i].0
                    == strategy_step(old(self).moves@[i].0, *motor, jitter as int)
                    && final(self).moves@[i].1 == old(self).moves@[i].1,
    {
        let ghost orig = self.moves@;
        let ghost m = *motor;
        let n = self.moves.len();
        let mut updated: Vec<(Strategy, i64)> = Vec::new();
        let mut any: bool = false;
        let mut acc_x: i128 = 0;
        let mut acc_y: i128 = 0;
        let mut acc_a: i128 = 0;
        let mut i: usize = 0;
        while i < n
            invariant
                motor.wf(),
                m == *motor,
                mag(jitter as int) <= SCALE,
                n == orig.len() <= 1000,
                self.moves@ == orig,
                0 <= i <= n,
                updated@.len() == i,
                forall|k: int|
                    0 <= k < n ==> strategy_requires(#[trigger] orig[k].0, m) && mag(
                        orig[k].1 as int,
                    ) <= 1_000_000,
                forall|k: int|
                    0 <= k < i ==> #[trigger] updated@[k].0 == strategy_step(
                        orig[k].0,
                        m,
                        jitter as int,
                    ) && updated@[k].1 == orig[k].1,
                !any ==> blend_prefix(orig, m, jitter as int, i as int) is None,
                any ==> blend_prefix(orig, m, jitter as int, i as int) == Some(
                    (acc_x as int, acc_y as int, acc_a as int),
                ),
                mag(acc_x as int) <= i * 10_000_000_000_000_000_000_000,
                mag(acc_y as int) <= i * 10_000_000_000_000_000_000_000,
                mag(acc_a as int) <= i * 10_000_000_000_000_000_000_000,
            decreases n - i,
        {
            let pair = self.moves[i];
            let mut s = pair.0;
            let w = pair.1;
            let out = s.execute(motor, jitter);
            updated.push((s, w));
            match out {
                None => {},
                Some(o) => {
                    proof {
                        lemma_mul_bound(
                            o.linear.x as int,
                            w as int,
                            9_223_372_036_854_775_808,
                            1_000_000,
                        );
                        lemma_mul_bound(
                            o.linear.y as int,
                            w as int,
                            9_223_372_036_854_775_808,
                            1_000_000,
                        );
                        lemma_mul_bound(o.angular as int, w as int, 9_223_372_036_854_775_808, 1_000_000);
                        lemma_div_round_le(
                            o.linear.x as int * w as int,
                            SCALE as int,
                            10_000_000_000_000_000_000_000,
                        );
                        lemma_div_round_le(
                            o.linear.y as int * w as int,
                            SCALE as int,
                            10_000_000_000_000_000_000_000,
                        );
                        lemma_div_round_le(
                            o.angular as int * w as int,
                            SCALE as int,
                            10_000_000_000_000_000_000_000,
                        );
                        assert(mag(o.linear.x as int * w as int) <= SCALE as int * (
                        10_000_000_000_000_000_000_000int) && mag(o.linear.y as int * w as int)
                            <= SCALE as int * (10_000_000_000_000_000_000_000int) && mag(
                            o.angular as int * w as int,
                        ) <= SCALE as int * (10_000_000_000_000_000_000_000int))
                            by (nonlinear_arith)
                            requires
                                mag(o.linear.x as int * w as int) <= (9_223_372_036_854_775_808int)
                                    * 1_000_000,
                                mag(o.linear.y as int * w as int) <= (9_223_372_036_854_775_808int)
                                    * 1_000_000,
                                mag(o.angular as int * w as int) <= (9_223_372_036_854_775_808int)
                                    * 1_000_000,
                                SCALE == 1000i64,
                        ;
                    }
                    let dx = div_round_i128((o.linear.x as i128) * (w as i128), SCALE as i128);
                    let dy = div_round_i128((o.linear.y as i128) * (w as i128), SCALE as i128);
                    let da = div_round_i128((o.angular as i128) * (w as i128), SCALE as i128);
                    if any {
                        acc_x = acc_x + dx;
                        acc_y = acc_y + dy;
                        acc_a = acc_a + da;
                    } else {
                        acc_x = dx;
                        acc_y = dy;
                        acc_a = da;
                        any = true;
                    }
                },
            }
            i = i + 1;
        }
        self.moves = updated;
        if any {
            Some(
                MovementOutput {
                    linear: Vec2 { x: acc_x as i64, y: acc_y as i64 },
                    angular: acc_a as i64,
                },
            )
        } else {
            None
        }
    }
}

/// In a blend of two equally weighted strategies where the first abstains,
/// the blend's command is exactly the other's weighted command — unscaled by
/// the number of children; and when both abstain, the blend abstains.
pub proof fn lemma_blend_pair(s1: Strategy, s2: Strategy, w: i64, m: MotorState, jitter: int)
    requires
        strategy_out(s1, m, jitter) is None,
    ensures
        blend_out(seq![(s1, w), (s2, w)], m, jitter) == weighted(
            strategy_out(s2, m, jitter),
            w as int,
        ),
{
    let moves = seq![(s1, w), (s2, w)];
    assert(moves.len() == 2);
    assert(moves[0] == (s1, w) && moves[1] == (s2, w));
    assert(blend_prefix(moves, m, jitter, 0) is None);
    assert(blend_prefix(moves, m, jitter, 1) is None);
    assert(blend_prefix(moves, m, jitter, 2) == combine(
        blend_prefix(moves, m, jitter, 1),
        weighted(strategy_out(s2, m, jitter), w as int),
    ));
    match weighted(strategy_out(s2, m, jitter), w as int) {
        Option::None => {},
        Option::Some(c) => {},
    }
}

/// A blend abstains exactly when every one of its children abstains; in
/// particular an empty blend abstains.
pub proof fn lemma_blend_abstains(moves: Seq<(Strategy, i64)>, m: MotorState, jitter: int, n: int)
    requires
        0 <= n <= moves.len(),
    ensures
        blend_prefix(moves, m, jitter, n) is None <==> (forall|i: int|
            0 <= i < n ==> strategy_out(#[trigger] moves[i].0, m, jitter) is None),
    decreases n,
{
    if n > 0 {
        lemma_blend_abstains(moves, m, jitter, n - 1);
    }
}

} // verus!
