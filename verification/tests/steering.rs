// Movement strategies on concrete agents. All values are in fixed point:
// integers counting thousandths of a unit, radian, or second.

use steering::kinematics::{KinematicState, MotorState};
use steering::strategies::{
    Align, Arrive, Evade, Face, FaceForward, Flee, MatchVelocity, MovementBlend, Pursue, Seek,
    Strategy, Wander,
};
use steering::vector::Vec2;

/// A motor at the origin with the stock thresholds: linear and angular
/// limits of one unit per second squared and a one-second control horizon.
fn motor_at_rest() -> MotorState {
    let kin = KinematicState {
        position: Vec2 { x: 0, y: 0 },
        velocity: Vec2 { x: 0, y: 0 },
        orientation: 0,
        rotation: 0,
    };
    MotorState::new(kin, 1_000, 1_000, 1_000)
}

#[test]
fn seek_commands_unit_direction_at_full_magnitude() {
    let motor = motor_at_rest();
    let out = Seek { target: Vec2 { x: 3_000, y: 4_000 } }.execute(&motor).unwrap();
    // the (3, 4, 5) offset: unit vector (0.6, 0.8) at the full linear limit
    assert_eq!(out.linear, Vec2 { x: 600, y: 800 });
    assert_eq!(out.angular, 0);
    // magnitude exactly the linear limit
    let sq = out.linear.x * out.linear.x + out.linear.y * out.linear.y;
    assert_eq!(sq, 1_000 * 1_000);
}

#[test]
fn seek_abstains_at_the_target() {
    let motor = motor_at_rest();
    assert!(Seek { target: Vec2 { x: 0, y: 0 } }.execute(&motor).is_none());
}

#[test]
fn seek_and_flee_are_exact_opposites() {
    let motor = motor_at_rest();
    let target = Vec2 { x: 3_000, y: 4_000 };
    let s = Seek { target }.execute(&motor).unwrap();
    let f = Flee { target }.execute(&motor).unwrap();
    assert_eq!(s.linear.x, -f.linear.x);
    assert_eq!(s.linear.y, -f.linear.y);
    assert!(Flee { target: Vec2 { x: 0, y: 0 } }.execute(&motor).is_none());
}

#[test]
fn arrive_ramps_with_distance() {
    let motor = motor_at_rest();
    // inside the stop radius (25 units): nothing commanded
    assert!(Arrive { target: Vec2 { x: 20_000, y: 0 } }.execute(&motor).is_none());
    // between stop and slow radius (100 units): speed scaled by distance
    let mid = Arrive { target: Vec2 { x: 50_000, y: 0 } }.execute(&motor).unwrap();
    assert_eq!(mid.linear, Vec2 { x: 500, y: 0 });
    // at the slow radius exactly: the full limit (the ramp is continuous)
    let edge = Arrive { target: Vec2 { x: 100_000, y: 0 } }.execute(&motor).unwrap();
    assert_eq!(edge.linear, Vec2 { x: 1_000, y: 0 });
    // far beyond: still the full limit
    let far = Arrive { target: Vec2 { x: 200_000, y: 0 } }.execute(&motor).unwrap();
    assert_eq!(far.linear, Vec2 { x: 1_000, y: 0 });
    assert!(mid.linear.x <= edge.linear.x && edge.linear.x <= far.linear.x);
}

#[test]
fn align_abstains_exactly_within_stop_angle() {
    let motor = motor_at_rest();
    // the stock stop angle is 9 thousandths of a radian
    assert!(Align { target: 9 }.execute(&motor).is_none());
    assert!(Align { target: -9 }.execute(&motor).is_none());
    let just_out = Align { target: 10 }.execute(&motor).unwrap();
    assert_eq!(just_out.linear, Vec2 { x: 0, y: 0 });
    assert_eq!(just_out.angular, 6);
    let neg = Align { target: -10 }.execute(&motor).unwrap();
    assert_eq!(neg.angular, -6);
    // a target a full turn plus five thousandths away normalizes to within
    // the stop angle
    assert!(Align { target: 6_284 + 5 }.execute(&motor).is_none());
}

#[test]
fn face_aligns_toward_the_target_point() {
    let motor = motor_at_rest();
    // a target due "north": a quarter turn away, beyond the slow angle, so
    // the full angular limit over the one-second horizon
    let out = Face { target: Vec2 { x: 0, y: 5_000 } }.execute(&motor).unwrap();
    assert_eq!(out.linear, Vec2 { x: 0, y: 0 });
    assert_eq!(out.angular, 1_000);
    // facing the target already: the angle difference is zero, within stop
    assert!(Face { target: Vec2 { x: 5_000, y: 0 } }.execute(&motor).is_none());
    // coincident target: no direction
    assert!(Face { target: Vec2 { x: 0, y: 0 } }.execute(&motor).is_none());
}

#[test]
fn match_velocity_never_abstains() {
    let mut motor = motor_at_rest();
    motor.kin.velocity = Vec2 { x: 1_000, y: 0 };
    let out = MatchVelocity { target: Vec2 { x: 3_000, y: 0 } }.execute(&motor).unwrap();
    assert_eq!(out.linear, Vec2 { x: 2_000, y: 0 });
    let stopped = MatchVelocity { target: Vec2 { x: 0, y: 0 } }.execute(&motor).unwrap();
    assert_eq!(stopped.linear, Vec2 { x: -1_000, y: 0 });
}

#[test]
fn pursue_seeks_the_predicted_point() {
    let motor = motor_at_rest();
    let target = KinematicState {
        position: Vec2 { x: 10_000, y: 0 },
        velocity: Vec2 { x: 1_000, y: 0 },
        orientation: 0,
        rotation: 0,
    };
    // the motor is at rest, so the prediction clamps to the full horizon;
    // the point two seconds ahead is still due east, so seek commands east
    let out = Pursue { target, max_prediction: 2_000 }.execute(&motor).unwrap();
    assert_eq!(out.linear, Vec2 { x: 1_000, y: 0 });
    assert_eq!(out.angular, 0);
}

#[test]
fn evade_flees_the_predicted_point() {
    let motor = motor_at_rest();
    let target = KinematicState {
        position: Vec2 { x: 10_000, y: 0 },
        velocity: Vec2 { x: 1_000, y: 0 },
        orientation: 0,
        rotation: 0,
    };
    let out = Evade { target, max_prediction: 2_000 }.execute(&motor).unwrap();
    assert_eq!(out.linear, Vec2 { x: -1_000, y: 0 });
}

#[test]
fn face_forward_needs_motion() {
    let motor = motor_at_rest();
    assert!(FaceForward {}.execute(&motor).is_none());
    let mut moving = motor_at_rest();
    moving.kin.velocity = Vec2 { x: 0, y: 1_000 };
    let out = FaceForward {}.execute(&moving).unwrap();
    assert_eq!(out.angular, 1_000);
}

#[test]
fn wander_always_outputs_and_keeps_its_offset() {
    let motor = motor_at_rest();
    // a degenerate wander circle at the agent itself: both delegates
    // abstain, and wander falls back to zero components
    let mut w = Wander { radius: 0, offset: 0, rate: 1_000, orientation: 0 };
    let out = w.execute(&motor, 1_000).unwrap();
    assert_eq!(out.linear, Vec2 { x: 0, y: 0 });
    assert_eq!(out.angular, 0);
    // the heading offset advanced by jitter * rate * horizon and persists
    assert_eq!(w.orientation, 1_000);
    let mut real = Wander { radius: 5_000, offset: 10_000, rate: 1_000, orientation: 0 };
    assert!(real.execute(&motor, -500).is_some());
    assert_eq!(real.orientation, -500);
    assert_eq!(real.radius, 5_000);
    assert_eq!(real.offset, 10_000);
}

#[test]
fn blend_with_one_abstaining_returns_the_other_weighted() {
    let motor = motor_at_rest();
    let silent = Strategy::Seek(Seek { target: Vec2 { x: 0, y: 0 } });
    let active = Strategy::Seek(Seek { target: Vec2 { x: 3_000, y: 4_000 } });
    let mut blend = MovementBlend { moves: vec![(silent, 500), (active, 500)] };
    let out = blend.execute(&motor, 0).unwrap();
    // exactly the active child's output at half weight, unscaled by count
    assert_eq!(out.linear, Vec2 { x: 300, y: 400 });
    assert_eq!(out.angular, 0);
}

#[test]
fn blend_abstains_only_when_all_children_abstain() {
    let motor = motor_at_rest();
    let silent = Strategy::Seek(Seek { target: Vec2 { x: 0, y: 0 } });
    let mut both = MovementBlend { moves: vec![(silent, 500), (silent, 500)] };
    assert!(both.execute(&motor, 0).is_none());
    let mut empty = MovementBlend { moves: vec![] };
    assert!(empty.execute(&motor, 0).is_none());
}

#[test]
fn blend_sums_weighted_outputs() {
    let motor = motor_at_rest();
    let east = Strategy::Seek(Seek { target: Vec2 { x: 5_000, y: 0 } });
    let north = Strategy::Seek(Seek { target: Vec2 { x: 0, y: 5_000 } });
    let mut blend = MovementBlend { moves: vec![(east, 1_000), (north, 1_000)] };
    let out = blend.execute(&motor, 0).unwrap();
    assert_eq!(out.linear, Vec2 { x: 1_000, y: 1_000 });
}
