// Kinematic queries and the ballistic lead prediction on concrete states.
// All values are in fixed point: integers counting thousandths.

use steering::kinematics::{KinematicState, MotorState};
use steering::vector::{Vec2, Vector};

fn kin(px: i64, py: i64, vx: i64, vy: i64) -> KinematicState {
    KinematicState {
        position: Vec2 { x: px, y: py },
        velocity: Vec2 { x: vx, y: vy },
        orientation: 0,
        rotation: 0,
    }
}

#[test]
fn forward_follows_the_heading() {
    let mut k = kin(0, 0, 0, 0);
    assert_eq!(k.forward(), Vec2 { x: 1_000, y: 0 });
    // a quarter turn: due north, exactly on the fixed-point grid
    k.orientation = 1_571;
    assert_eq!(k.forward(), Vec2 { x: 0, y: 1_000 });
    k.orientation = 3_142;
    assert_eq!(k.forward(), Vec2 { x: -1_000, y: 0 });
}

#[test]
fn speed_and_squared_length() {
    let k = kin(0, 0, 3_000, 4_000);
    assert_eq!(k.speed(), 5_000);
    assert_eq!(k.velocity().sq_length(), 25_000_000);
    assert_eq!(k.velocity().length(), 5_000);
}

#[test]
fn at_time_extrapolates_linearly() {
    let k = kin(1_000, 2_000, 100, -200);
    assert_eq!(k.at_time(3_000), Vec2 { x: 1_300, y: 1_400 });
    assert_eq!(k.at_time(0), Vec2 { x: 1_000, y: 2_000 });
}

#[test]
fn lead_time_absent_for_a_receding_faster_target() {
    // the target recedes along the x axis at twice the projectile's speed
    let k = kin(10_000, 0, 2_000, 0);
    let cannon = Vec2 { x: 0, y: 0 };
    assert!(k.lead_time(cannon, 1_000).is_none());
    assert!(k.lead_position(cannon, 1_000).is_none());
}

#[test]
fn lead_time_round_trip_for_a_still_target() {
    // a still target 5 units away, projectile at one unit per second:
    // intercept in exactly 5 seconds
    let k = kin(3_000, 4_000, 0, 0);
    let cannon = Vec2 { x: 0, y: 0 };
    let t = k.lead_time(cannon, 1_000).unwrap();
    assert_eq!(t, 5_000);
    let hit = k.at_time(t);
    let offset = hit.minus(cannon);
    // the intercept point is reachable in exactly the solved time
    assert_eq!(offset.length(), 1_000 * t / 1_000);
    assert_eq!(k.lead_position(cannon, 1_000).unwrap(), Vec2 { x: 3_000, y: 4_000 });
}

#[test]
fn lead_time_handles_the_degenerate_linear_case() {
    // the target closes head-on at exactly the projectile's speed, so the
    // quadratic degenerates to a linear equation: they meet halfway in time
    // distance / (2 * speed) ... here 10 units closing at 2 units/s combined
    let k = kin(10_000, 0, -1_000, 0);
    let cannon = Vec2 { x: 0, y: 0 };
    let t = k.lead_time(cannon, 1_000).unwrap();
    assert_eq!(t, 5_000);
    let hit = k.at_time(t);
    assert_eq!(hit, Vec2 { x: 5_000, y: 0 });
    // round trip: the projectile covers the same distance in the same time
    assert_eq!(hit.minus(cannon).length(), 1_000 * t / 1_000);
}

#[test]
fn lead_time_zero_offset_gives_no_solution() {
    // a target sitting exactly on the cannon: only the trivial root at zero,
    // which is not a positive lead time
    let k = kin(0, 0, 500, 0);
    assert!(k.lead_time(Vec2 { x: 0, y: 0 }, 1_000).is_none());
}

#[test]
fn motor_defaults_match_the_stock_thresholds() {
    let m = MotorState::new(kin(0, 0, 0, 0), 2_000, 3_000, 16);
    assert_eq!(m.slow_radius(), 100_000);
    assert_eq!(m.stop_radius(), 25_000);
    assert_eq!(m.slow_angle(), 1_571);
    assert_eq!(m.stop_angle(), 9);
    assert_eq!(m.max_linear_acceleration(), 2_000);
    assert_eq!(m.max_angular_acceleration(), 3_000);
    assert_eq!(m.time_to_target(), 16);
    assert_eq!(m.kin.position(), Vec2 { x: 0, y: 0 });
    assert_eq!(m.kin.velocity(), Vec2 { x: 0, y: 0 });
    assert_eq!(m.kin.orientation(), 0);
    assert_eq!(m.kin.rotation(), 0);
}
