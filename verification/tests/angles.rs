// The fixed-point angle utilities on concrete values: thousandths of a
// radian, with a half turn of 3142.

use steering::trig::{angle_diff, atan2_fp, cos_fp, deg_to_rad, norm_angle, sin_fp};

#[test]
fn angles_normalize_to_the_shortest_representative() {
    assert_eq!(norm_angle(0), 0);
    assert_eq!(norm_angle(3_142), 3_142);
    assert_eq!(norm_angle(3_143), -3_141);
    assert_eq!(norm_angle(6_284 + 5), 5);
    assert_eq!(norm_angle(-6_284 - 5), -5);
    assert_eq!(angle_diff(100, 50), -50);
    assert_eq!(angle_diff(-3_000, 3_000), -284);
}

#[test]
fn sine_and_cosine_hit_the_cardinal_points() {
    assert_eq!(sin_fp(0), 0);
    assert_eq!(sin_fp(1_571), 1_000);
    assert_eq!(sin_fp(-1_571), -1_000);
    assert_eq!(sin_fp(3_142), 0);
    assert_eq!(cos_fp(0), 1_000);
    assert_eq!(cos_fp(3_142), -1_000);
    assert_eq!(cos_fp(1_571), 0);
    // thirty degrees: within a thousandth of one half
    assert_eq!(sin_fp(524), 500);
}

#[test]
fn atan2_resolves_the_quadrants() {
    assert_eq!(atan2_fp(0, 1_000), 0);
    assert_eq!(atan2_fp(1_000, 0), 1_571);
    assert_eq!(atan2_fp(0, -1_000), 3_142);
    assert_eq!(atan2_fp(-1_000, 0), -1_571);
    assert_eq!(atan2_fp(1_000, 1_000), 785);
    assert_eq!(atan2_fp(0, 0), 0);
}

#[test]
fn degrees_convert_by_the_half_turn_ratio() {
    assert_eq!(deg_to_rad(90_000), 1_571);
    assert_eq!(deg_to_rad(-90_000), -1_571);
    assert_eq!(deg_to_rad(500), 9);
    assert_eq!(deg_to_rad(180_000), 3_142);
    assert_eq!(deg_to_rad(0), 0);
}
