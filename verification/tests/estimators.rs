// Estimator behavior on concrete measurement streams. All values are in
// fixed point: integers counting thousandths.

use steering::estimation::{DynKalman, Kalman};

/// Round-to-nearest division with ties away from zero, for positive divisors.
fn rdiv(a: i64, b: i64) -> i64 {
    if a >= 0 {
        (2 * a + b) / (2 * b)
    } else {
        -((2 * (-a) + b) / (2 * b))
    }
}

/// Round a fixed-point value to two decimal places (still in thousandths).
fn round2(v: i64) -> i64 {
    rdiv(v, 10) * 10
}

/// Round a fixed-point value to whole units.
fn round0(v: i64) -> i64 {
    rdiv(v, 1000)
}

#[test]
fn test_kalman_static() {
    let mut gold = Kalman::new(1_000_000);
    assert_eq!(gold.estimate(), 1_000_000);
    let values = [
        (996_000, 996_000),
        (994_000, 995_000),
        (1_021_000, 1_003_670),
        (1_000_000, 1_002_750),
        (1_002_000, 1_002_600),
        (1_010_000, 1_003_830),
        (983_000, 1_000_860),
        (971_000, 997_130),
        (993_000, 996_670),
        (1_023_000, 999_300),
    ];
    for (measurement, expected) in values {
        let estimate = gold.update(measurement);
        assert_eq!(round2(estimate), expected);
    }
}

#[test]
fn test_kalman_dynamic() {
    let mut aircraft = DynKalman::new(30_000_000, 40_000, 5_000);
    let (p, v) = aircraft.predict();
    assert_eq!(p, 30_200_000);
    assert_eq!(v, 40_000);
    let values = [
        (30_171_000, 30_194_200, 39_420, 30_391_300, 39_420),
        (30_353_000, 30_383_640, 38_650, 30_576_900, 38_650),
        (30_756_000, 30_612_730, 42_200, 30_823_900, 42_200),
        (30_799_000, 30_818_930, 41_700, 31_027_600, 41_700),
        (31_018_000, 31_025_700, 41_550, 31_233_400, 41_550),
        (31_278_000, 31_242_300, 42_440, 31_454_500, 42_440),
        (31_276_000, 31_418_800, 38_900, 31_613_150, 38_900),
        (31_379_000, 31_566_300, 34_200, 31_737_240, 34_200),
        (31_748_000, 31_739_400, 34_400, 31_911_400, 34_400),
    ];
    for (
        measurement,
        expected_estimated_position,
        expected_estimated_velocity,
        expected_predicted_position,
        expected_predicted_velocity,
    ) in values
    {
        aircraft.update(measurement);
        let (actual_estimated_position, actual_estimated_velocity) = aircraft.estimate();
        assert_eq!(
            round0(actual_estimated_position),
            round0(expected_estimated_position)
        );
        assert_eq!(
            round0(actual_estimated_velocity),
            round0(expected_estimated_velocity)
        );
        let (actual_predicted_position, actual_predicted_velocity) = aircraft.predict();
        assert_eq!(
            round0(actual_predicted_position),
            round0(expected_predicted_position)
        );
        assert_eq!(
            round0(actual_predicted_velocity),
            round0(expected_predicted_velocity)
        );
    }
}

#[test]
fn static_estimate_is_exact_mean() {
    // the mean of 10 and 20 thousandths lands exactly between them
    let mut k = Kalman::new(0);
    k.update(10_000);
    let e = k.update(20_000);
    assert_eq!(e, 15_000);
    assert_eq!(k.estimate(), 15_000);
    assert_eq!(k.predict(), 15_000);
}

#[test]
fn static_gain_shrinks() {
    let mut k = Kalman::new(0);
    k.update(5_000);
    assert_eq!(k.gain(), 1_000);
    k.update(5_000);
    assert_eq!(k.gain(), 500);
    k.update(5_000);
    assert_eq!(k.gain(), 333);
    assert_eq!(k.estimate(), 5_000);
}

#[test]
fn dynamic_predict_does_not_mutate() {
    let d = DynKalman::new(1_000_000, 2_000, 1_000);
    let (p1, r1) = d.predict();
    let (p2, r2) = d.predict();
    assert_eq!((p1, r1), (p2, r2));
    assert_eq!(p1, 1_002_000);
    assert_eq!(r1, 2_000);
    let (e, r) = d.estimate();
    assert_eq!(e, 1_000_000);
    assert_eq!(r, 2_000);
}
