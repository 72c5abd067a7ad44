//! Recursive state estimators for noisy scalar measurements: a
//! converging-gain static filter whose estimate is the exact running mean of
//! its measurements, and a fixed-gain value/rate filter that predicts
//! forward by a fixed sample interval and corrects both value and rate from
//! the residual.

use vstd::prelude::*;
use crate::fixed::{
    mag, div_round, lemma_div_round_le, lemma_mul_bound, mul_div_round, div_round_i64,
    div_round_i128, SCALE,
};

verus! {

/// Magnitude cap on the measurements the estimators accept, in thousandths.
pub const MEAS_LIMIT: i64 = 1_000_000_000_000_000;

/// Magnitude cap on the rate a dynamic estimator tracks, in thousandths per
/// second.
pub const RATE_LIMIT: i64 = 1_000_000_000;

/// Longest sample interval of a dynamic estimator, in thousandths of a
/// second.
pub const INTERVAL_LIMIT: i64 = 10_000_000;

/// The sum of a sequence of integers.
pub open spec fn sum_seq(s: Seq<int>) -> int
    decreases s.len(),
{
    if s.len() == 0 {
        0
    } else {
        sum_seq(s.drop_last()) + s.last()
    }
}

/// A sequence of bounded entries has a proportionally bounded sum.
pub proof fn lemma_sum_seq_bound(s: Seq<int>, k: int)
    requires
        0 <= k,
        forall|i: int| 0 <= i < s.len() ==> mag(#[trigger] s[i]) <= k,
    ensures
        mag(sum_seq(s)) <= s.len() * k,
    decreases s.len(),
{
    let n = s.len() as int;
    if s.len() == 0 {
        assert(n * k == 0) by (nonlinear_arith)
            requires
                n == 0,
        ;
    } else {
        assert(forall|i: int| 0 <= i < s.drop_last().len() ==> mag(#[trigger] s.drop_last()[i]) <= k);
        lemma_sum_seq_bound(s.drop_last(), k);
        assert(mag(s[n - 1]) <= k);
        assert((n - 1) * k + k == n * k) by (nonlinear_arith);
    }
}

/// Converging-gain estimator of a constant quantity: after `n` measurements
/// its estimate is the exact arithmetic mean of all `n` of them (rounded
/// once to the fixed-point grid), so its gain shrinks as `1 / n` and late
/// disturbances matter ever less. Before any measurement it reports its
/// seed.
pub struct Kalman {
    /// How many measurements have arrived.
    pub count: u32,
    /// The value reported before the first measurement; it carries no weight
    /// afterwards.
    pub seed: i64,
    /// The exact sum of all measurements so far.
    pub total: i128,
    /// The measurements themselves, kept as the mathematical model that the
    /// estimate is specified against.
    pub history: Ghost<Seq<int>>,
}

impl Kalman {
    /// The count and total agree with the measurement history, and every
    /// measurement was within the cap.
    pub open spec fn wf(self) -> bool {
        &&& self.count as int == self.history@.len()
        &&& self.total as int == sum_seq(self.history@)
        &&& forall|i: int| 0 <= i < self.history@.len() ==> mag(#[trigger] self.history@[i]) <= MEAS_LIMIT
        &&& mag(self.seed as int) <= MEAS_LIMIT
    }

    /// What the estimator reports: the seed before any measurement, the
    /// rounded exact mean of all measurements afterwards.
    pub open spec fn estimate_spec(self) -> int {
        if self.history@.len() == 0 {
            self.seed as int
        } else {
            div_round(sum_seq(self.history@), self.history@.len() as int)
        }
    }

    /// A fresh estimator seeded at `value`, with no measurements yet.
    pub fn new(value: i64) -> (r: Kalman)
        requires
            mag(value as int) <= MEAS_LIMIT,
        ensures
            r.wf(),
            r.history@ == Seq::<int>::empty(),
            r.seed == value,
            r.estimate_spec() == value as int,
    {
        Kalman { count: 0, seed: value, total: 0, history: Ghost(Seq::empty()) }
    }

    /// The current estimate: the rounded exact mean of the measurements, or
    /// the seed when none have arrived.
    pub fn estimate(&self) -> (r: i64)
        requires
            self.wf(),
        ensures
            r as int == self.estimate_spec(),
            mag(r as int) <= MEAS_LIMIT,
    {
        if self.count == 0 {
            self.seed
        } else {
            proof {
                lemma_sum_seq_bound(self.history@, MEAS_LIMIT as int);
                assert(mag(self.total as int) <= self.count as int * MEAS_LIMIT as int)
                    by (nonlinear_arith)
                    requires
                        mag(self.total as int) <= self.history@.len() * MEAS_LIMIT as int,
                        self.count as int == self.history@.len(),
                ;
                lemma_div_round_le(self.total as int, self.count as int, MEAS_LIMIT as int);
            }
            let q = div_round_i128(self.total, self.count as i128);
            q as i64
        }
    }

    /// The one-step forecast of a constant quantity is the estimate itself.
    pub fn predict(&self) -> (r: i64)
        requires
            self.wf(),
        ensures
            r as int == self.estimate_spec(),
    {
        self.estimate()
    }

    /// Absorb one measurement and report the new estimate: with the count
    /// incremented, the estimate moves by `gain * (value - estimate)`, which
    /// keeps it exactly at the running mean.
    pub fn update(&mut self, value: i64) -> (r: i64)
        requires
            old(self).wf(),
            mag(value as int) <= MEAS_LIMIT,
            old(self).count < u32::MAX,
        ensures
            final(self).wf(),
            final(self).history@ == old(self).history@.push(value as int),
            final(self).count == old(self).count + 1,
            final(self).seed == old(self).seed,
            r as int == final(self).estimate_spec(),
    {
        proof {
            let hlen = self.history@.len() as int;
            let tot = self.total as int;
            let cnt = self.count as int;
            lemma_sum_seq_bound(self.history@, MEAS_LIMIT as int);
            assert(mag(tot) <= (4_294_967_295int) * MEAS_LIMIT as int) by (nonlinear_arith)
                requires
                    mag(tot) <= hlen * MEAS_LIMIT as int,
                    cnt == hlen,
                    0 <= cnt <= 4_294_967_295int,
            ;
        }
        self.count = self.count + 1;
        self.total = self.total + (value as i128);
        proof {
            let h2 = old(self).history@.push(value as int);
            assert(h2.drop_last() =~= old(self).history@);
            self.history@ = h2;
        }
        self.estimate()
    }

    /// The shrinking correction gain `1 / count`, in thousandths.
    pub fn gain(&self) -> (r: i64)
        requires
            self.count >= 1,
        ensures
            r as int == div_round(SCALE as int, self.count as int),
    {
        div_round_i64(SCALE, self.count as i64)
    }
}

/// Fixed-gain value/rate estimator of a changing quantity: each update first
/// predicts the value forward by the fixed sample interval at the estimated
/// rate, then corrects value and rate from the residual with the fixed blend
/// weights.
pub struct DynKalman {
    /// Blend weight of the residual into the value, in thousandths.
    pub alpha: i64,
    /// Blend weight of the residual into the rate, in thousandths.
    pub beta: i64,
    /// The fixed time between measurements, in thousandths of a second.
    pub interval: i64,
    /// The current value estimate, in thousandths.
    pub est_value: i64,
    /// The current rate estimate, in thousandths per second.
    pub est_change: i64,
}

impl DynKalman {
    /// The blend weights are proper fractions and the interval is a positive
    /// capped duration.
    pub open spec fn wf(self) -> bool {
        &&& 0 < self.alpha < SCALE
        &&& 0 < self.beta < SCALE
        &&& 1 <= self.interval <= INTERVAL_LIMIT
    }

    /// The tracked state within the estimator's magnitude caps.
    pub open spec fn bounds_ok(self) -> bool {
        &&& mag(self.est_value as int) <= MEAS_LIMIT
        &&& mag(self.est_change as int) <= RATE_LIMIT
    }

    /// The one-step-ahead value forecast: value plus rate times the sample
    /// interval.
    pub open spec fn predicted_value(self) -> int {
        self.est_value + div_round(self.est_change * self.interval, SCALE as int)
    }

    /// The value after absorbing a measurement: the forecast corrected by
    /// `alpha` times the residual.
    pub open spec fn updated_value(self, m: int) -> int {
        self.predicted_value() + div_round(self.alpha * (m - self.predicted_value()), SCALE as int)
    }

    /// The rate after absorbing a measurement: the previous rate corrected
    /// by `beta` times the residual per second of interval.
    pub open spec fn updated_change(self, m: int) -> int {
        self.est_change + div_round(self.beta * (m - self.predicted_value()), self.interval as int)
    }

    /// A fresh estimator at the given value and rate, correcting a fifth of
    /// the residual into the value and a tenth into the rate.
    pub fn new(estimate: i64, delta: i64, interval: i64) -> (r: DynKalman)
        requires
            mag(estimate as int) <= MEAS_LIMIT,
            mag(delta as int) <= RATE_LIMIT,
            1 <= interval <= INTERVAL_LIMIT,
        ensures
            r.wf(),
            r.bounds_ok(),
            r.alpha == SCALE / 5 && r.beta == SCALE / 10,
            r.interval == interval,
            r.est_value == estimate,
            r.est_change == delta,
    {
        DynKalman {
            alpha: SCALE / 5,
            beta: SCALE / 10,
            interval,
            est_value: estimate,
            est_change: delta,
        }
    }

    /// The current value and rate estimates.
    pub fn estimate(&self) -> (r: (i64, i64))
        ensures
            r.0 == self.est_value,
            r.1 == self.est_change,
    {
        (self.est_value, self.est_change)
    }

    /// The one-step forecast (value extrapolated over one interval, rate
    /// unchanged), without mutating the state.
    pub fn predict(&self) -> (r: (i64, i64))
        requires
            self.wf(),
            self.bounds_ok(),
        ensures
            r.0 as int == self.predicted_value(),
            r.1 == self.est_change,
            mag(r.0 as int) <= MEAS_LIMIT + 10_000_000_000_000,
    {
        proof {
            self.lemma_predicted_value_bounds();
        }
        let shift = mul_div_round(self.est_change, self.interval, SCALE);
        (self.est_value + shift, self.est_change)
    }

    /// Absorb one measurement: predict forward by the interval, then correct
    /// value and rate from the residual.
    pub fn update(&mut self, measurement: i64)
        requires
            old(self).wf(),
            old(self).bounds_ok(),
            mag(measurement as int) <= MEAS_LIMIT,
        ensures
            final(self).wf(),
            final(self).alpha == old(self).alpha,
            final(self).beta == old(self).beta,
            final(self).interval == old(self).interval,
            final(self).est_value as int == old(self).updated_value(measurement as int),
            final(self).est_change as int == old(self).updated_change(measurement as int),
    {
        proof {
            self.lemma_predicted_value_bounds();
        }
        let (pred_value, pred_change) = self.predict();
        let residual = measurement - pred_value;
        proof {
            lemma_mul_bound(self.alpha as int, residual as int, SCALE as int, 2_100_000_000_000_000);
            lemma_div_round_le(
                self.alpha as int * residual as int,
                SCALE as int,
                2_100_000_000_000_000,
            );
            lemma_mul_bound(self.beta as int, residual as int, SCALE as int, 2_100_000_000_000_000);
            assert(mag(self.beta as int * residual as int) <= self.interval as int * (
            2_100_000_000_000_000_000int) && self.interval as int * (2_100_000_000_000_000_000int)
                <= self.interval as int * i64::MAX as int) by (nonlinear_arith)
                requires
                    mag(self.beta as int * residual as int) <= SCALE as int * 2_100_000_000_000_000,
                    self.interval >= 1,
                    SCALE == 1000i64,
            ;
            lemma_div_round_le(
                self.beta as int * residual as int,
                self.interval as int,
                2_100_000_000_000_000_000,
            );
        }
        self.est_value = pred_value + mul_div_round(self.alpha, residual, SCALE);
        self.est_change = pred_change + mul_div_round(self.beta, residual, self.interval);
    }

    /// The forecast stays within a widened cap.
    proof fn lemma_predicted_value_bounds(self)
        requires
            self.wf(),
            self.bounds_ok(),
        ensures
            mag(self.est_change * self.interval) <= SCALE as int * (10_000_000_000_000int),
            mag(div_round(self.est_change * self.interval, SCALE as int)) <= 10_000_000_000_000,
            mag(self.predicted_value()) <= MEAS_LIMIT + 10_000_000_000_000,
    {
        lemma_mul_bound(
            self.est_change as int,
            self.interval as int,
            RATE_LIMIT as int,
            INTERVAL_LIMIT as int,
        );
        lemma_div_round_le(self.est_change * self.interval, SCALE as int, 10_000_000_000_000);
    }
}

} // verus!
