//! Clock-feedback integrator: a smoothed estimate of the source-clock rate
//! relative to the device clock.
//!
//! Each feedback pair of timestamps yields a raw rate ratio in Q32, clamped
//! to a narrow drift-correction band; a first-order IIR smoother with
//! coefficient `1 / SMOOTHING_DIV` moves the published ratio toward it.

use vstd::prelude::*;

use crate::sample::RATIO_ONE;

verus! {

/// Lower clamp of the raw feedback ratio (about 0.98 in Q32).
pub const CLOCK_RATIO_MIN: u64 = 4209067950;

/// Upper clamp of the raw feedback ratio (about 1.02 in Q32).
pub const CLOCK_RATIO_MAX: u64 = 4380866642;

/// Reciprocal of the IIR smoothing coefficient: each step closes one
/// twentieth of the remaining gap.
pub const SMOOTHING_DIV: u64 = 20;

/// Integrator state: the previous timestamp pair and the smoothed ratio.
pub struct ClockState {
    /// Device-clock timestamp of the previous feedback, if any.
    pub last_device_ts: Option<u64>,
    /// Source-clock timestamp of the previous feedback, if any.
    pub last_source_ts: Option<u64>,
    /// Smoothed rate ratio in Q32, kept inside the clamp band.
    pub smoothed_ratio: u64,
}

/// The raw Q32 ratio of two positive timestamp deltas, clamped to the
/// drift-correction band.
pub open spec fn spec_raw_ratio(source_delta: int, device_delta: int) -> int
    recommends
        device_delta > 0,
{
    let q = (source_delta * RATIO_ONE as int) / device_delta;
    if q < CLOCK_RATIO_MIN as int {
        CLOCK_RATIO_MIN as int
    } else if q > CLOCK_RATIO_MAX as int {
        CLOCK_RATIO_MAX as int
    } else {
        q
    }
}

/// One IIR smoothing step: move one `SMOOTHING_DIV`-th of the gap toward the
/// target, truncating the step toward zero.
pub open spec fn spec_smooth_step(s: int, t: int) -> int {
    if t >= s {
        s + (t - s) / (SMOOTHING_DIV as int)
    } else {
        s - (s - t) / (SMOOTHING_DIV as int)
    }
}

/// The distance between the smoothed ratio and its target.
pub open spec fn spec_ratio_gap(s: int, t: int) -> int {
    if t >= s {
        t - s
    } else {
        s - t
    }
}

/// Drift convergence: every smoothing step stays between the old value and
/// the target, shrinks the gap by exactly its truncated twentieth, and hence
/// strictly approaches any target at least `SMOOTHING_DIV` away.
pub proof fn lemma_smooth_step_converges(s: int, t: int)
    ensures
        spec_ratio_gap(spec_smooth_step(s, t), t) == spec_ratio_gap(s, t) - spec_ratio_gap(s, t)
            / (SMOOTHING_DIV as int),
        spec_ratio_gap(spec_smooth_step(s, t), t) <= spec_ratio_gap(s, t),
        spec_ratio_gap(s, t) >= SMOOTHING_DIV as int ==> spec_ratio_gap(spec_smooth_step(s, t), t)
            < spec_ratio_gap(s, t),
        s <= t ==> s <= spec_smooth_step(s, t) <= t,
        t <= s ==> t <= spec_smooth_step(s, t) <= s,
{
    let g = spec_ratio_gap(s, t);
    assert(0 <= g / (SMOOTHING_DIV as int) <= g);
    if g >= SMOOTHING_DIV as int {
        assert(g / (SMOOTHING_DIV as int) >= 1);
    }
}

/// The smoothed ratio after a run of feedback steps toward a fixed target.
pub open spec fn spec_smooth_run(s: int, t: int, n: int) -> int
    decreases n,
{
    if n <= 0 {
        s
    } else {
        spec_smooth_step(spec_smooth_run(s, t, n - 1), t)
    }
}

/// Steady-state convergence: feeding the integrator a fixed clamped target
/// never widens the gap, keeps the estimate between its start and the
/// target, and narrows any gap of at least `SMOOTHING_DIV` strictly.
pub proof fn lemma_smooth_run_converges(s: int, t: int, n: int)
    requires
        n >= 0,
    ensures
        spec_ratio_gap(spec_smooth_run(s, t, n), t) <= spec_ratio_gap(s, t),
        s <= t ==> s <= spec_smooth_run(s, t, n) <= t,
        t <= s ==> t <= spec_smooth_run(s, t, n) <= s,
        n >= 1 && spec_ratio_gap(s, t) >= SMOOTHING_DIV as int ==> spec_ratio_gap(
            spec_smooth_run(s, t, n),
            t,
        ) < spec_ratio_gap(s, t),
    decreases n,
{
    if n > 0 {
        lemma_smooth_run_converges(s, t, n - 1);
        lemma_smooth_step_converges(spec_smooth_run(s, t, n - 1), t);
        if spec_ratio_gap(s, t) >= SMOOTHING_DIV as int && n >= 2 {
            if spec_ratio_gap(spec_smooth_run(s, t, n - 1), t) < spec_ratio_gap(s, t) {
            } else {
                assert(spec_ratio_gap(spec_smooth_run(s, t, n - 1), t) == spec_ratio_gap(s, t));
            }
        }
    }
}

/// Drift in parts per million encoded by a Q32 ratio, truncated toward zero.
pub open spec fn spec_drift_ppm(s: int) -> int {
    if s >= RATIO_ONE as int {
        ((s - RATIO_ONE as int) * 1000000) / (RATIO_ONE as int)
    } else {
        -(((RATIO_ONE as int - s) * 1000000) / (RATIO_ONE as int))
    }
}

impl ClockState {
    /// The smoothed ratio stays inside the clamp band.
    pub open spec fn wf(&self) -> bool {
        CLOCK_RATIO_MIN <= self.smoothed_ratio <= CLOCK_RATIO_MAX
    }

    /// A fresh integrator with no history and a ratio of exactly 1.
    pub fn new() -> (c: ClockState)
        ensures
            c.wf(),
            c.last_device_ts.is_none(),
            c.last_source_ts.is_none(),
            c.smoothed_ratio == RATIO_ONE,
    {
        ClockState { last_device_ts: None, last_source_ts: None, smoothed_ratio: RATIO_ONE }
    }

    /// Consume one feedback pair.
    ///
    /// With a prior pair and strictly advancing timestamps on both clocks,
    /// the clamped delta ratio is folded into the smoothed ratio, which is
    /// returned; otherwise the pair is only recorded. The incoming pair
    /// always becomes the stored pair.
    pub fn submit_feedback(&mut self, device_ts: u64, source_ts: u64) -> (r: Option<u64>)
        requires
            old(self).wf(),
        ensures
            final(self).wf(),
            final(self).last_device_ts == Some(device_ts),
            final(self).last_source_ts == Some(source_ts),
            ({
                let accepted = old(self).last_device_ts.is_some()
                    && old(self).last_source_ts.is_some() && device_ts
                    > old(self).last_device_ts.unwrap() && source_ts
                    > old(self).last_source_ts.unwrap();
                if accepted {
                    let target = spec_raw_ratio(
                        source_ts - old(self).last_source_ts.unwrap(),
                        device_ts - old(self).last_device_ts.unwrap(),
                    );
                    final(self).smoothed_ratio == spec_smooth_step(
                        old(self).smoothed_ratio as int,
                        target,
                    ) && r == Some(final(self).smoothed_ratio)
                } else {
                    final(self).smoothed_ratio == old(self).smoothed_ratio && r
                        == Option::<u64>::None
                }
            }),
    {
        let prev_device = self.last_device_ts;
        let prev_source = self.last_source_ts;
        self.last_device_ts = Some(device_ts);
        self.last_source_ts = Some(source_ts);
        match (prev_device, prev_source) {
            (Some(pd), Some(ps)) => {
                if device_ts > pd && source_ts > ps {
                    let device_delta: u64 = device_ts - pd;
                    let source_delta: u64 = source_ts - ps;
                    proof {
                        assert((source_delta as int) * (RATIO_ONE as int) < 0x10000000000000000
                            * 0x100000000) by (nonlinear_arith)
                            requires
                                0 <= (source_delta as int) < 0x10000000000000000,
                        ;
                    }
                    let wide: u128 = (source_delta as u128) * (RATIO_ONE as u128);
                    let q: u128 = wide / (device_delta as u128);
                    let clamped: u64 = if q < CLOCK_RATIO_MIN as u128 {
                        CLOCK_RATIO_MIN
                    } else if q > CLOCK_RATIO_MAX as u128 {
                        CLOCK_RATIO_MAX
                    } else {
                        q as u64
                    };
                    let s: u64 = self.smoothed_ratio;
                    let s2: u64 = if clamped >= s {
                        let step = (clamped - s) / SMOOTHING_DIV;
                        proof {
                            assert(step <= clamped - s);
                        }
                        s + step
                    } else {
                        let step = (s - clamped) / SMOOTHING_DIV;
                        proof {
                            assert(step <= s - clamped);
                        }
                        s - step
                    };
                    self.smoothed_ratio = s2;
                    Some(s2)
                } else {
                    None
                }
            },
            _ => None,
        }
    }

    /// The drift encoded by the smoothed ratio, in parts per million.
    pub fn drift_ppm(&self) -> (r: i64)
        requires
            self.wf(),
        ensures
            r as int == spec_drift_ppm(self.smoothed_ratio as int),
    {
        let s: u64 = self.smoothed_ratio;
        let one: u64 = RATIO_ONE;
        if s >= one {
            let d: u64 = s - one;
            proof {
                assert((d as int) * 1000000 <= 85899346 * 1000000) by (nonlinear_arith)
                    requires
                        0 <= d as int <= 85899346,
                ;
            }
            ((d * 1000000) / one) as i64
        } else {
            let d: u64 = one - s;
            proof {
                assert((d as int) * 1000000 <= 85899346 * 1000000) by (nonlinear_arith)
                    requires
                        0 <= d as int <= 85899346,
                ;
            }
            -(((d * 1000000) / one) as i64)
        }
    }
}

} // verus!
