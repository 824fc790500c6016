//! Latency probe: a deterministic reference tone and a cross-correlation
//! latency estimator.
//!
//! The probe renders a polynomial approximation of a sine wave at half
//! amplitude, and measures latency as the frame offset at which a recording
//! correlates best with the stored reference window.

use vstd::arithmetic::div_mod::lemma_fundamental_div_mod;
use vstd::prelude::*;

use crate::sample::{Frame, RATIO_ONE};
use crate::time::monotonic_timestamp_ns;

verus! {

/// Largest accepted reference window, in frames.
pub const MAX_WINDOW_FRAMES: usize = 0x4000000;

/// Latency measurement report capturing the best-fit offset.
#[derive(Clone, Copy, Debug, PartialEq, Eq, Structural)]
pub struct LatencyReport {
    /// Estimated offset in frames between reference and recorded data.
    pub offset_frames: usize,
    /// Offset converted to microseconds.
    pub offset_micros: u64,
    /// Normalized cross-correlation score in Q20; non-negative.
    pub correlation: i64,
    /// Timestamp captured when the report was generated.
    pub measured_at_ns: u64,
}

/// Deterministic tone generator and latency estimator.
pub struct LatencyProbe {
    /// Sample rate the probe renders at, in Hertz.
    pub sample_rate: u32,
    /// Frequency used when a caller asks for none, in Hertz.
    pub default_frequency: u32,
    /// The stored reference window.
    pub reference: Vec<Frame>,
}

/// Half-cycle of the tone: a rational approximation of `sin(pi * t / 2^31)`
/// at half amplitude in Q20, for `t` in `[0, 2^31)`.
pub open spec fn spec_sine_half(t: int) -> int {
    let a = t * (0x80000000 - t);
    (a * 0x800000) / (5 * 0x4000000000000000 - 4 * a)
}

/// One tone sample at a Q32 cycle phase: the half-cycle value, negated over
/// the second half of the cycle.
pub open spec fn spec_sine_q(phase: int) -> int {
    if phase < 0x80000000 {
        spec_sine_half(phase)
    } else {
        -spec_sine_half(phase - 0x80000000)
    }
}

/// The half-cycle value stays within half of full scale.
pub proof fn lemma_sine_half_bounds(t: int)
    requires
        0 <= t < 0x80000000,
    ensures
        0 <= spec_sine_half(t) <= 0x80000,
{
    let a = t * (0x80000000 - t);
    assert(0 <= a <= 0x1000000000000000) by (nonlinear_arith)
        requires
            0 <= t < 0x80000000,
            a == t * (0x80000000 - t),
    ;
    let den = 5 * 0x4000000000000000 - 4 * a;
    assert(den >= 0x10000000000000000);
    let num = a * 0x800000;
    assert(0 <= num <= 0x1000000000000000 * 0x800000) by (nonlinear_arith)
        requires
            0 <= a <= 0x1000000000000000,
            num == a * 0x800000,
    ;
    assert(num / den <= 0x80000) by (nonlinear_arith)
        requires
            den >= 0x10000000000000000,
            0 <= num,
            num <= 0x1000000000000000 * 0x800000,
    ;
    assert(num / den >= 0);
}

/// Evaluate one tone sample at a Q32 cycle phase.
pub fn sine_sample(phase: u64) -> (r: i32)
    requires
        phase < RATIO_ONE,
    ensures
        r as int == spec_sine_q(phase as int),
        -0x80000 <= r <= 0x80000,
{
    let (t, negate): (u64, bool) = if phase < 0x80000000 {
        (phase, false)
    } else {
        (phase - 0x80000000, true)
    };
    proof {
        lemma_sine_half_bounds(t as int);
        assert(0 <= (t as int) * (0x80000000 - t as int) <= 0x1000000000000000)
            by (nonlinear_arith)
            requires
                0 <= (t as int) < 0x80000000,
        ;
    }
    let a: u64 = t * (0x80000000 - t);
    let num: u128 = (a as u128) * 0x800000;
    let den: u128 = 5 * 0x4000000000000000 - 4 * (a as u128);
    let v: u64 = (num / den) as u64;
    if negate {
        -(v as i32)
    } else {
        v as i32
    }
}

/// The tone frame at index `i` of a run with the given Q32 phase step.
pub open spec fn spec_sine_frame(step: int, i: int) -> Frame {
    let phase = (i * step) % (RATIO_ONE as int);
    Frame { left: spec_sine_q(phase) as i32, right: spec_sine_q(phase) as i32 }
}

/// The Q32 phase step of a tone at the given frequency and sample rate.
pub open spec fn spec_sine_step(frequency: int, sample_rate: int) -> int
    recommends
        sample_rate >= 1,
{
    ((frequency * RATIO_ONE as int) / sample_rate) % (RATIO_ONE as int)
}

/// Render the tone over the whole buffer: frame `i` becomes the tone frame at
/// index `i`.
pub fn write_sine(frequency: u32, sample_rate: u32, out: &mut Vec<Frame>)
    requires
        sample_rate >= 1,
    ensures
        final(out)@.len() == old(out)@.len(),
        forall|i: int|
            0 <= i < old(out)@.len() ==> final(out)@[i] == spec_sine_frame(
                spec_sine_step(frequency as int, sample_rate as int),
                i,
            ),
{
    proof {
        assert((frequency as int) * (RATIO_ONE as int) <= 0x100000000 * 0x100000000)
            by (nonlinear_arith)
            requires
                0 <= (frequency as int) < 0x100000000,
        ;
    }
    let wide: u128 = ((frequency as u128) * (RATIO_ONE as u128)) / (sample_rate as u128);
    let step: u64 = (wide % (RATIO_ONE as u128)) as u64;
    let len: usize = out.len();
    let mut phase: u64 = 0;
    let mut i: usize = 0;
    while i < len
        invariant
            0 <= i <= len,
            out@.len() == len,
            step < RATIO_ONE,
            step as int == spec_sine_step(frequency as int, sample_rate as int),
            phase < RATIO_ONE,
            phase as int == ((i as int) * (step as int)) % (RATIO_ONE as int),
            forall|j: int|
                0 <= j < i as int ==> out@[j] == spec_sine_frame(step as int, j),
        decreases len - i,
    {
        let v: i32 = sine_sample(phase);
        out.set(i, Frame { left: v, right: v });
        proof {
            let m = RATIO_ONE as int;
            let x = (i as int) * (step as int);
            lemma_fundamental_div_mod(x, m);
            let k = x / m;
            assert(x + step as int == m * k + (phase as int + step as int));
            vstd::arithmetic::div_mod::lemma_mod_multiples_vanish(
                k,
                phase as int + step as int,
                m,
            );
            assert((i as int + 1) * (step as int) == x + step as int) by (nonlinear_arith)
                requires
                    x == (i as int) * (step as int),
            ;
        }
        phase = (phase + step) % RATIO_ONE;
        i = i + 1;
    }
}

/// Sum over the first `n` frame pairs of the products of matching samples.
pub open spec fn spec_dot_prefix(a: Seq<Frame>, b: Seq<Frame>, n: int) -> int
    decreases n,
{
    if n <= 0 {
        0
    } else {
        spec_dot_prefix(a, b, n - 1) + (a[n - 1].left as int) * (b[n - 1].left as int) + (a[n
            - 1].right as int) * (b[n - 1].right as int)
    }
}

/// The truncated non-negative square root.
pub open spec fn spec_isqrt(x: int) -> int
    decreases x,
{
    if x <= 0 {
        0
    } else {
        let r = spec_isqrt(x - 1);
        if (r + 1) * (r + 1) <= x {
            r + 1
        } else {
            r
        }
    }
}

/// The truncated square root is sandwiched by the consecutive squares.
pub proof fn lemma_isqrt_correct(x: int)
    requires
        x >= 0,
    ensures
        spec_isqrt(x) >= 0,
        spec_isqrt(x) * spec_isqrt(x) <= x,
        (spec_isqrt(x) + 1) * (spec_isqrt(x) + 1) > x,
    decreases x,
{
    if x > 0 {
        lemma_isqrt_correct(x - 1);
        let r = spec_isqrt(x - 1);
        if (r + 1) * (r + 1) <= x {
            assert((r + 2) * (r + 2) > x) by (nonlinear_arith)
                requires
                    r >= 0,
                    (r + 1) * (r + 1) > x - 1,
            ;
        }
    }
}

/// Any value sandwiched by consecutive squares is the truncated square root.
pub proof fn lemma_isqrt_unique(x: int, r: int)
    requires
        x >= 0,
        r >= 0,
        r * r <= x,
        (r + 1) * (r + 1) > x,
    ensures
        r == spec_isqrt(x),
{
    lemma_isqrt_correct(x);
    let s = spec_isqrt(x);
    if r < s {
        assert((r + 1) * (r + 1) <= s * s) by (nonlinear_arith)
            requires
                0 <= r + 1 <= s,
        ;
    }
    if s < r {
        assert((s + 1) * (s + 1) <= r * r) by (nonlinear_arith)
            requires
                0 <= s + 1 <= r,
        ;
    }
}

/// Truncated square root of a bounded 128-bit value.
pub fn isqrt_u128(x: u128) -> (r: u64)
    requires
        x < 0x10000000000000000000000000000,
    ensures
        r as int == spec_isqrt(x as int),
        (r as int) * (r as int) <= x as int,
{
    let mut lo: u64 = 0;
    let mut hi: u64 = 0x400000000000000;
    proof {
        assert((hi as int) * (hi as int) > x as int) by (nonlinear_arith)
            requires
                hi == 0x400000000000000u64,
                x < 0x10000000000000000000000000000,
        ;
    }
    while lo + 1 < hi
        invariant
            lo < hi,
            hi <= 0x400000000000000,
            (lo as int) * (lo as int) <= x as int,
            (hi as int) * (hi as int) > x as int,
        decreases hi - lo,
    {
        let mid: u64 = lo + (hi - lo) / 2;
        proof {
            assert((mid as int) * (mid as int) < 0x100000000000000000000000000000000)
                by (nonlinear_arith)
                requires
                    mid <= 0x400000000000000u64,
            ;
        }
        if (mid as u128) * (mid as u128) <= x {
            lo = mid;
        } else {
            hi = mid;
        }
    }
    proof {
        lemma_isqrt_unique(x as int, lo as int);
    }
    lo
}

/// Saturating narrowing of a mathematical value to `i64`.
pub open spec fn spec_saturate_i64(v: int) -> int {
    if v > i64::MAX as int {
        i64::MAX as int
    } else if v < i64::MIN as int {
        i64::MIN as int
    } else {
        v
    }
}


/// A dot product of a sequence with itself is non-negative.
pub proof fn lemma_dot_self_nonneg(a: Seq<Frame>, n: int)
    ensures
        spec_dot_prefix(a, a, n) >= 0,
    decreases n,
{
    if n > 0 {
        lemma_dot_self_nonneg(a, n - 1);
        assert((a[n - 1].left as int) * (a[n - 1].left as int) >= 0) by (nonlinear_arith);
        assert((a[n - 1].right as int) * (a[n - 1].right as int) >= 0) by (nonlinear_arith);
    }
}

/// Dot product of two frame ranges over a window of the given length.
fn dot_frames(a: &Vec<Frame>, a_off: usize, b: &Vec<Frame>, b_off: usize, len: usize) -> (d: i128)
    requires
        a_off + len <= a@.len(),
        b_off + len <= b@.len(),
        len <= MAX_WINDOW_FRAMES,
    ensures
        d as int == spec_dot_prefix(a@.skip(a_off as int), b@.skip(b_off as int), len as int),
        -(len as int) * 0x10000000000000000 <= d as int <= (len as int) * 0x10000000000000000,
{
    let ghost askip: Seq<Frame> = a@.skip(a_off as int);
    let ghost bskip: Seq<Frame> = b@.skip(b_off as int);
    let a_len: usize = a.len();
    let b_len: usize = b.len();
    let mut acc: i128 = 0;
    let mut k: usize = 0;
    while k < len
        invariant
            0 <= k <= len,
            len <= MAX_WINDOW_FRAMES,
            a_len == a@.len(),
            b_len == b@.len(),
            a_off + len <= a_len,
            b_off + len <= b_len,
            askip == a@.skip(a_off as int),
            bskip == b@.skip(b_off as int),
            acc as int == spec_dot_prefix(askip, bskip, k as int),
            -(k as int) * 0x10000000000000000 <= acc as int <= (k as int) * 0x10000000000000000,
        decreases len - k,
    {
        let fa = a[a_off + k];
        let fb = b[b_off + k];
        proof {
            assert(-0x4000000000000000 <= (fa.left as int) * (fb.left as int)
                <= 0x4000000000000000) by (nonlinear_arith)
                requires
                    -0x80000000 <= (fa.left as int) <= 0x7fffffff,
                    -0x80000000 <= (fb.left as int) <= 0x7fffffff,
            ;
            assert(-0x4000000000000000 <= (fa.right as int) * (fb.right as int)
                <= 0x4000000000000000) by (nonlinear_arith)
                requires
                    -0x80000000 <= (fa.right as int) <= 0x7fffffff,
                    -0x80000000 <= (fb.right as int) <= 0x7fffffff,
            ;
            assert(askip[k as int] == fa);
            assert(bskip[k as int] == fb);
        }
        let term: i128 = (fa.left as i128) * (fb.left as i128) + (fa.right as i128) * (fb.right
            as i128);
        acc = acc + term;
        k = k + 1;
    }
    acc
}

/// Saturating narrowing of a wide value to `i64`.
fn saturate_i64(v: i128) -> (r: i64)
    ensures
        r as int == spec_saturate_i64(v as int),
{
    if v > i64::MAX as i128 {
        i64::MAX
    } else if v < i64::MIN as i128 {
        i64::MIN
    } else {
        v as i64
    }
}

/// The reported correlation of the whole recording against the reference
/// when the recording is no longer than the reference window. The report
/// carries a score in `[0, 1]`, so an anti-correlated recording scores zero.
pub open spec fn spec_corr_single(refr: Seq<Frame>, rec: Seq<Frame>) -> int {
    let n = if refr.len() <= rec.len() {
        refr.len() as int
    } else {
        rec.len() as int
    };
    let d = spec_dot_prefix(refr, rec, n);
    let na = spec_isqrt(spec_dot_prefix(refr, refr, refr.len() as int));
    let nb = spec_isqrt(spec_dot_prefix(rec, rec, rec.len() as int));
    if na == 0 || nb == 0 || d < 0 {
        0
    } else {
        spec_corr_quotient(d, na * nb)
    }
}

/// A Q20 correlation quotient, truncated toward zero and saturated to `i64`.
pub open spec fn spec_corr_quotient(d: int, norms: int) -> int
    recommends
        norms >= 1,
{
    if d >= 0 {
        spec_saturate_i64((d * 0x100000) / norms)
    } else {
        spec_saturate_i64(-(((-d) * 0x100000) / norms))
    }
}

/// Compute the Q20 correlation quotient of a dot product and a norm product.
fn corr_quotient(d: i128, norms: i128) -> (r: i64)
    requires
        1 <= norms < 0x100000000000000000000000000,
        -0x40000000000000000000000 <= d <= 0x40000000000000000000000,
    ensures
        r as int == spec_corr_quotient(d as int, norms as int),
{
    if d >= 0 {
        proof {
            assert((d as int) * 0x100000 <= 0x40000000000000000000000 * 0x100000)
                by (nonlinear_arith)
                requires
                    0 <= (d as int) <= 0x40000000000000000000000,
            ;
        }
        let scaled: i128 = d * 0x100000;
        let q: i128 = (scaled as u128 / (norms as u128)) as i128;
        proof {
            vstd::arithmetic::div_mod::lemma_div_pos_is_pos(scaled as int, norms as int);
            vstd::arithmetic::div_mod::lemma_div_is_ordered(
                scaled as int,
                (0x40000000000000000000000 * 0x100000) as int,
                norms as int,
            );
        }
        saturate_i64(q)
    } else {
        let neg: i128 = -d;
        proof {
            assert((neg as int) * 0x100000 <= 0x40000000000000000000000 * 0x100000)
                by (nonlinear_arith)
                requires
                    0 <= (neg as int) <= 0x40000000000000000000000,
            ;
        }
        let scaled: i128 = neg * 0x100000;
        let q: i128 = (scaled as u128 / (norms as u128)) as i128;
        proof {
            vstd::arithmetic::div_mod::lemma_div_pos_is_pos(scaled as int, norms as int);
            vstd::arithmetic::div_mod::lemma_div_is_ordered(
                scaled as int,
                (0x40000000000000000000000 * 0x100000) as int,
                norms as int,
            );
        }
        saturate_i64(-q)
    }
}

/// The normalized correlation at a frame offset, in Q20: the dot product of
/// the reference window against the recording slice starting there, divided
/// by the product of the truncated norms; zero when either norm vanishes.
pub open spec fn spec_corr(refr: Seq<Frame>, rec: Seq<Frame>, offset: int) -> int {
    let n = refr.len() as int;
    let slice = rec.skip(offset);
    let d = spec_dot_prefix(refr, slice, n);
    let na = spec_isqrt(spec_dot_prefix(refr, refr, n));
    let nb = spec_isqrt(spec_dot_prefix(slice, slice, n));
    if na == 0 || nb == 0 {
        0
    } else {
        spec_corr_quotient(d, na * nb)
    }
}

impl LatencyProbe {
    /// Structural invariant: a usable sample rate and a bounded window.
    pub open spec fn wf(&self) -> bool {
        &&& self.sample_rate >= 1
        &&& self.reference@.len() <= MAX_WINDOW_FRAMES
    }

    /// Create a probe whose reference window holds the default tone.
    pub fn new(sample_rate: u32, default_frequency: u32, window_frames: usize) -> (p: LatencyProbe)
        requires
            sample_rate >= 1,
            window_frames <= MAX_WINDOW_FRAMES,
        ensures
            p.wf(),
            p.sample_rate == sample_rate,
            p.default_frequency == default_frequency,
            p.reference@.len() == window_frames,
            forall|i: int|
                0 <= i < window_frames as int ==> p.reference@[i] == spec_sine_frame(
                    spec_sine_step(default_frequency as int, sample_rate as int),
                    i,
                ),
    {
        let mut reference: Vec<Frame> = Vec::new();
        while reference.len() < window_frames
            invariant
                reference@.len() <= window_frames,
            decreases window_frames - reference@.len(),
        {
            reference.push(Frame::silence());
        }
        write_sine(default_frequency, sample_rate, &mut reference);
        LatencyProbe { sample_rate, default_frequency, reference }
    }

    /// Render the tone into the provided buffer, at the given frequency or at
    /// the probe's default when the given one is zero. Returns frames written.
    pub fn emit_sine(&self, frequency_hz: u32, out: &mut Vec<Frame>) -> (frames: usize)
        requires
            self.wf(),
        ensures
            frames == old(out)@.len(),
            final(out)@.len() == old(out)@.len(),
            forall|i: int|
                0 <= i < old(out)@.len() ==> final(out)@[i] == spec_sine_frame(
                    spec_sine_step(
                        if frequency_hz > 0 {
                            frequency_hz as int
                        } else {
                            self.default_frequency as int
                        },
                        self.sample_rate as int,
                    ),
                    i,
                ),
    {
        let frames: usize = out.len();
        let freq: u32 = if frequency_hz > 0 {
            frequency_hz
        } else {
            self.default_frequency
        };
        write_sine(freq, self.sample_rate, out);
        frames
    }

    /// Correlate the whole recording against the reference when it is no
    /// longer than the reference window.
    fn single_slice_report(&self, recorded: &Vec<Frame>) -> (report: LatencyReport)
        requires
            self.wf(),
            1 <= recorded@.len() <= self.reference@.len(),
        ensures
            report.offset_frames == 0,
            report.offset_micros == 0,
            report.correlation as int == spec_corr_single(self.reference@, recorded@),
            report.correlation >= 0,
    {
        let n: usize = recorded.len();
        let d = dot_frames(&self.reference, 0, recorded, 0, n);
        let ea = dot_frames(&self.reference, 0, &self.reference, 0, self.reference.len());
        let eb = dot_frames(recorded, 0, recorded, 0, n);
        proof {
            lemma_dot_self_nonneg(self.reference@, self.reference@.len() as int);
            lemma_dot_self_nonneg(recorded@, recorded@.len() as int);
            assert(self.reference@.skip(0) =~= self.reference@);
            assert(recorded@.skip(0) =~= recorded@);
        }
        let na = isqrt_u128(ea as u128);
        let nb = isqrt_u128(eb as u128);
        proof {
            assert((na as int) < 0x10000000000000) by (nonlinear_arith)
                requires
                    0 <= (na as int),
                    (na as int) * (na as int) <= (ea as int),
                    (ea as int) < 0x100000000000000000000000000,
            ;
            assert((nb as int) < 0x10000000000000) by (nonlinear_arith)
                requires
                    0 <= (nb as int),
                    (nb as int) * (nb as int) <= (eb as int),
                    (eb as int) < 0x100000000000000000000000000,
            ;
        }
        let correlation: i64 = if na == 0 || nb == 0 || d < 0 {
            0
        } else {
            proof {
                assert((na as int) * (nb as int) < 0x100000000000000000000000000)
                    by (nonlinear_arith)
                    requires
                        0 <= (na as int) < 0x10000000000000,
                        0 <= (nb as int) < 0x10000000000000,
                ;
                assert((na as int) * (nb as int) >= 1) by (nonlinear_arith)
                    requires
                        na >= 1,
                        nb >= 1,
                ;
                vstd::arithmetic::div_mod::lemma_div_pos_is_pos(
                    (d as int) * 0x100000,
                    (na as int) * (nb as int),
                );
            }
            corr_quotient(d, (na as i128) * (nb as i128))
        };
        LatencyReport {
            offset_frames: 0,
            offset_micros: 0,
            correlation,
            measured_at_ns: monotonic_timestamp_ns(),
        }
    }

    /// Estimate latency: the frame offset at which the reference window
    /// correlates best with the recording.
    ///
    /// With an empty recording or reference the report is all zero. With a
    /// recording no longer than the reference, the whole recording is scored
    /// at offset zero. Otherwise the reported offset carries the greatest
    /// correlation score of all offsets, and is the first offset to reach
    /// that score when the score is positive; a recording with no positively
    /// correlated offset reports offset zero and score zero.
    pub fn measure(&self, recorded: &Vec<Frame>) -> (report: LatencyReport)
        requires
            self.wf(),
        ensures
            report.correlation >= 0,
            recorded@.len() == 0 || self.reference@.len() == 0 ==> report.offset_frames == 0
                && report.offset_micros == 0 && report.correlation == 0,
            recorded@.len() >= 1 && self.reference@.len() >= 1 && recorded@.len()
                <= self.reference@.len() ==> report.offset_frames == 0 && report.correlation as int
                == spec_corr_single(self.reference@, recorded@),
            recorded@.len() > self.reference@.len() >= 1 ==> ({
                let max_offset = recorded@.len() as int - self.reference@.len() as int;
                &&& report.offset_frames as int <= max_offset
                &&& report.correlation >= 0
                &&& forall|o: int|
                    0 <= o <= max_offset ==> spec_corr(self.reference@, recorded@, o)
                        <= report.correlation as int
                &&& report.correlation > 0 ==> spec_corr(
                    self.reference@,
                    recorded@,
                    report.offset_frames as int,
                ) == report.correlation as int && (forall|o: int|
                    0 <= o < report.offset_frames as int ==> spec_corr(
                        self.reference@,
                        recorded@,
                        o,
                    ) < report.correlation as int)
                &&& report.correlation == 0 ==> report.offset_frames == 0
                &&& report.offset_micros == spec_offset_micros(
                    report.offset_frames as int,
                    self.sample_rate as int,
                )
            }),
    {
        let rec_frames: usize = recorded.len();
        let ref_frames: usize = self.reference.len();
        if rec_frames == 0 || ref_frames == 0 {
            return LatencyReport {
                offset_frames: 0,
                offset_micros: 0,
                correlation: 0,
                measured_at_ns: monotonic_timestamp_ns(),
            };
        }
        if rec_frames <= ref_frames {
            return self.single_slice_report(recorded);
        }
        let max_offset: usize = rec_frames - ref_frames;

        let ea = dot_frames(&self.reference, 0, &self.reference, 0, ref_frames);
        proof {
            lemma_dot_self_nonneg(self.reference@, ref_frames as int);
            assert(self.reference@.skip(0) =~= self.reference@);
        }
        let ref_norm = isqrt_u128(ea as u128);
        proof {
            assert((ref_norm as int) < 0x10000000000000) by (nonlinear_arith)
                requires
                    0 <= (ref_norm as int),
                    (ref_norm as int) * (ref_norm as int) <= (ea as int),
                    (ea as int) < 0x100000000000000000000000000,
            ;
        }

        let mut best_offset: usize = 0;
        let mut best_corr: i64 = 0;
        let mut offset: usize = 0;
        while offset <= max_offset
            invariant
                0 <= offset <= max_offset + 1,
                max_offset == recorded@.len() - self.reference@.len(),
                1 <= self.reference@.len() <= MAX_WINDOW_FRAMES,
                recorded@.len() > self.reference@.len(),
                ref_frames == self.reference@.len(),
                ref_norm as int == spec_isqrt(
                    spec_dot_prefix(self.reference@, self.reference@, ref_frames as int),
                ),
                ref_norm < 0x10000000000000,
                best_corr >= 0,
                best_offset <= max_offset,
                best_offset as int <= offset as int,
                forall|o: int|
                    0 <= o < offset as int ==> spec_corr(self.reference@, recorded@, o)
                        <= best_corr as int,
                best_corr > 0 ==> spec_corr(self.reference@, recorded@, best_offset as int)
                    == best_corr as int && (forall|o: int|
                    0 <= o < best_offset as int ==> spec_corr(self.reference@, recorded@, o)
                        < best_corr as int),
                best_corr == 0 ==> best_offset == 0,
                max_offset <= usize::MAX - 1,
            decreases max_offset + 1 - offset,
        {
            let d = dot_frames(&self.reference, 0, recorded, offset, ref_frames);
            let e = dot_frames(recorded, offset, recorded, offset, ref_frames);
            proof {
                lemma_dot_self_nonneg(recorded@.skip(offset as int), ref_frames as int);
                assert(self.reference@.skip(0) =~= self.reference@);
            }
            let rec_norm = isqrt_u128(e as u128);
            proof {
                assert((rec_norm as int) < 0x10000000000000) by (nonlinear_arith)
                    requires
                        0 <= (rec_norm as int),
                        (rec_norm as int) * (rec_norm as int) <= (e as int),
                        (e as int) < 0x100000000000000000000000000,
                ;
            }
            let corr: i64 = if ref_norm == 0 || rec_norm == 0 {
                0
            } else {
                proof {
                    assert((ref_norm as int) * (rec_norm as int) < 0x100000000000000000000000000)
                        by (nonlinear_arith)
                        requires
                            0 <= (ref_norm as int) < 0x10000000000000,
                            0 <= (rec_norm as int) < 0x10000000000000,
                    ;
                    assert((ref_norm as int) * (rec_norm as int) >= 1) by (nonlinear_arith)
                        requires
                            ref_norm >= 1,
                            rec_norm >= 1,
                    ;
                }
                corr_quotient(d, (ref_norm as i128) * (rec_norm as i128))
            };
            proof {
                assert(corr as int == spec_corr(self.reference@, recorded@, offset as int));
            }
            if corr > best_corr {
                best_offset = offset;
                best_corr = corr;
            }
            offset = offset + 1;
        }

        let offset_micros = offset_to_micros(best_offset, self.sample_rate);
        LatencyReport {
            offset_frames: best_offset,
            offset_micros,
            correlation: best_corr,
            measured_at_ns: monotonic_timestamp_ns(),
        }
    }
}

/// A frame offset converted to microseconds at a sample rate, saturated.
pub open spec fn spec_offset_micros(offset: int, sample_rate: int) -> int
    recommends
        sample_rate >= 1,
{
    let v = (offset * 1000000) / sample_rate;
    if v > u64::MAX as int {
        u64::MAX as int
    } else {
        v
    }
}

/// Convert a frame offset to microseconds at a sample rate, saturating.
pub fn offset_to_micros(offset: usize, sample_rate: u32) -> (r: u64)
    requires
        sample_rate >= 1,
    ensures
        r as int == spec_offset_micros(offset as int, sample_rate as int),
{
    proof {
        assert((offset as int) * 1000000 <= 0x10000000000000000 * 1000000) by (nonlinear_arith)
            requires
                0 <= (offset as int) < 0x10000000000000000,
        ;
    }
    let wide: u128 = (offset as u128) * 1000000;
    let q: u128 = wide / (sample_rate as u128);
    if q > u64::MAX as u128 {
        u64::MAX
    } else {
        q as u64
    }
}

} // verus!
