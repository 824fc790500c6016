//! Fixed-point stereo sample arithmetic.
//!
//! An amplitude is an `i32` scaled by [`SAMPLE_ONE`] (Q20): the value `v`
//! stands for the real amplitude `v / SAMPLE_ONE`. Gains are `i64` values on
//! the same scale. Interpolation weights are `u64` values scaled by
//! [`RATIO_ONE`] (Q32). All operations saturate instead of wrapping.

use vstd::prelude::*;

verus! {

/// One full-scale amplitude unit (Q20).
pub const SAMPLE_ONE: i32 = 0x100000;

/// One gain unit (Q20), equal to a linear gain of 1.
pub const GAIN_ONE: i64 = 0x100000;

/// Largest accepted linear gain (Q20), a linear gain of 1024.
pub const GAIN_MAX: i64 = 0x40000000;

/// One ratio or phase unit (Q32).
pub const RATIO_ONE: u64 = 0x100000000;

/// One interleaved stereo frame.
#[derive(Clone, Copy, Debug, PartialEq, Eq, Structural)]
pub struct Frame {
    /// Left channel amplitude (Q20).
    pub left: i32,
    /// Right channel amplitude (Q20).
    pub right: i32,
}

impl Frame {
    /// The all-zero (silent) frame.
    pub open spec fn spec_silence() -> Frame {
        Frame { left: 0, right: 0 }
    }

    /// The all-zero (silent) frame.
    pub fn silence() -> (f: Frame)
        ensures
            f == Frame::spec_silence(),
    {
        Frame { left: 0, right: 0 }
    }
}

/// The frames encoded by an interleaved sample sequence; a trailing odd
/// sample is ignored.
pub open spec fn frames_of(s: Seq<i32>) -> Seq<Frame> {
    Seq::new((s.len() / 2) as nat, |i: int| Frame { left: s[2 * i], right: s[2 * i + 1] })
}

/// The interleaved sample sequence of a frame sequence.
pub open spec fn samples_of(f: Seq<Frame>) -> Seq<i32> {
    Seq::new(
        (2 * f.len()) as nat,
        |k: int|
            if k % 2 == 0 {
                f[k / 2].left
            } else {
                f[k / 2].right
            },
    )
}

/// Clamp a mathematical amplitude into the `i32` range.
pub open spec fn spec_saturate(v: int) -> int {
    if v > i32::MAX as int {
        i32::MAX as int
    } else if v < i32::MIN as int {
        i32::MIN as int
    } else {
        v
    }
}

/// Saturating narrowing of an `i64` amplitude to `i32`.
pub fn saturate_sample(v: i64) -> (r: i32)
    ensures
        r as int == spec_saturate(v as int),
{
    if v > i32::MAX as i64 {
        i32::MAX
    } else if v < i32::MIN as i64 {
        i32::MIN
    } else {
        v as i32
    }
}

/// Saturating sum of two amplitudes.
pub fn sat_add(a: i32, b: i32) -> (r: i32)
    ensures
        r as int == spec_saturate(a + b),
{
    saturate_sample(a as i64 + b as i64)
}

/// An amplitude scaled by a non-negative Q20 gain, truncated toward zero.
pub open spec fn spec_apply_gain(s: int, g: int) -> int
    recommends
        0 <= g <= GAIN_MAX as int,
{
    if s >= 0 {
        spec_saturate((s * g) / (GAIN_ONE as int))
    } else {
        spec_saturate(-(((-s) * g) / (GAIN_ONE as int)))
    }
}

/// Scale an amplitude by a Q20 gain, saturating the result.
pub fn apply_gain(s: i32, g: i64) -> (r: i32)
    requires
        0 <= g <= GAIN_MAX as int,
    ensures
        r as int == spec_apply_gain(s as int, g as int),
{
    if s >= 0 {
        proof {
            assert((s as int) * (g as int) <= 0x80000000 * 0x40000000) by (nonlinear_arith)
                requires
                    0 <= s as int <= 0x80000000,
                    0 <= g as int <= 0x40000000,
            ;
        }
        let mag: u64 = (s as u64) * (g as u64);
        let scaled: u64 = mag >> 20;
        proof {
            assert(scaled == mag as int / (GAIN_ONE as int)) by (bit_vector)
                requires
                    scaled == mag >> 20u64,
            ;
        }
        if scaled > i32::MAX as u64 {
            proof {
                assert(spec_saturate((s * g) / (GAIN_ONE as int)) == i32::MAX as int);
            }
            i32::MAX
        } else {
            scaled as i32
        }
    } else {
        let neg: i64 = -(s as i64);
        proof {
            assert((neg as int) * (g as int) <= 0x80000000 * 0x40000000) by (nonlinear_arith)
                requires
                    0 <= neg as int <= 0x80000000,
                    0 <= g as int <= 0x40000000,
            ;
        }
        let mag: u64 = (neg as u64) * (g as u64);
        let scaled: u64 = mag >> 20;
        proof {
            assert(scaled == mag as int / (GAIN_ONE as int)) by (bit_vector)
                requires
                    scaled == mag >> 20u64,
            ;
        }
        if scaled > (i32::MAX as u64) + 1 {
            proof {
                assert(spec_saturate(-((neg * g) / (GAIN_ONE as int))) == i32::MIN as int);
            }
            i32::MIN
        } else {
            let wide: i64 = -(scaled as i64);
            saturate_sample(wide)
        }
    }
}

/// Linear interpolation between two amplitudes at a Q32 weight, truncated
/// toward `a`.
pub open spec fn spec_lerp(a: int, b: int, p: int) -> int
    recommends
        0 <= p < RATIO_ONE as int,
{
    if b >= a {
        a + ((b - a) * p) / (RATIO_ONE as int)
    } else {
        a - ((a - b) * p) / (RATIO_ONE as int)
    }
}

/// The interpolated amplitude lies between the two endpoints.
pub proof fn lemma_lerp_bounds(a: int, b: int, p: int)
    requires
        0 <= p < RATIO_ONE as int,
    ensures
        spec_lerp(a, b, p) <= if a >= b {
            a
        } else {
            b
        },
        spec_lerp(a, b, p) >= if a <= b {
            a
        } else {
            b
        },
        p == 0 ==> spec_lerp(a, b, p) == a,
{
    if b >= a {
        lemma_scaled_fraction_bounds(b - a, p);
    } else {
        lemma_scaled_fraction_bounds(a - b, p);
    }
}

/// `(d * p) / RATIO_ONE` stays within `[0, d]` for a Q32 weight `p`.
proof fn lemma_scaled_fraction_bounds(d: int, p: int)
    requires
        d >= 0,
        0 <= p < RATIO_ONE as int,
    ensures
        0 <= (d * p) / (RATIO_ONE as int) <= d,
        p == 0 ==> (d * p) / (RATIO_ONE as int) == 0,
{
    assert(0 <= d * p <= d * (RATIO_ONE as int)) by (nonlinear_arith)
        requires
            d >= 0,
            0 <= p < RATIO_ONE as int,
    ;
    assert(0 <= (d * p) / (RATIO_ONE as int) <= d) by (nonlinear_arith)
        requires
            0 <= d * p <= d * (RATIO_ONE as int),
            d >= 0,
    ;
}

/// Interpolate between two amplitudes with a Q32 weight.
pub fn lerp(a: i32, b: i32, p: u64) -> (r: i32)
    requires
        p < RATIO_ONE,
    ensures
        r as int == spec_lerp(a as int, b as int, p as int),
{
    proof {
        lemma_lerp_bounds(a as int, b as int, p as int);
    }
    if b >= a {
        let d: u64 = (b as i64 - a as i64) as u64;
        proof {
            assert((d as int) * (p as int) <= 0x100000000 * 0x100000000) by (nonlinear_arith)
                requires
                    0 <= d as int <= 0x100000000,
                    0 <= p as int <= 0x100000000,
            ;
            assert(((d as int) * (p as int)) / (RATIO_ONE as int) <= d as int) by (nonlinear_arith)
                requires
                    0 <= (p as int) < (RATIO_ONE as int),
                    d as int >= 0,
            ;
        }
        let prod: u128 = (d as u128) * (p as u128);
        let delta: u64 = (prod / (RATIO_ONE as u128)) as u64;
        (a as i64 + delta as i64) as i32
    } else {
        let d: u64 = (a as i64 - b as i64) as u64;
        proof {
            assert((d as int) * (p as int) <= 0x100000000 * 0x100000000) by (nonlinear_arith)
                requires
                    0 <= d as int <= 0x100000000,
                    0 <= p as int <= 0x100000000,
            ;
            assert(((d as int) * (p as int)) / (RATIO_ONE as int) <= d as int) by (nonlinear_arith)
                requires
                    0 <= (p as int) < (RATIO_ONE as int),
                    d as int >= 0,
            ;
        }
        let prod: u128 = (d as u128) * (p as u128);
        let delta: u64 = (prod / (RATIO_ONE as u128)) as u64;
        (a as i64 - delta as i64) as i32
    }
}

/// Frame-wise linear interpolation at a Q32 weight.
pub open spec fn spec_lerp_frame(a: Frame, b: Frame, p: int) -> Frame {
    Frame {
        left: spec_lerp(a.left as int, b.left as int, p) as i32,
        right: spec_lerp(a.right as int, b.right as int, p) as i32,
    }
}

/// Interpolate between two frames with a Q32 weight.
pub fn lerp_frame(a: Frame, b: Frame, p: u64) -> (r: Frame)
    requires
        p < RATIO_ONE,
    ensures
        r == spec_lerp_frame(a, b, p as int),
{
    proof {
        lemma_lerp_bounds(a.left as int, b.left as int, p as int);
        lemma_lerp_bounds(a.right as int, b.right as int, p as int);
    }
    Frame { left: lerp(a.left, b.left, p), right: lerp(a.right, b.right, p) }
}

} // verus!
