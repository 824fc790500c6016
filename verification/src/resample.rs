//! Fractional linear-interpolation resampler.
//!
//! The resampler walks an input frame sequence with a Q32 phase accumulator:
//! each output frame interpolates between the frames at the cursor and its
//! successor, then the phase advances by the rate ratio and whole-unit
//! overflow moves the cursor, clamped to the final available frame. Past the
//! final frame it emits silence.

use vstd::prelude::*;

use crate::sample::{spec_lerp_frame, Frame, RATIO_ONE};

verus! {

/// Lower clamp of the resampling ratio (about 0.95 in Q32).
pub const RESAMPLE_RATIO_MIN: u64 = 4080218931;

/// Upper clamp of the resampling ratio (about 1.05 in Q32).
pub const RESAMPLE_RATIO_MAX: u64 = 4509715661;

/// Resampler state: the published rate ratio and the persistent phase.
pub struct ResamplerState {
    /// Rate ratio in Q32 as last published; clamped on use.
    pub ratio: u64,
    /// Interpolation phase in Q32, always below one unit.
    pub phase: u64,
}

/// A position of the resampler walk: input cursor and Q32 phase.
pub struct ResamplePos {
    /// Index of the frame the next output interpolates from.
    pub cursor: int,
    /// Q32 interpolation weight toward the successor frame.
    pub phase: int,
}

/// A ratio clamped into the narrow drift-correction band.
pub open spec fn spec_clamp_ratio(r: int) -> int {
    if r < RESAMPLE_RATIO_MIN as int {
        RESAMPLE_RATIO_MIN as int
    } else if r > RESAMPLE_RATIO_MAX as int {
        RESAMPLE_RATIO_MAX as int
    } else {
        r
    }
}

/// The frame emitted at a position: interpolation while the cursor is before
/// the final available frame, silence from there on.
pub open spec fn rs_out(s: Seq<Frame>, pos: ResamplePos) -> Frame {
    let last = s.len() as int - 1;
    if pos.cursor >= last {
        Frame::spec_silence()
    } else {
        spec_lerp_frame(s[pos.cursor], s[pos.cursor + 1], pos.phase)
    }
}

/// The position after one output frame: the phase grows by the ratio and
/// whole units advance the cursor, clamped to the final available frame.
pub open spec fn rs_next(s_len: int, pos: ResamplePos, ratio: int) -> ResamplePos {
    let last = s_len - 1;
    let p = pos.phase + ratio;
    let adv = p / (RATIO_ONE as int);
    let cursor = if pos.cursor + adv <= last {
        pos.cursor + adv
    } else {
        last
    };
    ResamplePos { cursor, phase: p % (RATIO_ONE as int) }
}

/// The position after `n` output frames.
pub open spec fn rs_pos_after(s_len: int, pos0: ResamplePos, ratio: int, n: int) -> ResamplePos
    decreases n,
{
    if n <= 0 {
        pos0
    } else {
        rs_next(s_len, rs_pos_after(s_len, pos0, ratio, n - 1), ratio)
    }
}

/// The first `n` frames emitted from a position.
pub open spec fn rs_outputs(s: Seq<Frame>, pos0: ResamplePos, ratio: int, n: int) -> Seq<Frame>
    decreases n,
{
    if n <= 0 {
        Seq::<Frame>::empty()
    } else {
        rs_outputs(s, pos0, ratio, n - 1).push(
            rs_out(s, rs_pos_after(s.len() as int, pos0, ratio, n - 1)),
        )
    }
}

/// A resampler run emits one frame per requested output frame.
pub proof fn lemma_rs_outputs_len(s: Seq<Frame>, pos0: ResamplePos, ratio: int, n: int)
    requires
        n >= 0,
    ensures
        rs_outputs(s, pos0, ratio, n).len() == n,
    decreases n,
{
    if n > 0 {
        lemma_rs_outputs_len(s, pos0, ratio, n - 1);
    }
}

/// Ratio-one identity: starting at cursor zero with phase zero and the exact
/// unit ratio, output `i` is input frame `i` while input remains, and the
/// phase stays zero.
pub proof fn lemma_resample_identity(s: Seq<Frame>, n: int)
    requires
        s.len() >= 1,
        n >= 0,
    ensures
        forall|i: int|
            0 <= i <= n ==> rs_pos_after(
                s.len() as int,
                ResamplePos { cursor: 0, phase: 0 },
                RATIO_ONE as int,
                i,
            ) == (ResamplePos {
                cursor: if i <= s.len() - 1 {
                    i
                } else {
                    s.len() - 1
                },
                phase: 0,
            }),
        forall|i: int|
            0 <= i < n ==> rs_outputs(
                s,
                ResamplePos { cursor: 0, phase: 0 },
                RATIO_ONE as int,
                n,
            )[i] == (if i < s.len() - 1 {
                s[i]
            } else {
                Frame::spec_silence()
            }),
    decreases n,
{
    let one = RATIO_ONE as int;
    let pos0 = ResamplePos { cursor: 0, phase: 0 };
    let last = s.len() as int - 1;
    if n > 0 {
        lemma_resample_identity(s, n - 1);
        let prev = rs_pos_after(s.len() as int, pos0, one, n - 1);
        if n - 1 <= last {
            assert(prev == ResamplePos { cursor: n - 1, phase: 0 });
        } else {
            assert(prev == ResamplePos { cursor: last, phase: 0 });
        }
        vstd::arithmetic::div_mod::lemma_div_by_self(one);
        vstd::arithmetic::div_mod::lemma_mod_self_0(one);
        let stepped = rs_next(s.len() as int, prev, one);
        assert(stepped.phase == 0);
        let outn = rs_out(s, prev);
        if prev.cursor < last {
            assert(outn == spec_lerp_frame(s[prev.cursor], s[prev.cursor + 1], 0));
            crate::sample::lemma_lerp_bounds(
                s[prev.cursor].left as int,
                s[prev.cursor + 1].left as int,
                0,
            );
            crate::sample::lemma_lerp_bounds(
                s[prev.cursor].right as int,
                s[prev.cursor + 1].right as int,
                0,
            );
            assert(outn == s[prev.cursor]);
        }
        assert forall|i: int| 0 <= i < n implies rs_outputs(s, pos0, one, n)[i] == (if i < last {
            s[i]
        } else {
            Frame::spec_silence()
        }) by {
            lemma_rs_outputs_len(s, pos0, one, n - 1);
            if i < n - 1 {
                assert(rs_outputs(s, pos0, one, n)[i] == rs_outputs(s, pos0, one, n - 1)[i]);
            }
        };
    }
}

impl ResamplerState {
    /// The phase stays below one unit.
    pub open spec fn wf(&self) -> bool {
        self.phase < RATIO_ONE
    }

    /// A fresh resampler at the unit ratio with phase zero.
    pub fn new() -> (r: ResamplerState)
        ensures
            r.wf(),
            r.ratio == RATIO_ONE,
            r.phase == 0,
    {
        ResamplerState { ratio: RATIO_ONE, phase: 0 }
    }

    /// The published ratio, as stored.
    pub fn ratio(&self) -> (r: u64)
        ensures
            r == self.ratio,
    {
        self.ratio
    }

    /// Publish a new ratio; it is clamped when used.
    pub fn set_ratio(&mut self, ratio: u64)
        ensures
            *final(self) == (ResamplerState { ratio, ..*old(self) }),
    {
        self.ratio = ratio;
    }

    /// The published ratio clamped into the drift-correction band.
    pub fn clamped_ratio(&self) -> (r: u64)
        ensures
            r as int == spec_clamp_ratio(self.ratio as int),
            RESAMPLE_RATIO_MIN <= r <= RESAMPLE_RATIO_MAX,
    {
        if self.ratio < RESAMPLE_RATIO_MIN {
            RESAMPLE_RATIO_MIN
        } else if self.ratio > RESAMPLE_RATIO_MAX {
            RESAMPLE_RATIO_MAX
        } else {
            self.ratio
        }
    }
}

} // verus!
