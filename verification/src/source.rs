//! A mixer source: ring buffer, latency compensation, fractional resampling
//! and gain staging, composed into the per-source mix path.

use vstd::prelude::*;

use crate::clock::ClockState;
use crate::delay::{delay_run_out, delay_run_q, DelayLine};
use crate::resample::{
    rs_out, rs_outputs, rs_pos_after, spec_clamp_ratio, ResamplePos, ResamplerState,
};
use crate::ring::SharedRingBuffer;
use crate::sample::{
    apply_gain, lerp_frame, sat_add, spec_apply_gain, spec_saturate, Frame, GAIN_MAX, RATIO_ONE,
};
use crate::SourceHandle;

verus! {

/// Largest magnitude of a latency setting in frames.
pub const MAX_LATENCY_FRAMES: i64 = 0x80000000;

/// The state of a source that the mix path reads and writes, as plain values.
#[verifier::ext_equal]
pub struct SourceView {
    /// Linear gain (Q20).
    pub gain: int,
    /// Whether the source is muted.
    pub mute: bool,
    /// Latency requested from the control plane, in signed frames.
    pub latency_request: int,
    /// Latency setting the delay line currently reflects.
    pub current_latency: int,
    /// Frames still owed as silent ring discards for a negative latency.
    pub deficit: int,
    /// Frames queued in the ring.
    pub ring_q: Seq<Frame>,
    /// Frames queued in the delay line.
    pub delay_q: Seq<Frame>,
    /// Delay line capacity.
    pub delay_cap: int,
    /// Delay line target delay.
    pub delay_target: int,
    /// Published resampling ratio (Q32), clamped on use.
    pub ratio: int,
    /// Resampler phase (Q32).
    pub phase: int,
    /// Scratch buffer contents.
    pub scratch: Seq<Frame>,
    /// Final input frame of the previous block, seeding interpolation.
    pub prev: Frame,
}

/// The effect of one mix call: the new source state and the frames the
/// source contributed to the output (before gain scaling).
pub struct MixStep {
    /// Source state after the call.
    pub v: SourceView,
    /// Frames the source emitted, one per output frame; empty when the call
    /// added nothing.
    pub douts: Seq<Frame>,
}

/// A run of silent frames.
pub open spec fn silence_frames(n: int) -> Seq<Frame> {
    Seq::new(n as nat, |i: int| Frame::spec_silence())
}

/// An output buffer after a contribution is accumulated into its prefix:
/// sample `k` of the first `douts.len()` frames becomes the saturating sum of
/// its old value and the gain-scaled contribution; the rest is unchanged.
pub open spec fn mix_output(out: Seq<i32>, douts: Seq<Frame>, gain: int) -> Seq<i32> {
    Seq::new(
        out.len(),
        |k: int|
            if k < 2 * douts.len() {
                let f = douts[k / 2];
                let ch = if k % 2 == 0 {
                    f.left
                } else {
                    f.right
                };
                spec_saturate(out[k] + spec_apply_gain(ch as int, gain)) as i32
            } else {
                out[k]
            },
    )
}

/// An empty contribution leaves the output untouched.
pub proof fn lemma_mix_output_empty(out: Seq<i32>, gain: int)
    ensures
        mix_output(out, Seq::<Frame>::empty(), gain) == out,
{
    assert(mix_output(out, Seq::<Frame>::empty(), gain) =~= out);
}

/// The latency stage: a pending request reconfigures the delay line. A
/// non-negative request becomes the delay target; a negative one zeroes the
/// target, drops delayed frames, and records what is still owed as a deficit.
pub open spec fn spec_update_latency(v: SourceView) -> SourceView {
    if v.latency_request == v.current_latency {
        v
    } else if v.latency_request >= 0 {
        SourceView {
            delay_target: if v.latency_request <= v.delay_cap - 1 {
                v.latency_request
            } else {
                v.delay_cap - 1
            },
            deficit: 0,
            current_latency: v.latency_request,
            ..v
        }
    } else {
        let owed = -v.latency_request;
        let dropped = if owed <= v.delay_q.len() as int {
            owed
        } else {
            v.delay_q.len() as int
        };
        SourceView {
            delay_target: 0,
            delay_q: v.delay_q.skip(dropped),
            deficit: owed - dropped,
            current_latency: v.latency_request,
            ..v
        }
    }
}

/// One mix call over a source view: apply pending latency, discharge the
/// advance deficit against the ring, pull input frames behind the previous
/// block's final frame, resample them, and run them through the delay line.
/// A muted source, or a block whose input demand exceeds the scratch buffer,
/// contributes nothing.
pub open spec fn spec_mix_step(v: SourceView, frames: int) -> MixStep {
    if v.mute {
        MixStep { v, douts: Seq::<Frame>::empty() }
    } else {
        let v1 = spec_update_latency(v);
        let rd = if v1.deficit <= v1.ring_q.len() as int {
            v1.deficit
        } else {
            v1.ring_q.len() as int
        };
        let v2 = SourceView { ring_q: v1.ring_q.skip(rd), deficit: v1.deficit - rd, ..v1 };
        let ratio = spec_clamp_ratio(v2.ratio);
        let need = (frames * ratio + RATIO_ONE as int - 1) / (RATIO_ONE as int) + 2;
        if need > v2.scratch.len() as int {
            MixStep { v: v2, douts: Seq::<Frame>::empty() }
        } else {
            let popn = if need - 1 <= v2.ring_q.len() as int {
                need - 1
            } else {
                v2.ring_q.len() as int
            };
            let total = 1 + popn;
            let scratch2 = seq![v2.prev] + v2.ring_q.take(popn) + v2.scratch.skip(total);
            let ring3 = v2.ring_q.skip(popn);
            if total < 2 {
                let inputs = silence_frames(frames);
                MixStep {
                    v: SourceView {
                        ring_q: ring3,
                        delay_q: delay_run_q(v2.delay_q, v2.delay_cap, v2.delay_target, inputs),
                        scratch: scratch2,
                        ..v2
                    },
                    douts: delay_run_out(v2.delay_q, v2.delay_cap, v2.delay_target, inputs),
                }
            } else {
                let active = scratch2.take(total);
                let pos0 = ResamplePos { cursor: 0, phase: v2.phase };
                let interp = rs_outputs(active, pos0, ratio, frames);
                MixStep {
                    v: SourceView {
                        ring_q: ring3,
                        delay_q: delay_run_q(v2.delay_q, v2.delay_cap, v2.delay_target, interp),
                        scratch: scratch2,
                        phase: rs_pos_after(total, pos0, ratio, frames).phase,
                        prev: scratch2[total - 1],
                        ..v2
                    },
                    douts: delay_run_out(v2.delay_q, v2.delay_cap, v2.delay_target, interp),
                }
            }
        }
    }
}

/// A mix step never touches the control-plane settings: gain, mute, the
/// latency request and the clock survive unchanged.
pub proof fn lemma_mix_step_controls_unchanged(v: SourceView, frames: int)
    ensures
        spec_mix_step(v, frames).v.gain == v.gain,
        spec_mix_step(v, frames).v.mute == v.mute,
        spec_mix_step(v, frames).v.latency_request == v.latency_request,
        spec_mix_step(v, frames).v.ratio == v.ratio,
{
}

/// Muted sources add exactly nothing: the mix step of a muted source leaves
/// both the source and any output buffer untouched.
pub proof fn lemma_mix_step_muted(v: SourceView, out: Seq<i32>, frames: int)
    requires
        v.mute,
    ensures
        spec_mix_step(v, frames).v == v,
        mix_output(out, spec_mix_step(v, frames).douts, v.gain) == out,
{
    lemma_mix_output_empty(out, v.gain);
}

/// A delay line holding only silence and fed only silence emits only silence
/// and still holds only silence.
pub proof fn lemma_delay_all_silence(q: Seq<Frame>, cap: int, target: int, inputs: Seq<Frame>)
    requires
        0 < cap,
        q.len() <= cap,
        forall|i: int| 0 <= i < q.len() ==> q[i] == Frame::spec_silence(),
        forall|i: int| 0 <= i < inputs.len() ==> inputs[i] == Frame::spec_silence(),
    ensures
        forall|i: int|
            0 <= i < inputs.len() ==> delay_run_out(q, cap, target, inputs)[i]
                == Frame::spec_silence(),
        forall|i: int|
            0 <= i < delay_run_q(q, cap, target, inputs).len() ==> delay_run_q(
                q,
                cap,
                target,
                inputs,
            )[i] == Frame::spec_silence(),
    decreases inputs.len(),
{
    if inputs.len() > 0 {
        let p = crate::delay::delay_admit(q, cap, inputs[0]);
        assert forall|i: int| 0 <= i < p.len() implies p[i] == Frame::spec_silence() by {
            if q.len() < cap {
                if i < q.len() {
                    assert(p[i] == q[i]);
                } else {
                    assert(p[i] == inputs[0]);
                }
            } else {
                if i < p.len() - 1 {
                    assert(p[i] == q.skip(1)[i]);
                    assert(q.skip(1)[i] == q[i + 1]);
                } else {
                    assert(p[i] == inputs[0]);
                }
            }
        };
        let q1 = crate::delay::delay_step_q(q, cap, target, inputs[0]);
        assert forall|i: int| 0 <= i < q1.len() implies q1[i] == Frame::spec_silence() by {
            if p.len() > target {
                assert(q1[i] == p[i + 1]);
            } else {
                assert(q1[i] == p[i]);
            }
        };
        assert(q1.len() <= cap);
        lemma_delay_all_silence(q1, cap, target, inputs.skip(1));
        assert(delay_run_q(q, cap, target, inputs) == delay_run_q(q1, cap, target, inputs.skip(1)));
        assert(delay_run_out(q, cap, target, inputs) == seq![
            crate::delay::delay_step_out(q, cap, target, inputs[0]),
        ] + delay_run_out(q1, cap, target, inputs.skip(1)));
        crate::delay::lemma_delay_run_out_len(q1, cap, target, inputs.skip(1));
        assert forall|i: int| 0 <= i < inputs.len() implies delay_run_out(q, cap, target, inputs)[i]
            == Frame::spec_silence() by {
            if i > 0 {
                assert(delay_run_out(q, cap, target, inputs)[i] == delay_run_out(
                    q1,
                    cap,
                    target,
                    inputs.skip(1),
                )[i - 1]);
            }
        };
    }
}

/// A silent contribution leaves the output untouched.
pub proof fn lemma_mix_output_silence(out: Seq<i32>, douts: Seq<Frame>, gain: int)
    requires
        forall|i: int| 0 <= i < douts.len() ==> douts[i] == Frame::spec_silence(),
        0 <= gain <= GAIN_MAX as int,
    ensures
        mix_output(out, douts, gain) == out,
{
    assert forall|k: int| 0 <= k < out.len() implies mix_output(out, douts, gain)[k] == out[k] by {
        if k < 2 * douts.len() {
            vstd::arithmetic::div_mod::lemma_fundamental_div_mod(k, 2);
            assert(douts[k / 2] == Frame::spec_silence());
            assert(spec_apply_gain(0, gain) == 0);
        }
    };
    assert(mix_output(out, douts, gain) =~= out);
}

/// A drained source is inaudible: with an empty ring, a silent delay line, a
/// settled latency and no pending deficit, the mix step leaves any output
/// buffer untouched, and the gain and mute settings survive unchanged.
pub proof fn lemma_mix_step_drained(v: SourceView, out: Seq<i32>, frames: int)
    requires
        !v.mute,
        v.latency_request == v.current_latency,
        v.deficit == 0,
        v.ring_q.len() == 0,
        0 < v.delay_cap,
        v.delay_q.len() <= v.delay_cap,
        forall|i: int| 0 <= i < v.delay_q.len() ==> v.delay_q[i] == Frame::spec_silence(),
        0 <= v.gain <= GAIN_MAX as int,
        frames >= 0,
    ensures
        mix_output(out, spec_mix_step(v, frames).douts, v.gain) == out,
        spec_mix_step(v, frames).v.gain == v.gain,
        spec_mix_step(v, frames).v.mute == v.mute,
{
    let v1 = spec_update_latency(v);
    assert(v1 == v);
    assert(v.ring_q.skip(0) =~= v.ring_q);
    let ratio = spec_clamp_ratio(v.ratio);
    let need = (frames * ratio + RATIO_ONE as int - 1) / (RATIO_ONE as int) + 2;
    if need > v.scratch.len() as int {
        lemma_mix_output_empty(out, v.gain);
    } else {
        assert(v.ring_q.take(0) =~= v.ring_q);
        let inputs = silence_frames(frames);
        assert(forall|i: int| 0 <= i < inputs.len() ==> inputs[i] == Frame::spec_silence());
        lemma_delay_all_silence(v.delay_q, v.delay_cap, v.delay_target, inputs);
        crate::delay::lemma_delay_run_out_len(v.delay_q, v.delay_cap, v.delay_target, inputs);
        lemma_mix_output_silence(
            out,
            delay_run_out(v.delay_q, v.delay_cap, v.delay_target, inputs),
            v.gain,
        );
    }
}

/// Latency insertion: after a non-negative latency request takes effect,
/// the source's next emitted frames are silent until the delay line has
/// refilled to the new target, so the first `target - queued` frames of the
/// contribution are silence.
pub proof fn lemma_mix_step_latency_silence(v: SourceView, frames: int)
    requires
        !v.mute,
        v.latency_request >= 0,
        v.latency_request != v.current_latency,
        ({
            let target = if v.latency_request <= v.delay_cap - 1 {
                v.latency_request
            } else {
                v.delay_cap - 1
            };
            v.delay_q.len() <= target < v.delay_cap
        }),
    ensures
        ({
            let target = if v.latency_request <= v.delay_cap - 1 {
                v.latency_request
            } else {
                v.delay_cap - 1
            };
            forall|i: int|
                0 <= i < target - v.delay_q.len() && i < spec_mix_step(v, frames).douts.len()
                    ==> spec_mix_step(v, frames).douts[i] == Frame::spec_silence()
        }),
{
    let target = if v.latency_request <= v.delay_cap - 1 {
        v.latency_request
    } else {
        v.delay_cap - 1
    };
    let v1 = spec_update_latency(v);
    assert(v1.delay_q == v.delay_q);
    assert(v1.delay_target == target);
    let rd = if v1.deficit <= v1.ring_q.len() as int {
        v1.deficit
    } else {
        v1.ring_q.len() as int
    };
    let v2 = SourceView { ring_q: v1.ring_q.skip(rd), deficit: v1.deficit - rd, ..v1 };
    lemma_mix_step_latency_pending(v, v2, frames, target);
}

/// Helper for the latency-silence law: with the delay target at `target`
/// and fewer queued frames, the run's first emitted frames are silent.
proof fn lemma_mix_step_latency_pending(v: SourceView, v2: SourceView, frames: int, target: int)
    requires
        !v.mute,
        v2 == ({
            let v1 = spec_update_latency(v);
            let rd = if v1.deficit <= v1.ring_q.len() as int {
                v1.deficit
            } else {
                v1.ring_q.len() as int
            };
            SourceView { ring_q: v1.ring_q.skip(rd), deficit: v1.deficit - rd, ..v1 }
        }),
        v2.delay_q == v.delay_q,
        v2.delay_target <= target,
        target - v.delay_q.len() <= v2.delay_target - v2.delay_q.len(),
        v2.delay_q.len() <= v2.delay_target < v2.delay_cap,
    ensures
        forall|i: int|
            0 <= i < target - v.delay_q.len() && i < spec_mix_step(v, frames).douts.len() ==> spec_mix_step(
                v,
                frames,
            ).douts[i] == Frame::spec_silence(),
{
    let ratio = spec_clamp_ratio(v2.ratio);
    let need = (frames * ratio + RATIO_ONE as int - 1) / (RATIO_ONE as int) + 2;
    if need > v2.scratch.len() as int {
        assert(spec_mix_step(v, frames).douts == Seq::<Frame>::empty());
    } else {
        let popn = if need - 1 <= v2.ring_q.len() as int {
            need - 1
        } else {
            v2.ring_q.len() as int
        };
        let total = 1 + popn;
        let scratch2 = seq![v2.prev] + v2.ring_q.take(popn) + v2.scratch.skip(total);
        if total < 2 {
            let inputs = silence_frames(frames);
            assert(spec_mix_step(v, frames).douts == delay_run_out(
                v2.delay_q,
                v2.delay_cap,
                v2.delay_target,
                inputs,
            ));
            crate::delay::lemma_delay_run_out_len(v2.delay_q, v2.delay_cap, v2.delay_target, inputs);
            crate::delay::lemma_delay_silence_prefix(
                v2.delay_q,
                v2.delay_cap,
                v2.delay_target,
                inputs,
            );
        } else {
            let active = scratch2.take(total);
            let pos0 = ResamplePos { cursor: 0, phase: v2.phase };
            let inputs = rs_outputs(active, pos0, ratio, frames);
            assert(spec_mix_step(v, frames).douts == delay_run_out(
                v2.delay_q,
                v2.delay_cap,
                v2.delay_target,
                inputs,
            ));
            crate::delay::lemma_delay_run_out_len(v2.delay_q, v2.delay_cap, v2.delay_target, inputs);
            crate::delay::lemma_delay_silence_prefix(
                v2.delay_q,
                v2.delay_cap,
                v2.delay_target,
                inputs,
            );
        }
    }
}

/// Gain scaling: with the unit ratio at phase zero, a zero delay target, an
/// empty delay line, a settled latency and no pending deficit, the mix step
/// emits the previous block's final frame followed by the queued input
/// frames, silence past the queue, so each touched output sample is the
/// saturating sum of its old value and the gain-scaled input sample.
pub proof fn lemma_mix_step_gain_scaling(v: SourceView, frames: int)
    requires
        !v.mute,
        v.latency_request == v.current_latency,
        v.deficit == 0,
        v.ratio == RATIO_ONE as int,
        v.phase == 0,
        v.delay_target == 0,
        v.delay_q.len() == 0,
        0 < v.delay_cap,
        frames >= 0,
        frames + 2 <= v.scratch.len(),
    ensures
        spec_mix_step(v, frames).douts.len() == frames,
        forall|k: int|
            0 <= k < frames ==> spec_mix_step(v, frames).douts[k] == (if k < (seq![v.prev]
                + v.ring_q).len() - 1 {
                (seq![v.prev] + v.ring_q)[k]
            } else {
                Frame::spec_silence()
            }),
{
    let v1 = spec_update_latency(v);
    assert(v1 == v);
    assert(v.ring_q.skip(0) =~= v.ring_q);
    let one = RATIO_ONE as int;
    let ratio = spec_clamp_ratio(v.ratio);
    assert(ratio == one);
    vstd::arithmetic::div_mod::lemma_fundamental_div_mod_converse(
        frames * one + one - 1,
        one,
        frames,
        one - 1,
    );
    let need = (frames * one + one - 1) / one + 2;
    assert(need == frames + 2);
    let popn = if need - 1 <= v.ring_q.len() as int {
        need - 1
    } else {
        v.ring_q.len() as int
    };
    let total = 1 + popn;
    let scratch2 = seq![v.prev] + v.ring_q.take(popn) + v.scratch.skip(total);
    let active = scratch2.take(total);
    if total < 2 {
        assert(v.ring_q.len() == 0);
        let inputs = silence_frames(frames);
        crate::delay::lemma_delay_steady_state(v.delay_q, v.delay_cap, 0, inputs);
        assert(spec_mix_step(v, frames).douts =~= (v.delay_q + inputs).take(frames));
        assert forall|k: int| 0 <= k < frames implies spec_mix_step(v, frames).douts[k]
            == Frame::spec_silence() by {
            assert((v.delay_q + inputs)[k] == inputs[k]);
        };
    } else {
        let pos0 = ResamplePos { cursor: 0, phase: 0 };
        let interp = rs_outputs(active, pos0, one, frames);
        assert(active.len() == total);
        crate::resample::lemma_resample_identity(active, frames);
        crate::resample::lemma_rs_outputs_len(active, pos0, one, frames);
        crate::delay::lemma_delay_steady_state(v.delay_q, v.delay_cap, 0, interp);
        assert(spec_mix_step(v, frames).douts =~= (v.delay_q + interp).take(frames));
        assert forall|k: int| 0 <= k < frames implies spec_mix_step(v, frames).douts[k] == (if k < (
        seq![v.prev] + v.ring_q).len() - 1 {
            (seq![v.prev] + v.ring_q)[k]
        } else {
            Frame::spec_silence()
        }) by {
            assert((v.delay_q + interp)[k] == interp[k]);
            assert(interp[k] == (if k < total - 1 {
                active[k]
            } else {
                Frame::spec_silence()
            }));
            if k < total - 1 {
                if k == 0 {
                    assert(active[0] == v.prev);
                } else {
                    assert(active[k] == v.ring_q.take(popn)[k - 1]);
                }
            }
        };
    }
}

/// Mixer source entry.
pub struct Source {
    /// Handle this source was registered under.
    pub handle: SourceHandle,
    /// The source's input queue.
    pub ring: SharedRingBuffer,
    /// Linear gain (Q20), kept in `[0, GAIN_MAX]`.
    pub gain: i64,
    /// Whether the source is muted.
    pub mute: bool,
    /// Latency requested from the control plane, in signed frames.
    pub latency_request: i64,
    /// Latency setting the delay line currently reflects.
    pub current_latency_setting: i64,
    /// Frames still owed as silent ring discards for a negative latency.
    pub advance_deficit: usize,
    /// Latency-compensation delay line.
    pub delay_line: DelayLine,
    /// Fractional resampler state.
    pub resampler: ResamplerState,
    /// Clock-feedback integrator.
    pub clock: ClockState,
    /// Input staging buffer for one block.
    pub scratch: Vec<Frame>,
    /// Final input frame of the previous block.
    pub prev_frame: Frame,
}

impl Source {
    /// The mix-path state of this source, as plain values.
    pub open spec fn view(&self) -> SourceView {
        SourceView {
            gain: self.gain as int,
            mute: self.mute,
            latency_request: self.latency_request as int,
            current_latency: self.current_latency_setting as int,
            deficit: self.advance_deficit as int,
            ring_q: self.ring.contents(),
            delay_q: self.delay_line@,
            delay_cap: self.delay_line.capacity as int,
            delay_target: self.delay_line.target_delay as int,
            ratio: self.resampler.ratio as int,
            phase: self.resampler.phase as int,
            scratch: self.scratch@,
            prev: self.prev_frame,
        }
    }

    /// Structural invariant of the source and its components.
    pub open spec fn wf(&self) -> bool {
        &&& self.ring.wf()
        &&& self.delay_line.wf()
        &&& self.resampler.wf()
        &&& self.clock.wf()
        &&& 0 <= self.gain <= GAIN_MAX
        &&& -MAX_LATENCY_FRAMES <= self.latency_request < MAX_LATENCY_FRAMES
        &&& -MAX_LATENCY_FRAMES <= self.current_latency_setting < MAX_LATENCY_FRAMES
        &&& self.scratch@.len() <= 0x40000000
    }

    /// Create a source over a ring, sized for blocks of at most
    /// `max_block_frames` frames.
    pub fn new(handle: SourceHandle, ring: SharedRingBuffer, max_block_frames: usize) -> (s:
        Source)
        requires
            ring.wf(),
            max_block_frames <= 0x8000000,
        ensures
            s.wf(),
            s.handle == handle,
            s.ring == ring,
            s.gain == crate::sample::GAIN_ONE,
            s.mute == false,
            s.latency_request == 0,
            s.current_latency_setting == 0,
            s.advance_deficit == 0,
            s.delay_line@ == Seq::<Frame>::empty(),
            s.delay_line.target_delay == 0,
            s.resampler.ratio == RATIO_ONE,
            s.resampler.phase == 0,
            s.clock.smoothed_ratio == RATIO_ONE,
            s.clock.last_device_ts.is_none(),
            s.clock.last_source_ts.is_none(),
            s.scratch@.len() == max_block_frames * 4,
            s.prev_frame == Frame::spec_silence(),
    {
        let scratch_frames: usize = max_block_frames * 4;
        let mut scratch: Vec<Frame> = Vec::new();
        while scratch.len() < scratch_frames
            invariant
                scratch@.len() <= scratch_frames,
            decreases scratch_frames - scratch@.len(),
        {
            scratch.push(Frame::silence());
        }
        Source {
            handle,
            ring,
            gain: crate::sample::GAIN_ONE,
            mute: false,
            latency_request: 0,
            current_latency_setting: 0,
            advance_deficit: 0,
            delay_line: DelayLine::new(max_block_frames * 8),
            resampler: ResamplerState::new(),
            clock: ClockState::new(),
            scratch,
            prev_frame: Frame::silence(),
        }
    }

    /// Set the linear gain, clamped to the accepted non-negative band.
    pub fn set_gain(&mut self, gain: i64)
        requires
            old(self).wf(),
        ensures
            final(self).wf(),
            *final(self) == (Source { gain: final(self).gain, ..*old(self) }),
            final(self).gain == if gain < 0 {
                0int
            } else if gain > GAIN_MAX {
                GAIN_MAX as int
            } else {
                gain as int
            },
    {
        self.gain = if gain < 0 {
            0
        } else if gain > GAIN_MAX {
            GAIN_MAX
        } else {
            gain
        };
    }

    /// The current linear gain.
    pub fn gain(&self) -> (g: i64)
        ensures
            g == self.gain,
    {
        self.gain
    }

    /// Set the mute flag.
    pub fn set_mute(&mut self, mute: bool)
        ensures
            *final(self) == (Source { mute, ..*old(self) }),
    {
        self.mute = mute;
    }

    /// Whether the source is muted.
    pub fn is_muted(&self) -> (m: bool)
        ensures
            m == self.mute,
    {
        self.mute
    }

    /// Request a new latency in signed frames; it is absorbed at the start of
    /// the next mix call.
    pub fn set_latency(&mut self, frames: i64)
        requires
            -MAX_LATENCY_FRAMES <= frames < MAX_LATENCY_FRAMES,
        ensures
            *final(self) == (Source { latency_request: frames, ..*old(self) }),
    {
        self.latency_request = frames;
    }

    /// Publish a resampling ratio directly.
    pub fn set_resample_ratio(&mut self, ratio: u64)
        ensures
            *final(self) == (Source { resampler: final(self).resampler, ..*old(self) }),
            final(self).resampler == (ResamplerState { ratio, ..old(self).resampler }),
    {
        self.resampler.set_ratio(ratio);
    }

    /// Feed one clock-feedback pair through the integrator, publishing the
    /// smoothed ratio when the pair is accepted.
    pub fn apply_clock_feedback(&mut self, device_ts: u64, source_ts: u64)
        requires
            old(self).wf(),
        ensures
            final(self).wf(),
            *final(self) == (Source {
                clock: final(self).clock,
                resampler: final(self).resampler,
                ..*old(self)
            }),
            final(self).clock.last_device_ts == Some(device_ts),
            final(self).clock.last_source_ts == Some(source_ts),
            ({
                let accepted = old(self).clock.last_device_ts.is_some()
                    && old(self).clock.last_source_ts.is_some() && device_ts
                    > old(self).clock.last_device_ts.unwrap() && source_ts
                    > old(self).clock.last_source_ts.unwrap();
                if accepted {
                    final(self).clock.smoothed_ratio == crate::clock::spec_smooth_step(
                        old(self).clock.smoothed_ratio as int,
                        crate::clock::spec_raw_ratio(
                            source_ts - old(self).clock.last_source_ts.unwrap(),
                            device_ts - old(self).clock.last_device_ts.unwrap(),
                        ),
                    ) && final(self).resampler == (ResamplerState {
                        ratio: final(self).clock.smoothed_ratio,
                        ..old(self).resampler
                    })
                } else {
                    final(self).clock.smoothed_ratio == old(self).clock.smoothed_ratio
                        && final(self).resampler == old(self).resampler
                }
            }),
    {
        let r = self.clock.submit_feedback(device_ts, source_ts);
        match r {
            Some(smoothed) => {
                self.resampler.set_ratio(smoothed);
            },
            None => {},
        }
    }

    /// Push interleaved samples into this source's ring: as many whole frames
    /// as fit, returning how many were accepted.
    pub fn write_from_slice(&mut self, samples: &Vec<i32>, timestamp_ns: Option<u64>) -> (written:
        usize)
        requires
            old(self).wf(),
        ensures
            final(self).wf(),
            *final(self) == (Source { ring: final(self).ring, ..*old(self) }),
            final(self).ring.contents() == old(self).ring.contents() + crate::sample::frames_of(
                samples@,
            ).take(written as int),
            written == ({
                let fit = crate::ring::ring_accept(
                    old(self).ring.contents().len() as int,
                    old(self).ring.capacity(),
                    samples@.len() as int / 2,
                );
                if samples@.len() / 2 == 0 || fit == 0 || old(self).ring.write_index() + fit
                    > u64::MAX as int {
                    0int
                } else {
                    fit
                }
            }),
            final(self).ring.capacity() == old(self).ring.capacity(),
            final(self).ring.write_index() == old(self).ring.write_index() + written,
            final(self).ring.read_index() == old(self).ring.read_index(),
            written == 0 ==> final(self).ring == old(self).ring,
            written > 0 && timestamp_ns.is_some() ==> final(self).ring.spec_last_timestamp_ns()
                == timestamp_ns.unwrap(),
    {
        self.ring.push(samples, timestamp_ns)
    }

    /// The linear gain, as stored.
    pub fn gain_linear(&self) -> (g: i64)
        ensures
            g == self.gain,
    {
        self.gain
    }

    /// The latency setting the delay line currently reflects.
    pub fn latency_frames(&self) -> (r: i64)
        ensures
            r == self.current_latency_setting,
    {
        self.current_latency_setting
    }

    /// The clock drift estimate in parts per million.
    pub fn drift_ppm(&self) -> (r: i64)
        requires
            self.wf(),
        ensures
            r as int == crate::clock::spec_drift_ppm(self.clock.smoothed_ratio as int),
    {
        self.clock.drift_ppm()
    }

    /// The queued-buffer utilisation in thousandths of full.
    pub fn buffer_fill_permille(&self) -> (r: u32)
        requires
            self.wf(),
        ensures
            r as int == (self.ring.contents().len() * 1000) as int / self.ring.capacity(),
            r <= 1000,
    {
        let avail = self.ring.available_read();
        let cap = self.ring.capacity_frames();
        proof {
            assert((avail as int) * 1000 <= (cap as int) * 1000) by (nonlinear_arith)
                requires
                    0 <= (avail as int) <= (cap as int),
            ;
            vstd::arithmetic::div_mod::lemma_div_is_ordered(
                (avail as int) * 1000,
                (cap as int) * 1000,
                cap as int,
            );
            vstd::arithmetic::div_mod::lemma_div_multiples_vanish(1000, cap as int);
            vstd::arithmetic::div_mod::lemma_div_pos_is_pos((avail as int) * 1000, cap as int);
        }
        (((avail as u64) * 1000) / (cap as u64)) as u32
    }

    /// A level estimate in Q20: the root mean square of the two channels of
    /// the previous block's final frame.
    pub fn rms_estimate(&self) -> (r: i64)
        ensures
            r as int == crate::latency::spec_isqrt(
                ((self.prev_frame.left as int) * (self.prev_frame.left as int)
                    + (self.prev_frame.right as int) * (self.prev_frame.right as int)) / 2,
            ),
    {
        let f = self.prev_frame;
        proof {
            assert(0 <= (f.left as int) * (f.left as int) <= 0x4000000000000000)
                by (nonlinear_arith)
                requires
                    -0x80000000 <= (f.left as int) <= 0x7fffffff,
            ;
            assert(0 <= (f.right as int) * (f.right as int) <= 0x4000000000000000)
                by (nonlinear_arith)
                requires
                    -0x80000000 <= (f.right as int) <= 0x7fffffff,
            ;
        }
        let energy: u128 = (((f.left as i64) * (f.left as i64)) as u128 + ((f.right as i64) * (
        f.right as i64)) as u128) / 2;
        let rms_v: u64 = crate::latency::isqrt_u128(energy);
        proof {
            assert((rms_v as int) < 0x100000000) by (nonlinear_arith)
                requires
                    0 <= (rms_v as int),
                    (rms_v as int) * (rms_v as int) <= 0x4000000000000000,
            ;
        }
        rms_v as i64
    }

    /// Absorb a pending latency request into the delay line.
    pub fn update_latency_state(&mut self)
        requires
            old(self).wf(),
        ensures
            final(self).wf(),
            final(self)@ == spec_update_latency(old(self)@),
            final(self).handle == old(self).handle,
            final(self).clock == old(self).clock,
            final(self).ring == old(self).ring,
            final(self).gain == old(self).gain,
            final(self).mute == old(self).mute,
            final(self).delay_line.capacity == old(self).delay_line.capacity,
    {
        let desired = self.latency_request;
        if desired == self.current_latency_setting {
            return ;
        }
        if desired >= 0 {
            self.delay_line.set_target(desired as usize);
            self.advance_deficit = 0;
        } else {
            let owed: usize = (-desired) as usize;
            self.delay_line.set_target(0);
            let dropped = self.delay_line.drop_frames(owed);
            self.advance_deficit = owed - dropped;
        }
        self.current_latency_setting = desired;
    }

    /// Accumulate this source's next `frames` frames into the output buffer.
    ///
    /// The call never grows any buffer: a muted source returns at once, and a
    /// block whose input demand exceeds the scratch buffer contributes
    /// silence rather than reallocating.
    pub fn mix_into(&mut self, output: &mut Vec<i32>, frames: usize)
        requires
            old(self).wf(),
            old(output)@.len() >= 2 * frames as int,
        ensures
            final(self).wf(),
            final(output)@.len() == old(output)@.len(),
            final(self)@ == spec_mix_step(old(self)@, frames as int).v,
            final(output)@ == mix_output(
                old(output)@,
                spec_mix_step(old(self)@, frames as int).douts,
                old(self).gain as int,
            ),
            final(self).handle == old(self).handle,
            final(self).clock == old(self).clock,
            final(self).gain == old(self).gain,
            final(self).mute == old(self).mute,
            final(self).scratch@.len() == old(self).scratch@.len(),
            final(self).delay_line.capacity == old(self).delay_line.capacity,
            final(self).ring.capacity() == old(self).ring.capacity(),
            final(self).ring.write_index() == old(self).ring.write_index(),
            final(self).ring.spec_last_timestamp_ns() == old(self).ring.spec_last_timestamp_ns(),
            old(self).mute ==> *final(self) == *old(self) && final(output)@ == old(output)@,
    {
        let ghost v0: SourceView = self@;
        if self.mute {
            proof {
                lemma_mix_output_empty(output@, self.gain as int);
            }
            return ;
        }
        self.update_latency_state();
        if self.advance_deficit > 0 {
            let dropped = self.ring.discard(self.advance_deficit);
            self.advance_deficit = self.advance_deficit - dropped;
        } else {
            proof {
                assert(self.ring.contents().skip(0) =~= self.ring.contents());
            }
        }
        let ghost v2: SourceView = self@;
        proof {
            assert(v2 =~= ({
                let v1 = spec_update_latency(v0);
                let rd = if v1.deficit <= v1.ring_q.len() as int {
                    v1.deficit
                } else {
                    v1.ring_q.len() as int
                };
                SourceView { ring_q: v1.ring_q.skip(rd), deficit: v1.deficit - rd, ..v1 }
            }));
        }

        let ratio: u64 = self.resampler.clamped_ratio();
        proof {
            assert((frames as int) * (ratio as int) < 0x10000000000000000 * 0x200000000)
                by (nonlinear_arith)
                requires
                    0 <= (frames as int) < 0x10000000000000000,
                    0 <= (ratio as int) < 0x200000000,
            ;
        }
        let wide: u128 = (frames as u128) * (ratio as u128) + (0xFFFFFFFF as u128);
        let needm1: u128 = wide / (RATIO_ONE as u128);
        let scratch_len: usize = self.scratch.len();
        if needm1 + 2 > scratch_len as u128 {
            proof {
                lemma_mix_output_empty(output@, self.gain as int);
            }
            return ;
        }
        let need: usize = needm1 as usize + 2;

        self.scratch.set(0, self.prev_frame);
        let ghost ring_before_pop: Seq<Frame> = self.ring.contents();
        let ghost scratch_seeded: Seq<Frame> = self.scratch@;
        let popn = self.ring.pop_frames(&mut self.scratch, 1, need - 1);
        let total: usize = 1 + popn;
        proof {
            let scratch2 = seq![v2.prev] + v2.ring_q.take(popn as int) + v2.scratch.skip(
                total as int,
            );
            assert(scratch_seeded.take(1) =~= seq![v2.prev]);
            assert(scratch_seeded.skip(1 + popn as int) =~= v2.scratch.skip(total as int));
            assert(self.scratch@ =~= scratch2);
        }
        let gain: i64 = self.gain;
        let out_len: usize = output.len();
        let ghost s_mid: Source = *self;
        let ghost dq1: Seq<Frame> = self.delay_line@;
        let ghost dcap: int = self.delay_line.capacity as int;
        let ghost dtarget: int = self.delay_line.target_delay as int;
        let ghost out0: Seq<i32> = output@;

        if total < 2 {
            let mut k: usize = 0;
            while k < frames
                invariant
                    0 <= k <= frames,
                    0 <= gain <= GAIN_MAX,
                    gain == s_mid.gain,
                    out0.len() >= 2 * frames as int,
                    out0.len() == out_len as int,
                    output@.len() == out0.len(),
                    s_mid.wf(),
                    *self == (Source { delay_line: self.delay_line, ..s_mid }),
                    self.delay_line.wf(),
                    self.delay_line.capacity as int == dcap,
                    self.delay_line.target_delay as int == dtarget,
                    self.delay_line@ == delay_run_q(dq1, dcap, dtarget, silence_frames(k as int)),
                    output@ == mix_output(
                        out0,
                        delay_run_out(dq1, dcap, dtarget, silence_frames(k as int)),
                        gain as int,
                    ),
                decreases frames - k,
            {
                proof {
                    crate::delay::lemma_delay_run_out_len(
                        dq1,
                        dcap,
                        dtarget,
                        silence_frames(k as int),
                    );
                    crate::delay::lemma_delay_run_snoc(
                        dq1,
                        dcap,
                        dtarget,
                        silence_frames(k as int),
                        Frame::spec_silence(),
                    );
                    assert(silence_frames(k as int).push(Frame::spec_silence()) =~= silence_frames(
                        k as int + 1,
                    ));
                }
                let delayed = self.delay_line.process_frame(Frame::silence());
                let ghost douts_prev: Seq<Frame> = delay_run_out(
                    dq1,
                    dcap,
                    dtarget,
                    silence_frames(k as int),
                );
                let ghost out_prev: Seq<i32> = output@;
                let l = sat_add(output[2 * k], apply_gain(delayed.left, gain));
                let r = sat_add(output[2 * k + 1], apply_gain(delayed.right, gain));
                output.set(2 * k, l);
                output.set(2 * k + 1, r);
                proof {
                    let douts_next = douts_prev.push(delayed);
                    assert(douts_next == delay_run_out(
                        dq1,
                        dcap,
                        dtarget,
                        silence_frames(k as int + 1),
                    ));
                    assert forall|idx: int| 0 <= idx < out0.len() implies output@[idx]
                        == mix_output(out0, douts_next, gain as int)[idx] by {
                        vstd::arithmetic::div_mod::lemma_fundamental_div_mod(idx, 2);
                    };
                    assert(output@ =~= mix_output(out0, douts_next, gain as int));
                }
                k = k + 1;
            }
            proof {
                assert(self@ =~= spec_mix_step(v0, frames as int).v);
                assert(output@ == mix_output(
                    out0,
                    spec_mix_step(v0, frames as int).douts,
                    gain as int,
                ));
            }
            return ;
        }

        let ghost active: Seq<Frame> = self.scratch@.take(total as int);
        let ghost pos0 = ResamplePos { cursor: 0, phase: self.resampler.phase as int };
        let last: usize = total - 1;
        let mut cursor: usize = 0;
        let mut phase: u64 = self.resampler.phase;
        let ghost scratch_after: Seq<Frame> = self.scratch@;
        let mut k: usize = 0;
        while k < frames
            invariant
                0 <= k <= frames,
                0 <= gain <= GAIN_MAX,
                gain == s_mid.gain,
                out0.len() >= 2 * frames as int,
                out0.len() == out_len as int,
                output@.len() == out0.len(),
                s_mid.wf(),
                *self == (Source { delay_line: self.delay_line, ..s_mid }),
                2 <= total <= self.scratch@.len(),
                last == total - 1,
                self.scratch@.len() <= 0x40000000,
                self.scratch@ == scratch_after,
                active == self.scratch@.take(total as int),
                active.len() == total,
                crate::resample::RESAMPLE_RATIO_MIN <= ratio
                    <= crate::resample::RESAMPLE_RATIO_MAX,
                phase < RATIO_ONE,
                cursor <= last,
                (ResamplePos { cursor: cursor as int, phase: phase as int }) == rs_pos_after(
                    total as int,
                    pos0,
                    ratio as int,
                    k as int,
                ),
                self.delay_line.wf(),
                self.delay_line.capacity as int == dcap,
                self.delay_line.target_delay as int == dtarget,
                self.delay_line@ == delay_run_q(
                    dq1,
                    dcap,
                    dtarget,
                    rs_outputs(active, pos0, ratio as int, k as int),
                ),
                output@ == mix_output(
                    out0,
                    delay_run_out(
                        dq1,
                        dcap,
                        dtarget,
                        rs_outputs(active, pos0, ratio as int, k as int),
                    ),
                    gain as int,
                ),
            decreases frames - k,
        {
            let ghost pos_k = ResamplePos { cursor: cursor as int, phase: phase as int };
            let frame: Frame = if cursor >= last {
                Frame::silence()
            } else {
                let fa = self.scratch[cursor];
                let fb = self.scratch[cursor + 1];
                lerp_frame(fa, fb, phase)
            };
            proof {
                assert(frame == rs_out(active, pos_k));
            }
            let p: u64 = phase + ratio;
            let adv: u64 = p / RATIO_ONE;
            proof {
                assert(adv <= 2) by (nonlinear_arith)
                    requires
                        adv == p / RATIO_ONE,
                        p < 3 * RATIO_ONE,
                        RATIO_ONE == 0x100000000u64,
                ;
            }
            let ncursor: usize = cursor + adv as usize;
            cursor = if ncursor <= last {
                ncursor
            } else {
                last
            };
            phase = p % RATIO_ONE;
            proof {
                assert(ResamplePos { cursor: cursor as int, phase: phase as int } == rs_pos_after(
                    total as int,
                    pos0,
                    ratio as int,
                    k as int + 1,
                ));
            }
            proof {
                crate::delay::lemma_delay_run_out_len(
                    dq1,
                    dcap,
                    dtarget,
                    rs_outputs(active, pos0, ratio as int, k as int),
                );
                crate::resample::lemma_rs_outputs_len(active, pos0, ratio as int, k as int);
                crate::delay::lemma_delay_run_snoc(
                    dq1,
                    dcap,
                    dtarget,
                    rs_outputs(active, pos0, ratio as int, k as int),
                    frame,
                );
            }
            let delayed = self.delay_line.process_frame(frame);
            let ghost douts_prev: Seq<Frame> = delay_run_out(
                dq1,
                dcap,
                dtarget,
                rs_outputs(active, pos0, ratio as int, k as int),
            );
            let l = sat_add(output[2 * k], apply_gain(delayed.left, gain));
            let r = sat_add(output[2 * k + 1], apply_gain(delayed.right, gain));
            output.set(2 * k, l);
            output.set(2 * k + 1, r);
            proof {
                let douts_next = douts_prev.push(delayed);
                assert(douts_next == delay_run_out(
                    dq1,
                    dcap,
                    dtarget,
                    rs_outputs(active, pos0, ratio as int, k as int + 1),
                ));
                assert forall|idx: int| 0 <= idx < out0.len() implies output@[idx] == mix_output(
                    out0,
                    douts_next,
                    gain as int,
                )[idx] by {
                    vstd::arithmetic::div_mod::lemma_fundamental_div_mod(idx, 2);
                };
                assert(output@ =~= mix_output(out0, douts_next, gain as int));
            }
            k = k + 1;
        }
        self.resampler.phase = phase;
        let prev = self.scratch[last];
        self.prev_frame = prev;
        proof {
            assert(self@ =~= spec_mix_step(v0, frames as int).v);
        }
    }
}

} // verus!
