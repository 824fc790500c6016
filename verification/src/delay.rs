//! Fixed-capacity delay line of stereo frames.
//!
//! The delay line imposes a settable non-negative frame delay: each input
//! frame is queued, and once more frames are queued than the target delay the
//! oldest is emitted, so at steady state outputs lag inputs by exactly the
//! target. A starved line emits silence.

use vstd::arithmetic::div_mod::{lemma_fundamental_div_mod, lemma_mod_self_0, lemma_small_mod};
use vstd::prelude::*;

use crate::sample::Frame;

verus! {

/// Smallest capacity a delay line is built with.
pub const MIN_DELAY_CAPACITY: usize = 32;

/// Largest accepted delay-line capacity in frames.
pub const MAX_DELAY_CAPACITY: usize = 0x40000000;

/// Circular buffer of stereo frames with a target delay.
pub struct DelayLine {
    /// Frame storage; slot of queued frame `i` is `(read_idx + i) % capacity`.
    pub buffer: Vec<Frame>,
    /// Capacity in frames; equals the buffer length.
    pub capacity: usize,
    /// Slot of the oldest queued frame.
    pub read_idx: usize,
    /// Slot the next frame is written to.
    pub write_idx: usize,
    /// Number of queued frames.
    pub len: usize,
    /// Number of frames of lag imposed at steady state.
    pub target_delay: usize,
}

/// A queue after one frame is written: the frame is appended, displacing the
/// oldest frame when the buffer is full.
pub open spec fn delay_admit(q: Seq<Frame>, cap: int, f: Frame) -> Seq<Frame> {
    if q.len() < cap {
        q.push(f)
    } else {
        q.skip(1).push(f)
    }
}

/// The frame emitted by one delay-line step.
pub open spec fn delay_step_out(q: Seq<Frame>, cap: int, target: int, f: Frame) -> Frame {
    let p = delay_admit(q, cap, f);
    if p.len() > target {
        p[0]
    } else {
        Frame::spec_silence()
    }
}

/// The queue left by one delay-line step.
pub open spec fn delay_step_q(q: Seq<Frame>, cap: int, target: int, f: Frame) -> Seq<Frame> {
    let p = delay_admit(q, cap, f);
    if p.len() > target {
        p.skip(1)
    } else {
        p
    }
}

/// The frames emitted by a run of delay-line steps.
pub open spec fn delay_run_out(q: Seq<Frame>, cap: int, target: int, inputs: Seq<Frame>) -> Seq<
    Frame,
>
    decreases inputs.len(),
{
    if inputs.len() == 0 {
        Seq::<Frame>::empty()
    } else {
        seq![delay_step_out(q, cap, target, inputs[0])] + delay_run_out(
            delay_step_q(q, cap, target, inputs[0]),
            cap,
            target,
            inputs.skip(1),
        )
    }
}

/// The queue left by a run of delay-line steps.
pub open spec fn delay_run_q(q: Seq<Frame>, cap: int, target: int, inputs: Seq<Frame>) -> Seq<
    Frame,
>
    decreases inputs.len(),
{
    if inputs.len() == 0 {
        q
    } else {
        delay_run_q(delay_step_q(q, cap, target, inputs[0]), cap, target, inputs.skip(1))
    }
}

/// A run emits one frame per input frame.
pub proof fn lemma_delay_run_out_len(q: Seq<Frame>, cap: int, target: int, inputs: Seq<Frame>)
    ensures
        delay_run_out(q, cap, target, inputs).len() == inputs.len(),
    decreases inputs.len(),
{
    if inputs.len() > 0 {
        lemma_delay_run_out_len(delay_step_q(q, cap, target, inputs[0]), cap, target, inputs.skip(1));
    }
}

/// Extending a run by one input appends one step to its outputs and steps
/// its final queue once.
pub proof fn lemma_delay_run_snoc(q: Seq<Frame>, cap: int, target: int, inputs: Seq<Frame>, f: Frame)
    ensures
        delay_run_q(q, cap, target, inputs.push(f)) == delay_step_q(
            delay_run_q(q, cap, target, inputs),
            cap,
            target,
            f,
        ),
        delay_run_out(q, cap, target, inputs.push(f)) == delay_run_out(q, cap, target, inputs).push(
            delay_step_out(delay_run_q(q, cap, target, inputs), cap, target, f),
        ),
    decreases inputs.len(),
{
    if inputs.len() == 0 {
        assert(inputs.push(f)[0] == f);
        assert(inputs.push(f).skip(1) =~= Seq::<Frame>::empty());
        let q1 = delay_step_q(q, cap, target, f);
        assert(delay_run_out(q1, cap, target, inputs.push(f).skip(1)) =~= Seq::<Frame>::empty());
        assert(delay_run_q(q1, cap, target, inputs.push(f).skip(1)) == q1);
        assert(delay_run_out(q, cap, target, inputs.push(f)) =~= seq![
            delay_step_out(q, cap, target, f),
        ]);
        assert(delay_run_out(q, cap, target, inputs) =~= Seq::<Frame>::empty());
        assert(delay_run_out(q, cap, target, inputs.push(f)) =~= delay_run_out(
            q,
            cap,
            target,
            inputs,
        ).push(delay_step_out(delay_run_q(q, cap, target, inputs), cap, target, f)));
    } else {
        assert(inputs.push(f)[0] == inputs[0]);
        assert(inputs.push(f).skip(1) =~= inputs.skip(1).push(f));
        let q1 = delay_step_q(q, cap, target, inputs[0]);
        lemma_delay_run_snoc(q1, cap, target, inputs.skip(1), f);
        assert(delay_run_out(q, cap, target, inputs.push(f)) =~= delay_run_out(
            q,
            cap,
            target,
            inputs,
        ).push(delay_step_out(delay_run_q(q, cap, target, inputs), cap, target, f)));
    }
}

/// Latency insertion: while fewer frames are queued than the target delay,
/// the line emits silence, so after raising the target by `d` the next `d`
/// emitted frames are silent.
pub proof fn lemma_delay_silence_prefix(q: Seq<Frame>, cap: int, target: int, inputs: Seq<Frame>)
    requires
        q.len() <= target,
        target < cap,
    ensures
        forall|i: int|
            0 <= i < target - q.len() && i < inputs.len() ==> delay_run_out(
                q,
                cap,
                target,
                inputs,
            )[i] == Frame::spec_silence(),
    decreases inputs.len(),
{
    if inputs.len() > 0 && q.len() < target {
        let q1 = delay_step_q(q, cap, target, inputs[0]);
        assert(q1 == delay_admit(q, cap, inputs[0]));
        assert(q1.len() == q.len() + 1);
        lemma_delay_silence_prefix(q1, cap, target, inputs.skip(1));
        lemma_delay_run_out_len(q1, cap, target, inputs.skip(1));
        assert forall|i: int|
            0 <= i < target - q.len() && i < inputs.len() implies delay_run_out(
            q,
            cap,
            target,
            inputs,
        )[i] == Frame::spec_silence() by {
            if i > 0 {
                assert(delay_run_out(q, cap, target, inputs)[i] == delay_run_out(
                    q1,
                    cap,
                    target,
                    inputs.skip(1),
                )[i - 1]);
            }
        };
    }
}

/// Steady-state lag: with exactly `target` frames queued, a run emits the
/// inputs of `target` steps earlier, and leaves the most recent `target`
/// frames queued.
pub proof fn lemma_delay_steady_state(q: Seq<Frame>, cap: int, target: int, inputs: Seq<Frame>)
    requires
        q.len() == target,
        0 <= target < cap,
    ensures
        delay_run_out(q, cap, target, inputs) == (q + inputs).take(inputs.len() as int),
        delay_run_q(q, cap, target, inputs) == (q + inputs).skip(inputs.len() as int),
    decreases inputs.len(),
{
    if inputs.len() == 0 {
        assert((q + inputs).take(0) =~= Seq::<Frame>::empty());
        assert((q + inputs).skip(0) =~= q);
    } else {
        let f = inputs[0];
        let p = delay_admit(q, cap, f);
        assert(p == q.push(f));
        assert(delay_step_out(q, cap, target, f) == p[0]);
        assert(p[0] == (q + inputs)[0]);
        let q1 = delay_step_q(q, cap, target, f);
        assert(q1 =~= q.push(f).skip(1));
        assert(q1.len() == target);
        lemma_delay_steady_state(q1, cap, target, inputs.skip(1));
        assert(q1 + inputs.skip(1) =~= (q + inputs).skip(1));
        assert(delay_run_out(q, cap, target, inputs) =~= (q + inputs).take(inputs.len() as int));
        assert(delay_run_q(q, cap, target, inputs) =~= (q + inputs).skip(inputs.len() as int));
    }
}

impl DelayLine {
    /// The queued frames, oldest first.
    pub open spec fn view(&self) -> Seq<Frame> {
        Seq::new(self.len as nat, |i: int| self.buffer@[(self.read_idx + i) % (self.capacity as int)])
    }

    /// Structural invariant: indices below capacity, queue within capacity,
    /// write slot derived from read slot and length.
    pub open spec fn wf(&self) -> bool {
        &&& 1 <= self.capacity <= MAX_DELAY_CAPACITY
        &&& self.buffer@.len() == self.capacity
        &&& self.read_idx < self.capacity
        &&& self.write_idx < self.capacity
        &&& self.len <= self.capacity
        &&& self.target_delay < self.capacity
        &&& self.write_idx as int == (self.read_idx + self.len) % (self.capacity as int)
    }

    /// Create an empty delay line of at least the requested capacity.
    pub fn new(capacity: usize) -> (d: DelayLine)
        requires
            capacity <= MAX_DELAY_CAPACITY,
        ensures
            d.wf(),
            d@ == Seq::<Frame>::empty(),
            d.capacity == if capacity >= MIN_DELAY_CAPACITY {
                capacity as int
            } else {
                MIN_DELAY_CAPACITY as int
            },
            d.target_delay == 0,
    {
        let capacity: usize = if capacity >= MIN_DELAY_CAPACITY {
            capacity
        } else {
            MIN_DELAY_CAPACITY
        };
        let mut buffer: Vec<Frame> = Vec::new();
        while buffer.len() < capacity
            invariant
                buffer@.len() <= capacity,
            decreases capacity - buffer@.len(),
        {
            buffer.push(Frame::silence());
        }
        let d = DelayLine {
            buffer,
            capacity,
            read_idx: 0,
            write_idx: 0,
            len: 0,
            target_delay: 0,
        };
        proof {
            lemma_small_mod(0, capacity as nat);
            assert(d@ =~= Seq::<Frame>::empty());
        }
        d
    }

    /// Set the target delay, clamped below the capacity.
    pub fn set_target(&mut self, frames: usize)
        requires
            old(self).wf(),
        ensures
            final(self).wf(),
            *final(self) == (DelayLine { target_delay: final(self).target_delay, ..*old(self) }),
            final(self).target_delay == if frames as int <= old(self).capacity - 1 {
                frames as int
            } else {
                old(self).capacity - 1
            },
    {
        let cap_minus_one = self.capacity - 1;
        self.target_delay = if frames < cap_minus_one {
            frames
        } else {
            cap_minus_one
        };
    }

    /// Pop up to `frames` queued frames without emitting them.
    pub fn drop_frames(&mut self, frames: usize) -> (dropped: usize)
        requires
            old(self).wf(),
        ensures
            final(self).wf(),
            final(self).capacity == old(self).capacity,
            final(self).target_delay == old(self).target_delay,
            dropped == if frames as int <= old(self)@.len() {
                frames as int
            } else {
                old(self)@.len() as int
            },
            final(self)@ == old(self)@.skip(dropped as int),
    {
        let dropped: usize = if frames < self.len {
            frames
        } else {
            self.len
        };
        let new_read: usize = ((self.read_idx as u64 + dropped as u64) % self.capacity as u64)
            as usize;
        proof {
            lemma_fundamental_div_mod(self.read_idx as int + dropped as int, self.capacity as int);
        }
        self.read_idx = new_read;
        self.len = self.len - dropped;
        proof {
            let cap = self.capacity as int;
            let base = old(self).read_idx as int;
            assert forall|i: int| 0 <= i < self@.len() implies self@[i] == old(self)@.skip(
                dropped as int,
            )[i] by {
                lemma_mod_add_shift(base, dropped as int, i, cap);
            };
            assert(self@ =~= old(self)@.skip(dropped as int));
            lemma_mod_add_shift(base, dropped as int, self.len as int, cap);
        }
        dropped
    }

    /// Write one frame and emit the delayed frame: the oldest queued frame
    /// once the queue is longer than the target delay, silence before that.
    pub fn process_frame(&mut self, frame: Frame) -> (out: Frame)
        requires
            old(self).wf(),
        ensures
            final(self).wf(),
            final(self).capacity == old(self).capacity,
            final(self).target_delay == old(self).target_delay,
            out == delay_step_out(
                old(self)@,
                old(self).capacity as int,
                old(self).target_delay as int,
                frame,
            ),
            final(self)@ == delay_step_q(
                old(self)@,
                old(self).capacity as int,
                old(self).target_delay as int,
                frame,
            ),
    {
        let ghost cap_int: int = self.capacity as int;
        let ghost q0: Seq<Frame> = self@;
        self.buffer.set(self.write_idx, frame);
        self.write_idx = if self.write_idx + 1 == self.capacity {
            0
        } else {
            self.write_idx + 1
        };
        if self.len < self.capacity {
            self.len = self.len + 1;
        } else {
            self.read_idx = if self.read_idx + 1 == self.capacity {
                0
            } else {
                self.read_idx + 1
            };
        }
        proof {
            let old_read = old(self).read_idx as int;
            let old_len = old(self).len as int;
            lemma_wrap_increment(old(self).write_idx as int, cap_int);
            if old(self).len < old(self).capacity {
                assert forall|i: int| 0 <= i < self@.len() implies self@[i] == delay_admit(
                    q0,
                    cap_int,
                    frame,
                )[i] by {
                    if i < old_len {
                        lemma_distinct_delay_residues(old_read, i, old_len, cap_int);
                    }
                };
                assert(self@ =~= delay_admit(q0, cap_int, frame));
                lemma_mod_add_shift(old_read, old_len, 1, cap_int);
                assert(self.write_idx as int == (self.read_idx as int + self.len as int)
                    % cap_int);
            } else {
                lemma_small_mod(old_read as nat, cap_int as nat);
                lemma_mod_multiples_vanish_helper(1, old_read, cap_int);
                assert(old(self).write_idx == old(self).read_idx);
                assert forall|i: int| 0 <= i < self@.len() implies self@[i] == delay_admit(
                    q0,
                    cap_int,
                    frame,
                )[i] by {
                    lemma_wrap_increment(old_read, cap_int);
                    lemma_mod_add_shift(old_read, 1, i, cap_int);
                    if i < cap_int - 1 {
                        lemma_distinct_delay_residues(old_read, 1 + i, 0, cap_int);
                        assert(q0[i + 1] == old(self).buffer@[(old_read + (1 + i)) % cap_int]);
                    } else {
                        lemma_mod_multiples_vanish_helper(1, old_read, cap_int);
                    }
                };
                assert(self@ =~= delay_admit(q0, cap_int, frame));
                lemma_wrap_increment(old_read, cap_int);
                lemma_mod_multiples_vanish_helper(1, self.read_idx as int, cap_int);
                lemma_small_mod(self.read_idx as nat, cap_int as nat);
                assert(self.write_idx as int == (self.read_idx as int + self.len as int)
                    % cap_int);
            }
        }
        let target = self.target_delay;
        if self.len > target {
            let ghost p: Seq<Frame> = self@;
            let ghost read_mid: int = self.read_idx as int;
            let ghost len_mid: int = self.len as int;
            let out = self.buffer[self.read_idx];
            proof {
                lemma_small_mod(self.read_idx as nat, cap_int as nat);
                assert(out == p[0]);
            }
            self.read_idx = if self.read_idx + 1 == self.capacity {
                0
            } else {
                self.read_idx + 1
            };
            self.len = self.len - 1;
            proof {
                lemma_wrap_increment(read_mid, cap_int);
                assert forall|i: int| 0 <= i < self@.len() implies self@[i] == p.skip(1)[i] by {
                    lemma_mod_add_shift(read_mid, 1, i, cap_int);
                };
                assert(self@ =~= p.skip(1));
                lemma_mod_add_shift(read_mid, 1, self.len as int, cap_int);
                assert(self.write_idx as int == (self.read_idx as int + self.len as int)
                    % cap_int);
            }
            out
        } else {
            Frame::silence()
        }
    }
}

/// Stepping an index by one with wraparound equals incrementing modulo the
/// capacity.
proof fn lemma_wrap_increment(i: int, cap: int)
    requires
        0 <= i < cap,
    ensures
        (if i + 1 == cap {
            0int
        } else {
            i + 1
        }) == (i + 1) % cap,
{
    if i + 1 == cap {
        lemma_mod_self_0(cap);
    } else {
        lemma_small_mod((i + 1) as nat, cap as nat);
    }
}

/// Shifting the base of a circular index range: `((base + d) % cap + i) % cap`
/// equals `(base + d + i) % cap`.
proof fn lemma_mod_add_shift(base: int, d: int, i: int, cap: int)
    requires
        cap >= 1,
        base >= 0,
        d >= 0,
        i >= 0,
    ensures
        ((base + d) % cap + i) % cap == (base + d + i) % cap,
{
    let b = (base + d) % cap;
    lemma_fundamental_div_mod(base + d, cap);
    let k = (base + d) / cap;
    assert(base + d + i == cap * k + (b + i));
    lemma_mod_multiples_vanish_helper(k, b + i, cap);
}

/// `(cap * k + x) % cap == x % cap`.
proof fn lemma_mod_multiples_vanish_helper(k: int, x: int, cap: int)
    requires
        cap >= 1,
    ensures
        (cap * k + x) % cap == x % cap,
{
    vstd::arithmetic::div_mod::lemma_mod_multiples_vanish(k, x, cap);
}

/// Distinct offsets below the capacity land on distinct slots.
proof fn lemma_distinct_delay_residues(base: int, o1: int, o2: int, cap: int)
    requires
        cap > 0,
        base >= 0,
        0 <= o1 < cap,
        0 <= o2 < cap,
        o1 != o2,
    ensures
        (base + o1) % cap != (base + o2) % cap,
{
    let x = base + o1;
    let y = base + o2;
    lemma_fundamental_div_mod(x, cap);
    lemma_fundamental_div_mod(y, cap);
    if x % cap == y % cap {
        let k = y / cap - x / cap;
        assert(y - x == cap * k) by (nonlinear_arith)
            requires
                x == cap * (x / cap) + x % cap,
                y == cap * (y / cap) + y % cap,
                x % cap == y % cap,
                k == y / cap - x / cap,
        ;
        assert(-cap < y - x < cap);
        assert(k == 0) by (nonlinear_arith)
            requires
                cap > 0,
                -cap < cap * k < cap,
        ;
        assert(false);
    }
}

} // verus!
