//! Mixer orchestrator: source registration, control operations, the render
//! entry point, and status snapshots.

use vstd::prelude::*;

use crate::clock::spec_drift_ppm;
use crate::latency::{offset_to_micros, spec_isqrt, spec_offset_micros, LatencyProbe, LatencyReport};
use crate::ring::SharedRingBuffer;
use crate::sample::{frames_of, Frame};
use crate::source::{mix_output, spec_mix_step, Source, SourceView};
use crate::{MixerError, SourceHandle};

verus! {

/// Largest accepted sample rate in Hertz.
pub const MAX_SAMPLE_RATE: u32 = 0x4000000;

/// Largest accepted block size in frames.
pub const MAX_BLOCK_FRAMES: usize = 0x8000000;

/// The mix-path views of a source list.
pub open spec fn views_of(sources: Seq<Source>) -> Seq<SourceView> {
    Seq::new(sources.len(), |i: int| sources[i]@)
}

/// An output buffer with its first `n` samples zeroed.
pub open spec fn zero_prefix(out: Seq<i32>, n: int) -> Seq<i32> {
    Seq::new(
        out.len(),
        |k: int|
            if k < n {
                0i32
            } else {
                out[k]
            },
    )
}

/// The output buffer after every source in the list has accumulated its
/// contribution, in list order.
pub open spec fn spec_mix_all(views: Seq<SourceView>, out: Seq<i32>, frames: int) -> Seq<i32>
    decreases views.len(),
{
    if views.len() == 0 {
        out
    } else {
        mix_output(
            spec_mix_all(views.drop_last(), out, frames),
            spec_mix_step(views.last(), frames).douts,
            views.last().gain,
        )
    }
}

/// Per-source diagnostics exposed to developer tooling.
#[derive(Clone, Copy, Debug, PartialEq, Eq, Structural)]
pub struct SourceStatus {
    /// Numeric identifier of the source.
    pub id: u32,
    /// Linear gain applied to the source (Q20).
    pub gain_linear: i64,
    /// Whether the source is muted.
    pub muted: bool,
    /// Configured latency in frames (positive delays, negative advances).
    pub latency_frames: i64,
    /// Queued-buffer utilisation in thousandths of full.
    pub buffer_fill_permille: u32,
    /// Estimated recent level (Q20), from the final frame of the last block.
    pub rms: i64,
    /// Clock drift estimate in parts per million.
    pub drift_ppm: i64,
}

/// Aggregated mixer status snapshot used by control surfaces.
pub struct MixerStatus {
    /// Current sample rate in Hertz.
    pub sample_rate: u32,
    /// Maximum block size in frames requested by the host.
    pub buffer_frames: usize,
    /// Effective render latency in microseconds based on the block size.
    pub latency_micros: u64,
    /// Average queued-buffer utilisation across sources, in thousandths.
    pub buffer_fill_permille: u32,
    /// Average absolute drift estimate in parts per million.
    pub drift_ppm_abs: u64,
    /// Per-source diagnostics, in registration order.
    pub sources: Vec<SourceStatus>,
}

/// The queued-buffer utilisation of a source, in thousandths of full.
pub open spec fn spec_fill_permille(s: Source) -> int {
    (s.ring.contents().len() * 1000) as int / s.ring.capacity()
}

/// The level estimate of a source, in Q20: the root mean square of the two
/// channels of the final frame of the last block.
pub open spec fn spec_rms(f: Frame) -> int {
    spec_isqrt(((f.left as int) * (f.left as int) + (f.right as int) * (f.right as int)) / 2)
}

/// The diagnostics row of one source.
pub open spec fn spec_source_status(s: Source) -> SourceStatus {
    SourceStatus {
        id: s.handle.id,
        gain_linear: s.gain,
        muted: s.mute,
        latency_frames: s.current_latency_setting,
        buffer_fill_permille: spec_fill_permille(s) as u32,
        rms: spec_rms(s.prev_frame) as i64,
        drift_ppm: spec_drift_ppm(s.clock.smoothed_ratio as int) as i64,
    }
}

/// Sum of the buffer utilisations of the first `n` sources.
pub open spec fn spec_fill_sum(sources: Seq<Source>, n: int) -> int
    decreases n,
{
    if n <= 0 {
        0
    } else {
        spec_fill_sum(sources, n - 1) + spec_fill_permille(sources[n - 1])
    }
}

/// Sum of the absolute drift estimates of the first `n` sources.
pub open spec fn spec_drift_abs_sum(sources: Seq<Source>, n: int) -> int
    decreases n,
{
    if n <= 0 {
        0
    } else {
        let d = spec_drift_ppm(sources[n - 1].clock.smoothed_ratio as int);
        spec_drift_abs_sum(sources, n - 1) + (if d >= 0 {
            d
        } else {
            -d
        })
    }
}

/// Primary mixer struct orchestrating source registration and mixing.
pub struct Mixer {
    /// Sample rate in Hertz.
    pub sample_rate: u32,
    /// Largest block the host renders, in frames.
    pub max_block_frames: usize,
    /// Registered sources, in registration order.
    pub sources: Vec<Source>,
    /// Identifier the next registered source receives.
    pub next_source_id: u32,
    /// Reference-tone latency probe.
    pub latency_probe: LatencyProbe,
}

impl Mixer {
    /// Structural invariant: every source is well formed and bears an
    /// identifier below the next one to be assigned.
    pub open spec fn wf(&self) -> bool {
        &&& 1 <= self.sample_rate <= MAX_SAMPLE_RATE
        &&& self.max_block_frames <= MAX_BLOCK_FRAMES
        &&& self.latency_probe.wf()
        &&& forall|i: int| 0 <= i < self.sources@.len() ==> (#[trigger] self.sources@[i]).wf()
        &&& forall|i: int|
            0 <= i < self.sources@.len() ==> (#[trigger] self.sources@[i]).handle.id
                < self.next_source_id
        &&& self.next_source_id >= 1
    }

    /// Construct a new mixer with no sources and a reference probe of a tenth
    /// of a second at 440 Hz.
    pub fn new(sample_rate: u32, max_block_frames: usize) -> (m: Mixer)
        requires
            1 <= sample_rate <= MAX_SAMPLE_RATE,
            max_block_frames <= MAX_BLOCK_FRAMES,
        ensures
            m.wf(),
            m.sample_rate == sample_rate,
            m.max_block_frames == max_block_frames,
            m.sources@.len() == 0,
            m.next_source_id == 1,
    {
        Mixer {
            sample_rate,
            max_block_frames,
            sources: Vec::new(),
            next_source_id: 1,
            latency_probe: LatencyProbe::new(sample_rate, 440, (sample_rate / 10) as usize),
        }
    }

    /// Register a new source over a freshly allocated ring of the given
    /// capacity, returning its handle.
    pub fn add_source(&mut self, capacity_frames: usize) -> (handle: SourceHandle)
        requires
            old(self).wf(),
            1 <= capacity_frames <= crate::ring::MAX_CAPACITY_FRAMES,
            old(self).next_source_id < u32::MAX,
        ensures
            final(self).wf(),
            handle.id == old(self).next_source_id,
            final(self).next_source_id == old(self).next_source_id + 1,
            final(self).sources@.len() == old(self).sources@.len() + 1,
            final(self).sources@.drop_last() == old(self).sources@,
            final(self).sources@.last().handle == handle,
            final(self).sources@.last().ring.capacity() == capacity_frames,
            final(self).sources@.last().ring.contents() == Seq::<Frame>::empty(),
            final(self).sources@.last().ring.write_index() == 0,
            final(self).sources@.last().ring.read_index() == 0,
            final(self).sources@.last().ring.spec_last_timestamp_ns() == 0,
            final(self).sources@.last().mute == false,
            final(self).sources@.last().gain == crate::sample::GAIN_ONE,
            final(self).sources@.last().latency_request == 0,
            final(self).sources@.last().current_latency_setting == 0,
            final(self).sources@.last().advance_deficit == 0,
            final(self).sources@.last().delay_line@ == Seq::<Frame>::empty(),
            final(self).sources@.last().delay_line.target_delay == 0,
            final(self).sources@.last().resampler.ratio == crate::sample::RATIO_ONE,
            final(self).sources@.last().resampler.phase == 0,
            final(self).sources@.last().clock.smoothed_ratio == crate::sample::RATIO_ONE,
            final(self).sources@.last().clock.last_device_ts.is_none(),
            final(self).sources@.last().clock.last_source_ts.is_none(),
            final(self).sources@.last().prev_frame == Frame::spec_silence(),
            final(self).sources@.last().scratch@.len() == old(self).max_block_frames * 4,
            final(self).sample_rate == old(self).sample_rate,
            final(self).max_block_frames == old(self).max_block_frames,
            final(self).latency_probe == old(self).latency_probe,
    {
        let handle = SourceHandle::new(self.next_source_id);
        self.next_source_id = self.next_source_id + 1;
        let ring = SharedRingBuffer::new_local(capacity_frames, 2);
        let source = Source::new(handle, ring, self.max_block_frames);
        self.sources.push(source);
        proof {
            assert(self.sources@.drop_last() =~= old(self).sources@);
        }
        handle
    }

    /// Register a source backed by a caller-provided ring, returning its
    /// handle.
    pub fn add_external_source(&mut self, ring: SharedRingBuffer) -> (handle: SourceHandle)
        requires
            old(self).wf(),
            ring.wf(),
            old(self).next_source_id < u32::MAX,
        ensures
            final(self).wf(),
            handle.id == old(self).next_source_id,
            final(self).next_source_id == old(self).next_source_id + 1,
            final(self).sources@.len() == old(self).sources@.len() + 1,
            final(self).sources@.drop_last() == old(self).sources@,
            final(self).sources@.last().handle == handle,
            final(self).sources@.last().ring == ring,
            final(self).sources@.last().mute == false,
            final(self).sources@.last().gain == crate::sample::GAIN_ONE,
            final(self).sources@.last().latency_request == 0,
            final(self).sources@.last().current_latency_setting == 0,
            final(self).sources@.last().advance_deficit == 0,
            final(self).sources@.last().delay_line@ == Seq::<Frame>::empty(),
            final(self).sources@.last().delay_line.target_delay == 0,
            final(self).sources@.last().resampler.ratio == crate::sample::RATIO_ONE,
            final(self).sources@.last().resampler.phase == 0,
            final(self).sources@.last().clock.smoothed_ratio == crate::sample::RATIO_ONE,
            final(self).sources@.last().clock.last_device_ts.is_none(),
            final(self).sources@.last().clock.last_source_ts.is_none(),
            final(self).sources@.last().prev_frame == Frame::spec_silence(),
            final(self).sources@.last().scratch@.len() == old(self).max_block_frames * 4,
            final(self).sample_rate == old(self).sample_rate,
            final(self).max_block_frames == old(self).max_block_frames,
            final(self).latency_probe == old(self).latency_probe,
    {
        let handle = SourceHandle::new(self.next_source_id);
        self.next_source_id = self.next_source_id + 1;
        let source = Source::new(handle, ring, self.max_block_frames);
        self.sources.push(source);
        proof {
            assert(self.sources@.drop_last() =~= old(self).sources@);
        }
        handle
    }

    /// The index of the first source bearing the handle, if any.
    fn find_source(&self, handle: SourceHandle) -> (r: Option<usize>)
        ensures
            match r {
                Some(i) => i < self.sources@.len() && self.sources@[i as int].handle == handle
                    && forall|j: int| 0 <= j < i as int ==> self.sources@[j].handle != handle,
                None => forall|j: int|
                    0 <= j < self.sources@.len() ==> self.sources@[j].handle != handle,
            },
    {
        let n = self.sources.len();
        let mut i: usize = 0;
        while i < n
            invariant
                0 <= i <= n,
                n == self.sources@.len(),
                forall|j: int| 0 <= j < i as int ==> self.sources@[j].handle != handle,
            decreases n - i,
        {
            if self.sources[i].handle.id == handle.id {
                proof {
                    assert(self.sources@[i as int].handle == handle);
                }
                return Some(i);
            }
            i = i + 1;
        }
        None
    }

    /// Mix one block into the output buffer.
    ///
    /// A channel count other than two is rejected and nothing is touched. A
    /// zero-frame block renders nothing and succeeds. Otherwise the first
    /// `frames` output frames are zeroed and every source accumulates its
    /// contribution in registration order, and the frame count is returned.
    pub fn process(&mut self, output: &mut Vec<i32>, frames: usize, channels: u32) -> (r: Result<
        usize,
        MixerError,
    >)
        requires
            old(self).wf(),
            channels == 2 ==> old(output)@.len() >= 2 * frames as int,
        ensures
            final(self).wf(),
            final(output)@.len() == old(output)@.len(),
            channels != 2 ==> r == Err::<usize, MixerError>(MixerError::UnsupportedChannels(
                channels,
            )) && *final(self) == *old(self) && final(output)@ == old(output)@,
            channels == 2 && frames == 0 ==> r == Ok::<usize, MixerError>(0usize) && *final(self)
                == *old(self) && final(output)@ == old(output)@,
            channels == 2 && frames > 0 ==> ({
                &&& r == Ok::<usize, MixerError>(frames)
                &&& final(output)@ == spec_mix_all(
                    views_of(old(self).sources@),
                    zero_prefix(old(output)@, 2 * frames as int),
                    frames as int,
                )
                &&& final(self).sources@.len() == old(self).sources@.len()
                &&& forall|i: int|
                    0 <= i < old(self).sources@.len() ==> (#[trigger] final(self).sources@[i])@
                        == spec_mix_step(old(self).sources@[i]@, frames as int).v
                &&& forall|i: int|
                    0 <= i < old(self).sources@.len() ==> (#[trigger] final(self).sources@[i]).handle
                        == old(self).sources@[i].handle && final(self).sources@[i].clock == old(
                        self,
                    ).sources@[i].clock && final(self).sources@[i].gain == old(
                        self,
                    ).sources@[i].gain && final(self).sources@[i].mute == old(
                        self,
                    ).sources@[i].mute
                &&& forall|i: int|
                    0 <= i < old(self).sources@.len()
                        ==> (#[trigger] final(self).sources@[i]).ring.capacity() == old(
                        self,
                    ).sources@[i].ring.capacity()
                        && final(self).sources@[i].ring.write_index() == old(
                        self,
                    ).sources@[i].ring.write_index()
                        && final(self).sources@[i].ring.spec_last_timestamp_ns() == old(
                        self,
                    ).sources@[i].ring.spec_last_timestamp_ns()
                &&& final(self).sample_rate == old(self).sample_rate
                &&& final(self).max_block_frames == old(self).max_block_frames
                &&& final(self).next_source_id == old(self).next_source_id
                &&& final(self).latency_probe == old(self).latency_probe
            }),
    {
        if channels != 2 {
            return Err(MixerError::UnsupportedChannels(channels));
        }
        if frames == 0 {
            return Ok(0);
        }
        let ghost out0: Seq<i32> = output@;
        let out_len: usize = output.len();
        let total_samples: usize = 2 * frames;
        let mut i: usize = 0;
        while i < total_samples
            invariant
                0 <= i <= total_samples,
                output@.len() == out0.len(),
                out0.len() == out_len as int,
                out0.len() >= total_samples,
                forall|k: int| 0 <= k < i as int ==> output@[k] == 0i32,
                forall|k: int| i as int <= k < out0.len() ==> output@[k] == out0[k],
            decreases total_samples - i,
        {
            output.set(i, 0);
            i = i + 1;
        }
        proof {
            assert(output@ =~= zero_prefix(out0, 2 * frames as int));
        }

        let ghost views0 = views_of(old(self).sources@);
        let ghost zeroed: Seq<i32> = output@;
        let n: usize = self.sources.len();
        let mut si: usize = 0;
        while si < n
            invariant
                0 <= si <= n,
                old(self).wf(),
                self.sample_rate == old(self).sample_rate,
                self.max_block_frames == old(self).max_block_frames,
                self.next_source_id == old(self).next_source_id,
                self.latency_probe == old(self).latency_probe,
                n == self.sources@.len(),
                n == old(self).sources@.len(),
                views0 == views_of(old(self).sources@),
                frames > 0,
                output@.len() == zeroed.len(),
                zeroed.len() >= 2 * frames as int,
                forall|i2: int|
                    si as int <= i2 < n ==> (#[trigger] self.sources@[i2]) == old(
                        self,
                    ).sources@[i2],
                forall|i2: int| 0 <= i2 < n ==> (#[trigger] self.sources@[i2]).wf(),
                forall|i2: int|
                    0 <= i2 < si as int ==> (#[trigger] self.sources@[i2])@ == spec_mix_step(
                        views0[i2],
                        frames as int,
                    ).v,
                forall|i2: int|
                    0 <= i2 < si as int ==> (#[trigger] self.sources@[i2]).handle == old(
                        self,
                    ).sources@[i2].handle && self.sources@[i2].clock == old(
                        self,
                    ).sources@[i2].clock && self.sources@[i2].gain == old(
                        self,
                    ).sources@[i2].gain && self.sources@[i2].mute == old(self).sources@[i2].mute,
                forall|i2: int|
                    0 <= i2 < si as int ==> (#[trigger] self.sources@[i2]).ring.capacity() == old(
                        self,
                    ).sources@[i2].ring.capacity() && self.sources@[i2].ring.write_index() == old(
                        self,
                    ).sources@[i2].ring.write_index()
                        && self.sources@[i2].ring.spec_last_timestamp_ns() == old(
                        self,
                    ).sources@[i2].ring.spec_last_timestamp_ns(),
                output@ == spec_mix_all(views0.take(si as int), zeroed, frames as int),
            decreases n - si,
        {
            let ghost sources_pre = self.sources@;
            let mut src: Source = self.sources.remove(si);
            let ghost src_pre: Source = src;
            src.mix_into(output, frames);
            self.sources.insert(si, src);
            proof {
                assert(self.sources@ =~= sources_pre.update(si as int, src));
                assert(src_pre == old(self).sources@[si as int]);
                assert(views0.take(si as int + 1).drop_last() =~= views0.take(si as int));
                assert(views0.take(si as int + 1).last() == views0[si as int]);
                assert(output@ =~= spec_mix_all(views0.take(si as int + 1), zeroed, frames as int));
            }
            si = si + 1;
        }
        proof {
            assert(views0.take(n as int) =~= views0);
        }
        Ok(frames)
    }

    /// Push PCM frames into a source's ring, returning frames written.
    pub fn write_source(
        &mut self,
        handle: SourceHandle,
        frames: &Vec<i32>,
        timestamp_ns: Option<u64>,
    ) -> (r: Result<usize, MixerError>)
        requires
            old(self).wf(),
        ensures
            final(self).wf(),
            r.is_err() ==> r == Err::<usize, MixerError>(MixerError::UnknownSource(handle.id))
                && *final(self) == *old(self) && (forall|j: int|
                0 <= j < old(self).sources@.len() ==> old(self).sources@[j].handle != handle),
            r.is_ok() ==> exists|i: int|
                0 <= i < old(self).sources@.len() && #[trigger] old(self).sources@[i].handle
                    == handle && (forall|j: int|
                    0 <= j < i ==> old(self).sources@[j].handle != handle) && final(self).sources@
                    == old(self).sources@.update(
                    i,
                    (Source {
                        ring: final(self).sources@[i].ring,
                        ..old(self).sources@[i]
                    }),
                ) && final(self).sources@[i].ring.contents() == old(
                    self,
                ).sources@[i].ring.contents() + frames_of(frames@).take(r.unwrap() as int)
                    && r.unwrap() as int == ({
                    let fit = crate::ring::ring_accept(
                        old(self).sources@[i].ring.contents().len() as int,
                        old(self).sources@[i].ring.capacity(),
                        frames@.len() as int / 2,
                    );
                    if frames@.len() / 2 == 0 || fit == 0 || old(
                        self,
                    ).sources@[i].ring.write_index() + fit > u64::MAX as int {
                        0int
                    } else {
                        fit
                    }
                }) && final(self).sources@[i].ring.write_index() == old(
                    self,
                ).sources@[i].ring.write_index() + r.unwrap() && (r.unwrap() > 0
                    && timestamp_ns.is_some()
                    ==> final(self).sources@[i].ring.spec_last_timestamp_ns()
                    == timestamp_ns.unwrap()),
    {
        let found = self.find_source(handle);
        match found {
            Some(i) => {
                let ghost sources_pre = self.sources@;
                let mut src: Source = self.sources.remove(i);
                let written = src.write_from_slice(frames, timestamp_ns);
                self.sources.insert(i, src);
                proof {
                    assert(self.sources@ =~= sources_pre.update(i as int, src));
                }
                Ok(written)
            },
            None => Err(MixerError::UnknownSource(handle.id)),
        }
    }

    /// Push PCM frames into a source's ring with the drop-oldest policy:
    /// frames that do not fit displace the oldest queued frames, so overrun
    /// keeps the most recent audio.
    pub fn write_source_drop_oldest(
        &mut self,
        handle: SourceHandle,
        frames: &Vec<i32>,
        timestamp_ns: Option<u64>,
    ) -> (r: Result<usize, MixerError>)
        requires
            old(self).wf(),
        ensures
            final(self).wf(),
            r.is_err() ==> r == Err::<usize, MixerError>(MixerError::UnknownSource(handle.id))
                && *final(self) == *old(self) && (forall|j: int|
                0 <= j < old(self).sources@.len() ==> old(self).sources@[j].handle != handle),
            r.is_ok() ==> exists|i: int|
                0 <= i < old(self).sources@.len() && #[trigger] old(self).sources@[i].handle
                    == handle && (forall|j: int|
                    0 <= j < i ==> old(self).sources@[j].handle != handle) && final(self).sources@
                    == old(self).sources@.update(
                    i,
                    (Source {
                        ring: final(self).sources@[i].ring,
                        ..old(self).sources@[i]
                    }),
                ) && (old(self).sources@[i].ring.write_index() + frames@.len() as int
                    <= u64::MAX as int ==> final(self).sources@[i].ring.contents()
                    == crate::ring::spec_push_drop_oldest(
                    old(self).sources@[i].ring.contents(),
                    old(self).sources@[i].ring.capacity(),
                    frames_of(frames@),
                ) && r.unwrap() as int == crate::ring::spec_push_drop_oldest_count(
                    old(self).sources@[i].ring.contents(),
                    old(self).sources@[i].ring.capacity(),
                    frames_of(frames@),
                )),
    {
        let found = self.find_source(handle);
        match found {
            Some(i) => {
                let ghost sources_pre = self.sources@;
                let mut src: Source = self.sources.remove(i);
                let written = src.ring.push_drop_oldest(frames, timestamp_ns);
                self.sources.insert(i, src);
                proof {
                    assert(self.sources@ =~= sources_pre.update(i as int, src));
                }
                Ok(written)
            },
            None => Err(MixerError::UnknownSource(handle.id)),
        }
    }

    /// Adjust per-source gain; the stored gain is clamped to the accepted
    /// band.
    pub fn set_gain(&mut self, handle: SourceHandle, gain: i64) -> (r: Result<(), MixerError>)
        requires
            old(self).wf(),
        ensures
            final(self).wf(),
            r.is_err() ==> r == Err::<(), MixerError>(MixerError::UnknownSource(handle.id))
                && *final(self) == *old(self) && (forall|j: int|
                0 <= j < old(self).sources@.len() ==> old(self).sources@[j].handle != handle),
            r.is_ok() ==> exists|i: int|
                0 <= i < old(self).sources@.len() && #[trigger] old(self).sources@[i].handle
                    == handle && final(self).sources@ == old(self).sources@.update(
                    i,
                    (Source { gain: final(self).sources@[i].gain, ..old(self).sources@[i] }),
                ) && final(self).sources@[i].gain == (if gain < 0 {
                    0int
                } else if gain > crate::sample::GAIN_MAX {
                    crate::sample::GAIN_MAX as int
                } else {
                    gain as int
                }),
    {
        let found = self.find_source(handle);
        match found {
            Some(i) => {
                let ghost sources_pre = self.sources@;
                let mut src: Source = self.sources.remove(i);
                src.set_gain(gain);
                self.sources.insert(i, src);
                proof {
                    assert(self.sources@ =~= sources_pre.update(i as int, src));
                }
                Ok(())
            },
            None => Err(MixerError::UnknownSource(handle.id)),
        }
    }

    /// Toggle mute for a source.
    pub fn set_mute(&mut self, handle: SourceHandle, mute: bool) -> (r: Result<(), MixerError>)
        requires
            old(self).wf(),
        ensures
            final(self).wf(),
            r.is_err() ==> r == Err::<(), MixerError>(MixerError::UnknownSource(handle.id))
                && *final(self) == *old(self) && (forall|j: int|
                0 <= j < old(self).sources@.len() ==> old(self).sources@[j].handle != handle),
            r.is_ok() ==> exists|i: int|
                0 <= i < old(self).sources@.len() && #[trigger] old(self).sources@[i].handle
                    == handle && final(self).sources@ == old(self).sources@.update(
                    i,
                    (Source { mute, ..old(self).sources@[i] }),
                ),
    {
        let found = self.find_source(handle);
        match found {
            Some(i) => {
                let ghost sources_pre = self.sources@;
                let mut src: Source = self.sources.remove(i);
                src.set_mute(mute);
                self.sources.insert(i, src);
                proof {
                    assert(self.sources@ =~= sources_pre.update(i as int, src));
                }
                Ok(())
            },
            None => Err(MixerError::UnknownSource(handle.id)),
        }
    }

    /// Configure latency compensation in frames for a source: positive delays
    /// audio, negative advances it.
    pub fn set_latency(&mut self, handle: SourceHandle, frames: i32) -> (r: Result<
        (),
        MixerError,
    >)
        requires
            old(self).wf(),
        ensures
            final(self).wf(),
            r.is_err() ==> r == Err::<(), MixerError>(MixerError::UnknownSource(handle.id))
                && *final(self) == *old(self) && (forall|j: int|
                0 <= j < old(self).sources@.len() ==> old(self).sources@[j].handle != handle),
            r.is_ok() ==> exists|i: int|
                0 <= i < old(self).sources@.len() && #[trigger] old(self).sources@[i].handle
                    == handle && final(self).sources@ == old(self).sources@.update(
                    i,
                    (Source { latency_request: frames as i64, ..old(self).sources@[i] }),
                ),
    {
        let found = self.find_source(handle);
        match found {
            Some(i) => {
                let ghost sources_pre = self.sources@;
                let mut src: Source = self.sources.remove(i);
                src.set_latency(frames as i64);
                self.sources.insert(i, src);
                proof {
                    assert(self.sources@ =~= sources_pre.update(i as int, src));
                }
                Ok(())
            },
            None => Err(MixerError::UnknownSource(handle.id)),
        }
    }

    /// Provide device clock feedback for drift correction of a source.
    pub fn submit_clock_feedback(
        &mut self,
        handle: SourceHandle,
        device_timestamp_ns: u64,
        source_timestamp_ns: u64,
    ) -> (r: Result<(), MixerError>)
        requires
            old(self).wf(),
        ensures
            final(self).wf(),
            r.is_err() ==> r == Err::<(), MixerError>(MixerError::UnknownSource(handle.id))
                && *final(self) == *old(self) && (forall|j: int|
                0 <= j < old(self).sources@.len() ==> old(self).sources@[j].handle != handle),
            r.is_ok() ==> exists|i: int|
                0 <= i < old(self).sources@.len() && #[trigger] old(self).sources@[i].handle
                    == handle && final(self).sources@ == old(self).sources@.update(
                    i,
                    (Source {
                        clock: final(self).sources@[i].clock,
                        resampler: final(self).sources@[i].resampler,
                        ..old(self).sources@[i]
                    }),
                ) && final(self).sources@[i].clock.last_device_ts == Some(device_timestamp_ns)
                    && final(self).sources@[i].clock.last_source_ts == Some(source_timestamp_ns)
                    && ({
                    let c = old(self).sources@[i].clock;
                    let accepted = c.last_device_ts.is_some() && c.last_source_ts.is_some()
                        && device_timestamp_ns > c.last_device_ts.unwrap() && source_timestamp_ns
                        > c.last_source_ts.unwrap();
                    if accepted {
                        final(self).sources@[i].clock.smoothed_ratio
                            == crate::clock::spec_smooth_step(
                            c.smoothed_ratio as int,
                            crate::clock::spec_raw_ratio(
                                source_timestamp_ns - c.last_source_ts.unwrap(),
                                device_timestamp_ns - c.last_device_ts.unwrap(),
                            ),
                        ) && final(self).sources@[i].resampler.ratio
                            == final(self).sources@[i].clock.smoothed_ratio
                    } else {
                        final(self).sources@[i].clock.smoothed_ratio == c.smoothed_ratio
                            && final(self).sources@[i].resampler == old(self).sources@[i].resampler
                    }
                }),
    {
        let found = self.find_source(handle);
        match found {
            Some(i) => {
                let ghost sources_pre = self.sources@;
                let mut src: Source = self.sources.remove(i);
                src.apply_clock_feedback(device_timestamp_ns, source_timestamp_ns);
                self.sources.insert(i, src);
                proof {
                    assert(self.sources@ =~= sources_pre.update(i as int, src));
                }
                Ok(())
            },
            None => Err(MixerError::UnknownSource(handle.id)),
        }
    }

    /// The latency probe.
    pub fn latency_probe(&self) -> (p: &LatencyProbe)
        ensures
            p == self.latency_probe,
    {
        &self.latency_probe
    }

    /// Measure latency of a recording against the probe's reference tone.
    pub fn measure_latency(&self, recorded: &Vec<Frame>) -> (report: LatencyReport)
        requires
            self.wf(),
        ensures
            report.correlation >= 0,
            recorded@.len() == 0 || self.latency_probe.reference@.len() == 0
                ==> report.offset_frames == 0 && report.offset_micros == 0 && report.correlation
                == 0,
            recorded@.len() >= 1 && self.latency_probe.reference@.len() >= 1 && recorded@.len()
                <= self.latency_probe.reference@.len() ==> report.offset_frames == 0
                && report.correlation as int == crate::latency::spec_corr_single(
                self.latency_probe.reference@,
                recorded@,
            ),
            recorded@.len() > self.latency_probe.reference@.len() >= 1 ==> ({
                let max_offset = recorded@.len() as int - self.latency_probe.reference@.len()
                    as int;
                &&& report.offset_frames as int <= max_offset
                &&& forall|o: int|
                    0 <= o <= max_offset ==> crate::latency::spec_corr(
                        self.latency_probe.reference@,
                        recorded@,
                        o,
                    ) <= report.correlation as int
                &&& report.correlation > 0 ==> crate::latency::spec_corr(
                    self.latency_probe.reference@,
                    recorded@,
                    report.offset_frames as int,
                ) == report.correlation as int && (forall|o: int|
                    0 <= o < report.offset_frames as int ==> crate::latency::spec_corr(
                        self.latency_probe.reference@,
                        recorded@,
                        o,
                    ) < report.correlation as int)
                &&& report.correlation == 0 ==> report.offset_frames == 0
                &&& report.offset_micros as int == crate::latency::spec_offset_micros(
                    report.offset_frames as int,
                    self.latency_probe.sample_rate as int,
                )
            }),
    {
        self.latency_probe.measure(recorded)
    }

    /// Take a status snapshot: one diagnostics row per source, in
    /// registration order, with averaged utilisation and drift.
    pub fn status(&self) -> (st: MixerStatus)
        requires
            self.wf(),
        ensures
            st.sample_rate == self.sample_rate,
            st.buffer_frames == self.max_block_frames,
            st.latency_micros as int == spec_offset_micros(
                self.max_block_frames as int,
                self.sample_rate as int,
            ),
            st.sources@.len() == self.sources@.len(),
            forall|i: int|
                0 <= i < self.sources@.len() ==> st.sources@[i] == spec_source_status(
                    #[trigger] self.sources@[i],
                ),
            st.buffer_fill_permille as int == (if self.sources@.len() == 0 {
                0int
            } else {
                spec_fill_sum(self.sources@, self.sources@.len() as int) / self.sources@.len()
                    as int
            }),
            st.drift_ppm_abs as int == (if self.sources@.len() == 0 {
                0int
            } else {
                spec_drift_abs_sum(self.sources@, self.sources@.len() as int)
                    / self.sources@.len() as int
            }),
    {
        let n: usize = self.sources.len();
        let mut rows: Vec<SourceStatus> = Vec::new();
        let mut total_fill: u128 = 0;
        let mut total_drift: u128 = 0;
        let mut i: usize = 0;
        while i < n
            invariant
                0 <= i <= n,
                n == self.sources@.len(),
                self.wf(),
                rows@.len() == i,
                forall|j: int|
                    0 <= j < i as int ==> rows@[j] == spec_source_status(
                        #[trigger] self.sources@[j],
                    ),
                total_fill as int == spec_fill_sum(self.sources@, i as int),
                total_fill as int <= (i as int) * 1000,
                total_drift as int == spec_drift_abs_sum(self.sources@, i as int),
                total_drift as int <= (i as int) * 0x8000000000000000,
            decreases n - i,
        {
            let src: &Source = &self.sources[i];
            let fill: u32 = src.buffer_fill_permille();
            let rms_v: i64 = src.rms_estimate();
            let drift: i64 = src.drift_ppm();
            let row = SourceStatus {
                id: src.handle.id,
                gain_linear: src.gain,
                muted: src.mute,
                latency_frames: src.current_latency_setting,
                buffer_fill_permille: fill,
                rms: rms_v,
                drift_ppm: drift,
            };
            rows.push(row);
            total_fill = total_fill + fill as u128;
            let drift_abs: u64 = if drift >= 0 {
                drift as u64
            } else {
                (-(drift as i128)) as u64
            };
            total_drift = total_drift + drift_abs as u128;
            i = i + 1;
        }
        let avg_fill: u32 = if n == 0 {
            0
        } else {
            proof {
                vstd::arithmetic::div_mod::lemma_div_is_ordered(
                    total_fill as int,
                    (n as int) * 1000,
                    n as int,
                );
                vstd::arithmetic::div_mod::lemma_div_multiples_vanish(1000, n as int);
                vstd::arithmetic::div_mod::lemma_div_pos_is_pos(total_fill as int, n as int);
            }
            (total_fill / (n as u128)) as u32
        };
        let avg_drift: u64 = if n == 0 {
            0
        } else {
            proof {
                vstd::arithmetic::div_mod::lemma_div_is_ordered(
                    total_drift as int,
                    (n as int) * 0x8000000000000000,
                    n as int,
                );
                vstd::arithmetic::div_mod::lemma_div_multiples_vanish(
                    0x8000000000000000,
                    n as int,
                );
                vstd::arithmetic::div_mod::lemma_div_pos_is_pos(total_drift as int, n as int);
            }
            (total_drift / (n as u128)) as u64
        };
        MixerStatus {
            sample_rate: self.sample_rate,
            buffer_frames: self.max_block_frames,
            latency_micros: offset_to_micros(self.max_block_frames, self.sample_rate),
            buffer_fill_permille: avg_fill,
            drift_ppm_abs: avg_drift,
            sources: rows,
        }
    }
}

} // verus!
