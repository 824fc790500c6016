//! Real-time safe stereo audio mixer core with peer-observable ring buffers.
//!
//! The mixer owns per-source single-producer/single-consumer ring buffers that
//! receive interleaved stereo PCM frames, and performs bounded-work mixing with
//! per-source gain, mute, latency compensation and fractional resampling driven
//! by device clock feedback.
//!
//! Sample amplitudes are fixed-point numbers: an `i32` holds an amplitude
//! scaled by `SAMPLE_ONE` (Q20). Rate ratios and resampler phases are `u64`
//! values scaled by `RATIO_ONE` (Q32). The host-facing glue converts between
//! this representation and the host's native sample format at the boundary.

use vstd::prelude::*;

pub mod api;
pub mod clock;
pub mod console;
pub mod delay;
pub mod latency;
pub mod mixer;
pub mod resample;
pub mod ring;
pub mod sample;
pub mod source;
pub mod time;

verus! {

/// Handle referencing a registered mixer source.
#[derive(Clone, Copy, Debug, PartialEq, Eq, Structural, Hash)]
pub struct SourceHandle {
    pub id: u32,
}

impl SourceHandle {
    /// Wrap a raw source id.
    pub fn new(id: u32) -> (h: SourceHandle)
        ensures
            h.id == id,
    {
        SourceHandle { id }
    }
}

/// Error enumeration surfaced across the public API.
#[derive(Clone, Copy, Debug, PartialEq, Eq, Structural)]
pub enum MixerError {
    /// A mixer reference handed over the host boundary was absent.
    NullMixer,
    /// A source handle referenced an unknown source.
    UnknownSource(u32),
    /// The requested channel configuration is unsupported.
    UnsupportedChannels(u32),
}

} // verus!
