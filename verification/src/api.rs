//! Thin control-surface helpers shared by the console and the host
//! bindings.

use vstd::prelude::*;

use crate::mixer::Mixer;
use crate::SourceHandle;

verus! {

/// Ring capacity used when a caller asks for none.
pub const DEFAULT_RING_CAPACITY: u32 = 4096;

/// Toggle the mute state for the source registered under the given id.
/// Returns whether such a source exists.
pub fn set_mute(mixer: &mut Mixer, source_id: u32, muted: bool) -> (r: bool)
    requires
        old(mixer).wf(),
    ensures
        final(mixer).wf(),
        !r ==> *final(mixer) == *old(mixer) && (forall|j: int|
            0 <= j < old(mixer).sources@.len() ==> old(mixer).sources@[j].handle.id != source_id),
        r ==> exists|i: int|
            0 <= i < old(mixer).sources@.len() && (#[trigger] old(
                mixer,
            ).sources@[i]).handle.id == source_id && final(mixer).sources@ == old(
                mixer,
            ).sources@.update(
                i,
                (crate::source::Source { mute: muted, ..old(mixer).sources@[i] }),
            ),
{
    let r = mixer.set_mute(SourceHandle::new(source_id), muted);
    match r {
        Ok(_) => true,
        Err(_) => false,
    }
}

/// Validate an optional ring capacity: zero is rejected, absence falls back
/// to the default.
pub fn ensure_capacity(capacity: Option<u32>) -> (r: Option<u32>)
    ensures
        r == match capacity {
            Some(0u32) => Option::<u32>::None,
            Some(v) => Some(v),
            None => Some(DEFAULT_RING_CAPACITY),
        },
{
    match capacity {
        Some(0) => None,
        Some(v) => Some(v),
        None => Some(DEFAULT_RING_CAPACITY),
    }
}

} // verus!
