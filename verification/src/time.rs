//! Timestamp helpers for stamping producer writes.

use vstd::prelude::*;

verus! {

/// Relies on `std::time::SystemTime::now` / `duration_since`: a nanosecond
/// timestamp from the host clock, used only to stamp pushes when the caller
/// supplies no timestamp. Nothing is promised of the value.
#[verifier::external_body]
pub fn monotonic_timestamp_ns() -> (r: u64) {
    match std::time::SystemTime::now().duration_since(std::time::UNIX_EPOCH) {
        Ok(d) => {
            let n = d.as_nanos();
            if n > u64::MAX as u128 {
                u64::MAX
            } else {
                n as u64
            }
        },
        Err(_) => 0,
    }
}

/// Convert a host time tick count into nanoseconds. On hosts whose tick is
/// already a nanosecond the conversion is the identity.
pub fn host_time_to_ns(host_time: u64) -> (r: u64)
    ensures
        r == host_time,
{
    host_time
}

} // verus!
