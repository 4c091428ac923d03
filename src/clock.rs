//! Wall-clock access, kept apart from the logic that consumes timestamps.
use vstd::prelude::*;

verus! {

/// Relies on `std::time::SystemTime::elapsed`, taken from `UNIX_EPOCH`:
/// milliseconds since the Unix epoch, or 0 for a clock set before it. Nothing
/// is promised of the value, which depends on the machine's clock.
#[verifier::external_body]
pub(crate) fn current_time_ms() -> (r: u64) {
    match std::time::UNIX_EPOCH.elapsed() {
        Ok(d) => d.as_millis() as u64,
        Err(_) => 0,
    }
}

} // verus!
