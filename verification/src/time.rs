//! Wall-clock access for trade timestamps.

use vstd::prelude::*;

verus! {

/// Relies on `std::time::SystemTime::now`: the milliseconds elapsed since
/// the Unix epoch, or zero when the clock reads before the epoch.  The
/// reading depends on the machine's clock and on nothing else, so nothing is
/// claimed of the result.
#[verifier::external_body]
pub fn timestamp_millis() -> u128 {
    match std::time::SystemTime::now().duration_since(std::time::UNIX_EPOCH) {
        Ok(elapsed) => elapsed.as_millis(),
        Err(_) => 0,
    }
}

} // verus!
