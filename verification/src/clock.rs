//! The one place where the wall clock is read.

use vstd::prelude::*;

verus! {

/// Seconds since the epoch, or zero when the clock reads before it.
///
/// Relies on `std::time::SystemTime::now`; nothing is promised of the value,
/// since it depends on the machine's clock.
#[verifier::external_body]
pub fn now_epoch() -> u64 {
    match std::time::SystemTime::now().duration_since(std::time::UNIX_EPOCH) {
        Ok(d) => d.as_secs(),
        Err(_) => 0,
    }
}

} // verus!
