//! The wall clock, read in milliseconds since the UNIX epoch.

use vstd::prelude::*;

verus! {

/// Calls `std::time::SystemTime::now().duration_since(UNIX_EPOCH)` and takes
/// the whole milliseconds. The result depends on the clock, so nothing is
/// claimed of it; `None` when the clock reads earlier than the epoch.
#[verifier::external_body]
fn unix_millis() -> Option<u64> {
    std::time::SystemTime::now().duration_since(std::time::UNIX_EPOCH).ok().map(|d| d.as_millis() as u64)
}

/// Milliseconds since the UNIX epoch; 0 when the clock reads before it.
pub fn now_millis() -> u64 {
    match unix_millis() {
        Some(ms) => ms,
        None => 0,
    }
}

} // verus!
