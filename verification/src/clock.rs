//! The current time.
use vstd::prelude::*;

verus! {

/// `SystemTime::now`, as whole seconds since the Unix epoch (0 for a clock
/// set before the epoch). The time is not a function of anything here, so
/// nothing is promised of it.
#[verifier::external_body]
pub(crate) fn now_secs() -> u64 {
    std::time::SystemTime::now().duration_since(std::time::UNIX_EPOCH).map(|d| d.as_secs()).unwrap_or(0)
}

/// `now - then`, or 0 when `then` is later (`saturating_sub`).
pub open spec fn seconds_since(now: u64, then: u64) -> u64 {
    if now >= then {
        (now - then) as u64
    } else {
        0
    }
}

/// `now.saturating_sub(then)`.
pub fn seconds_between(now: u64, then: u64) -> (r: u64)
    ensures
        r == seconds_since(now, then),
{
    now.saturating_sub(then)
}

} // verus!
