//! The wall clock, behind a trusted wrapper. Every time-dependent store
//! takes the time as an argument; these helpers supply it at the call
//! sites that want the real clock.

use vstd::prelude::*;

verus! {

/// Relies on std's `SystemTime::now`: milliseconds of the system clock
/// since the Unix epoch, zero if the clock reads before the epoch. Nothing
/// further can be promised of a clock reading.
#[verifier::external_body]
pub fn now_millis() -> (r: u64) {
    match std::time::SystemTime::now().duration_since(std::time::UNIX_EPOCH) {
        Ok(d) => d.as_millis() as u64,
        Err(_) => 0,
    }
}

/// Saturating `now + secs * 1000`: the expiry instant for a TTL.
pub open spec fn spec_expiry(now_ms: u64, ttl_secs: u64) -> u64 {
    if now_ms + ttl_secs * 1000 > u64::MAX {
        u64::MAX
    } else {
        (now_ms + ttl_secs * 1000) as u64
    }
}

/// Compute the expiry instant for a TTL, saturating at the largest
/// representable instant.
pub fn expiry(now_ms: u64, ttl_secs: u64) -> (r: u64)
    ensures
        r == spec_expiry(now_ms, ttl_secs),
{
    let prod: u64 = if ttl_secs <= u64::MAX / 1000 {
        ttl_secs * 1000
    } else {
        u64::MAX
    };
    if now_ms <= u64::MAX - prod {
        now_ms + prod
    } else {
        u64::MAX
    }
}

} // verus!
