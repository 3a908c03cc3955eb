//! The retry policy for durability-sensitive I/O, and the clock.
//!
//! Transient I/O failures are retried forever with a growing backoff; the
//! policy here only computes how long the caller should wait before the next
//! attempt. The caller runs the retry loop itself, because sleeping and the
//! retried operations are I/O.

use vstd::prelude::*;

verus! {

/// Base unit of the retry backoff, in nanoseconds.
pub const DEFAULT_BACKOFF: u32 = 1000;

/// Delay before retry `attempt` (counted from 1), in nanoseconds:
/// the attempt index times the fixed base unit.
pub fn next_backoff_nanos(attempt: u32) -> (delay: u64)
    ensures
        delay == attempt * DEFAULT_BACKOFF,
{
    let a = attempt as u64;
    proof {
        assert(a * DEFAULT_BACKOFF <= 0xffff_ffff * 1000) by (nonlinear_arith)
            requires
                a <= 0xffff_ffff,
        ;
    }
    a * (DEFAULT_BACKOFF as u64)
}

/// Relies on std::time::SystemTime::now and duration_since: seconds since the
/// Unix epoch, or 0 if the system clock reads earlier than the epoch. Nothing
/// is assumed about the value; callers state what holds for every reading.
#[verifier::external_body]
pub(crate) fn now_seconds() -> u64 {
    match std::time::SystemTime::now().duration_since(std::time::SystemTime::UNIX_EPOCH) {
        Ok(d) => d.as_secs(),
        Err(_) => 0,
    }
}

} // verus!
