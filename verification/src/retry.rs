//! The bounded fast-retry policy for transport calls.
//!
//! A fixed schedule of short backoff delays masks sub-50ms transient
//! transport hiccups: an operation is attempted once per schedule slot, a
//! retryable failure waits the slot's delay before the next attempt, and a
//! non-retryable failure or an exhausted schedule surfaces immediately.
//! Longer-horizon retries for application-level failures belong to callers
//! above this layer. The in-process transport finishes each attempt
//! locally, so its retry loops consult the schedule's length; a remote
//! adapter driving the same loops owns the actual waiting.
use vstd::prelude::*;

verus! {

/// How many attempts the schedule allows in total.
pub const RETRY_ATTEMPTS: usize = 3;

/// The backoff delays, in milliseconds, one per retry slot.
pub fn retry_schedule_ms() -> (r: Vec<u64>)
    ensures
        r@ =~= seq![10u64, 20u64, 40u64],
        r@.len() == RETRY_ATTEMPTS,
{
    let mut r: Vec<u64> = Vec::new();
    r.push(10);
    r.push(20);
    r.push(40);
    r
}

} // verus!
