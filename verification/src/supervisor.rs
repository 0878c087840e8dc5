//! The client's retry policy: whether and when to dial again after the
//! engine returns, and when the attempt counter resets.

use vstd::prelude::*;

use crate::config::TimeUnit;

verus! {

/// What the supervisor does after the engine returns with an error.
pub enum RetryDecision {
    /// Give up; the process ends without error.
    Stop,
    /// Sleep for this long, then run the engine again.
    RetryAfter(TimeUnit),
}

/// Decides the next step after an engine error.  With no retry
/// interval configured the supervisor stops at once.  Otherwise the
/// attempt counter goes up by one; when a maximum is configured and
/// now exceeded, the supervisor stops, else it retries after the
/// interval.
pub fn on_engine_error(
    retry_num: &mut usize,
    retry_interval: &Option<TimeUnit>,
    max_retry: &Option<usize>,
) -> (r: RetryDecision)
    requires
        *old(retry_num) < usize::MAX,
    ensures
        match retry_interval {
            None => r is Stop && *final(retry_num) == *old(retry_num),
            Some(t) => {
                &&& *final(retry_num) == *old(retry_num) + 1
                &&& match max_retry {
                    Some(max) => if *old(retry_num) + 1 > *max {
                        r is Stop
                    } else {
                        r == RetryDecision::RetryAfter(*t)
                    },
                    None => r == RetryDecision::RetryAfter(*t),
                }
            },
        },
{
    match retry_interval {
        None => RetryDecision::Stop,
        Some(t) => {
            *retry_num = *retry_num + 1;
            match max_retry {
                Some(max) => {
                    if *retry_num > *max {
                        RetryDecision::Stop
                    } else {
                        RetryDecision::RetryAfter(*t)
                    }
                },
                None => RetryDecision::RetryAfter(*t),
            }
        },
    }
}

/// Resets the attempt counter once a handshake has completed: only
/// consecutive failures count against the maximum.
pub fn on_handshake_complete(retry_num: &mut usize)
    ensures
        *final(retry_num) == 0,
{
    *retry_num = 0;
}

} // verus!
