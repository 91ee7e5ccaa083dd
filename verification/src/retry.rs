use vstd::prelude::*;

verus! {

/// How long a probe keeps retrying its connection, in milliseconds.
pub const RETRY_TOTAL_MS: u64 = 60_000;

/// The wait before the second attempt, in milliseconds.
pub const RETRY_INITIAL_MS: u64 = 250;

/// The longest wait between two attempts, in milliseconds.
pub const RETRY_MAX_MS: u64 = 1_000;

/// What to do after a failed connection attempt.
#[derive(Debug, Clone, Copy, PartialEq, Eq, Structural)]
pub enum RetryStep {
    /// Report the failure: the retry time is used up.
    GiveUp,
    /// Wait `wait_ms`, try again, and wait `next_delay_ms` after a further failure.
    Wait { wait_ms: u64, next_delay_ms: u64 },
}

/// After a failed attempt made `elapsed_ms` after the first one, with `delay_ms` the current
/// wait: give up once the retry time is used up, else wait and double the wait, up to the
/// longest wait.
pub open spec fn spec_retry_step(elapsed_ms: u64, delay_ms: u64) -> RetryStep {
    if elapsed_ms >= RETRY_TOTAL_MS {
        RetryStep::GiveUp
    } else {
        RetryStep::Wait {
            wait_ms: delay_ms,
            next_delay_ms: if 2 * delay_ms <= RETRY_MAX_MS {
                (2 * delay_ms) as u64
            } else {
                RETRY_MAX_MS
            },
        }
    }
}

/// Decides what follows a failed connection attempt.
pub fn retry_step(elapsed_ms: u64, delay_ms: u64) -> (r: RetryStep)
    ensures
        r == spec_retry_step(elapsed_ms, delay_ms),
{
    if elapsed_ms >= RETRY_TOTAL_MS {
        return RetryStep::GiveUp;
    }
    let next_delay_ms = if delay_ms <= RETRY_MAX_MS / 2 {
        delay_ms * 2
    } else {
        RETRY_MAX_MS
    };
    RetryStep::Wait { wait_ms: delay_ms, next_delay_ms }
}

/// Starting from the initial wait, no wait ever exceeds the longest wait, and the waits never
/// shrink.
pub proof fn lemma_retry_waits_stay_bounded(elapsed_ms: u64, delay_ms: u64)
    requires
        RETRY_INITIAL_MS <= delay_ms <= RETRY_MAX_MS,
    ensures
        spec_retry_step(elapsed_ms, delay_ms) matches RetryStep::Wait { wait_ms, next_delay_ms } ==> {
            &&& wait_ms <= RETRY_MAX_MS
            &&& wait_ms <= next_delay_ms <= RETRY_MAX_MS
            &&& RETRY_INITIAL_MS <= next_delay_ms
        },
{
}

} // verus!
