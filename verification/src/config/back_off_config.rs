//! How failed requests are repeated: delays grow from the shortest to the
//! longest, with jitter, for a bounded number of times.
use vstd::prelude::*;

verus! {

#[derive(Clone, Copy, Debug, PartialEq, Eq, Structural)]
pub struct BackoffPolicy {
    pub min_delay_millis: u64,
    pub max_delay_millis: u64,
    /// Repetitions after the first attempt.
    pub max_times: usize,
    pub jitter: bool,
}

/// For token lists.
pub fn get_token_list_fetcher_backoff() -> (policy: BackoffPolicy)
    ensures
        policy == (BackoffPolicy {
            min_delay_millis: 1_000,
            max_delay_millis: 3_000,
            max_times: 3,
            jitter: true,
        }),
{
    BackoffPolicy { min_delay_millis: 1_000, max_delay_millis: 3_000, max_times: 3, jitter: true }
}

/// For balance reads and log queries.
pub fn get_rpc_backoff() -> (policy: BackoffPolicy)
    ensures
        policy == (BackoffPolicy {
            min_delay_millis: 2_000,
            max_delay_millis: 10_000,
            max_times: 3,
            jitter: true,
        }),
{
    BackoffPolicy { min_delay_millis: 2_000, max_delay_millis: 10_000, max_times: 3, jitter: true }
}

/// For log subscriptions on a pooled connection.
pub fn get_ws_subscription_backoff() -> (policy: BackoffPolicy)
    ensures
        policy == (BackoffPolicy {
            min_delay_millis: 1_000,
            max_delay_millis: 5_000,
            max_times: 5,
            jitter: true,
        }),
{
    BackoffPolicy { min_delay_millis: 1_000, max_delay_millis: 5_000, max_times: 5, jitter: true }
}

/// For the connection that follows new heads: it is never given up.
pub fn get_ws_reconnect_backoff() -> (policy: BackoffPolicy)
    ensures
        policy == (BackoffPolicy {
            min_delay_millis: 1_000,
            max_delay_millis: 30_000,
            max_times: usize::MAX,
            jitter: true,
        }),
{
    BackoffPolicy {
        min_delay_millis: 1_000,
        max_delay_millis: 30_000,
        max_times: usize::MAX,
        jitter: true,
    }
}

} // verus!
