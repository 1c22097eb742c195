use vstd::prelude::*;

verus! {

/// Events that may wait for a slow client of a subscription.
pub const BROADCAST_CHANNEL_CAPACITY: usize = 256;

/// Seconds between full balance snapshots, unless configured.
pub const DEFAULT_SNAPSHOT_INTERVAL_SECS: usize = 60;

/// Tokens that one session may watch, unless configured.
pub const DEFAULT_MAX_WATCHED_TOKENS_LIMIT: usize = 1500;

/// Sessions that share one connection, unless configured.
pub const DEFAULT_MAX_CLIENTS_PER_WS_CONNECTION: usize = 300;

/// Log subscriptions that may be opened at once, unless configured.
pub const DEFAULT_WS_SUBSCRIPTION_PERMITS_COUNT: usize = 40;

/// How long refresh requests are gathered, in milliseconds.
pub const CALL_QUEUE_DELAY: u64 = 300;

/// How many refresh requests are gathered at most.
pub const MAX_QUEUE_SIZE: usize = 256;

/// Balance reads that may run at once.
pub const MULTICALL_PERMITS_COUNT: usize = 600;

/// Sessions that may watch one wallet on one chain at once. A session is keyed
/// by its client, so this bounds the devices and tabs of a wallet's owner.
pub const MAX_CLIENTS_PER_OWNER: usize = 5;

/// How long a session without clients is kept, in nanoseconds.
pub const SESSION_TTL: u64 = 5_000_000_000;

/// The largest token list that is read, in bytes.
pub const MAX_TOKEN_LIST_RESPONSE_BYTES: usize = 10_485_760;

} // verus!
