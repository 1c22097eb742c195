use crate::args::Args;
use crate::config::constants::{
    DEFAULT_MAX_WATCHED_TOKENS_LIMIT, DEFAULT_SNAPSHOT_INTERVAL_SECS,
};
use crate::domain::evm_network::EvmNetwork;
use crate::text::{parse_usize, parsed_number};
use vstd::prelude::*;

verus! {

/// The number that `text` holds, or `default` if it holds none.
pub open spec fn number_or(text: Seq<char>, default: usize) -> usize {
    match parsed_number(text, usize::MAX as nat) {
        Some(n) => n as usize,
        None => default,
    }
}

/// Reads a setting. A value that is no number falls back to the default, so
/// that a mistake does not keep an instance from starting.
pub fn read_number(text: &String, default: usize) -> (number: usize)
    ensures
        number == number_or(text@, default),
{
    match parse_usize(text.as_str()) {
        Some(n) => n,
        None => default,
    }
}

/// What an instance serves, and how.
#[derive(Debug)]
pub struct NetworkConfig {
    pub network: EvmNetwork,
    pub rpc_http_url: String,
    /// Seconds between snapshots.
    pub snapshot_interval: usize,
    pub max_watched_tokens_limit: usize,
    /// Whether token lists may be fetched from private hosts. Off in
    /// production.
    pub allow_private_token_lists: bool,
}

impl NetworkConfig {
    pub fn from_args(args: &Args) -> (config: NetworkConfig)
        ensures
            config.network == args.network,
            config.rpc_http_url@ == args.rpc_http_url@,
            config.snapshot_interval == number_or(
                args.snapshot_interval@,
                DEFAULT_SNAPSHOT_INTERVAL_SECS,
            ),
            config.max_watched_tokens_limit == number_or(
                args.max_watched_tokens_limit@,
                DEFAULT_MAX_WATCHED_TOKENS_LIMIT,
            ),
            config.allow_private_token_lists == args.allow_private_token_lists,
    {
        NetworkConfig {
            network: args.network,
            rpc_http_url: args.rpc_http_url.clone(),
            snapshot_interval: read_number(
                &args.snapshot_interval,
                DEFAULT_SNAPSHOT_INTERVAL_SECS,
            ),
            max_watched_tokens_limit: read_number(
                &args.max_watched_tokens_limit,
                DEFAULT_MAX_WATCHED_TOKENS_LIMIT,
            ),
            allow_private_token_lists: args.allow_private_token_lists,
        }
    }
}

/// A setting that reads as a number is that number, and any other is the
/// default.
pub proof fn law_setting_is_its_number_or_the_default(text: Seq<char>, default: usize)
    ensures
        parsed_number(text, usize::MAX as nat) matches Some(n) ==> number_or(text, default) == n,
        parsed_number(text, usize::MAX as nat) is None ==> number_or(text, default) == default,
{
}

} // verus!
