use crate::domain::evm_network::EvmNetwork;
use vstd::prelude::*;

verus! {

/// What an instance is started with. Numbers are kept as they were written;
/// see the configurations that read them.
#[derive(Debug)]
pub struct Args {
    /// The address to listen on.
    pub bind: String,
    /// The chain this instance serves.
    pub network: EvmNetwork,
    pub rpc_http_url: String,
    pub rpc_ws_url: String,
    pub token_list_path: String,
    pub snapshot_interval: String,
    pub max_watched_tokens_limit: String,
    pub max_clients_per_ws_connection: String,
    pub ws_subscription_permits_count: String,
    /// Whether token lists may be fetched from private hosts.
    pub allow_private_token_lists: bool,
}

} // verus!
