use crate::args::Args;
use crate::config::constants::{
    DEFAULT_MAX_CLIENTS_PER_WS_CONNECTION, DEFAULT_WS_SUBSCRIPTION_PERMITS_COUNT,
};
use crate::config::network_config::{number_or, read_number};
use vstd::prelude::*;

verus! {

/// How connections for log listeners are shared.
#[derive(Debug)]
pub struct WsPoolConfig {
    pub ws_url: String,
    /// Listeners that share a connection before another is opened.
    pub max_clients_per_ws_connection: usize,
    /// Subscriptions that may be opened at once.
    pub subscribe_permits_count: usize,
}

impl WsPoolConfig {
    pub fn from_args(args: &Args) -> (config: WsPoolConfig)
        ensures
            config.ws_url@ == args.rpc_ws_url@,
            config.max_clients_per_ws_connection == number_or(
                args.max_clients_per_ws_connection@,
                DEFAULT_MAX_CLIENTS_PER_WS_CONNECTION,
            ),
            config.subscribe_permits_count == number_or(
                args.ws_subscription_permits_count@,
                DEFAULT_WS_SUBSCRIPTION_PERMITS_COUNT,
            ),
    {
        WsPoolConfig {
            ws_url: args.rpc_ws_url.clone(),
            max_clients_per_ws_connection: read_number(
                &args.max_clients_per_ws_connection,
                DEFAULT_MAX_CLIENTS_PER_WS_CONNECTION,
            ),
            subscribe_permits_count: read_number(
                &args.ws_subscription_permits_count,
                DEFAULT_WS_SUBSCRIPTION_PERMITS_COUNT,
            ),
        }
    }
}

} // verus!
