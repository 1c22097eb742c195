//! The service's decisions, one module per subsystem.
pub mod balance_refresh_queue;
pub mod block_watcher;
pub mod calls_queue;
pub mod errors;
pub mod event_dispatcher;
pub mod fetch_balances_via_multicall;
pub mod health;
pub mod ip_literal;
pub mod range_bisect;
pub mod rpc_client;
pub mod session_manager;
pub mod snapshot_updater;
pub mod subscription;
pub mod subscription_manager;
pub mod token_list_fetcher;
pub mod url_guard;
pub mod watcher;
pub mod ws_connection_pool;
