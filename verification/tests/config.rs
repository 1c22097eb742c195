use balances_watcher::args::Args;
use balances_watcher::config::back_off_config::{
    get_rpc_backoff, get_token_list_fetcher_backoff, get_ws_reconnect_backoff,
    get_ws_subscription_backoff,
};
use balances_watcher::config::network_config::NetworkConfig;
use balances_watcher::config::ws_pool_config::WsPoolConfig;
use balances_watcher::domain::EvmNetwork;

fn args(interval: &str, limit: &str, clients: &str, permits: &str) -> Args {
    Args {
        bind: "0.0.0.0:8080".to_string(),
        network: EvmNetwork::Gnosis,
        rpc_http_url: "http://node".to_string(),
        rpc_ws_url: "ws://node".to_string(),
        token_list_path: "configs/tokens_list.json".to_string(),
        snapshot_interval: interval.to_string(),
        max_watched_tokens_limit: limit.to_string(),
        max_clients_per_ws_connection: clients.to_string(),
        ws_subscription_permits_count: permits.to_string(),
        allow_private_token_lists: true,
    }
}

#[test]
fn settings_are_read() {
    let args = args("5", "10", "15", "20");
    let network = NetworkConfig::from_args(&args);
    assert_eq!(network.network, EvmNetwork::Gnosis);
    assert_eq!(network.rpc_http_url, "http://node");
    assert_eq!(network.snapshot_interval, 5);
    assert_eq!(network.max_watched_tokens_limit, 10);
    assert!(network.allow_private_token_lists);
    let pool = WsPoolConfig::from_args(&args);
    assert_eq!(pool.ws_url, "ws://node");
    assert_eq!(pool.max_clients_per_ws_connection, 15);
    assert_eq!(pool.subscribe_permits_count, 20);
}

#[test]
fn bad_settings_fall_back_to_defaults() {
    let args = args("soon", "", "-1", "4.0");
    let network = NetworkConfig::from_args(&args);
    assert_eq!(network.snapshot_interval, 60);
    assert_eq!(network.max_watched_tokens_limit, 1500);
    let pool = WsPoolConfig::from_args(&args);
    assert_eq!(pool.max_clients_per_ws_connection, 300);
    assert_eq!(pool.subscribe_permits_count, 40);
}

#[test]
fn backoff_policies() {
    let lists = get_token_list_fetcher_backoff();
    assert_eq!((lists.min_delay_millis, lists.max_delay_millis), (1_000, 3_000));
    assert_eq!(lists.max_times, 3);
    let rpc = get_rpc_backoff();
    assert_eq!((rpc.min_delay_millis, rpc.max_delay_millis), (2_000, 10_000));
    assert_eq!(rpc.max_times, 3);
    let subscription = get_ws_subscription_backoff();
    assert_eq!(
        (subscription.min_delay_millis, subscription.max_delay_millis),
        (1_000, 5_000)
    );
    assert_eq!(subscription.max_times, 5);
    let reconnect = get_ws_reconnect_backoff();
    assert_eq!(
        (reconnect.min_delay_millis, reconnect.max_delay_millis),
        (1_000, 30_000)
    );
    assert_eq!(reconnect.max_times, usize::MAX);
    for policy in [lists, rpc, subscription, reconnect] {
        assert!(policy.jitter);
    }
}
