use balances_watcher::domain::EvmNetwork;
use balances_watcher::services::block_watcher::{
    BlockWatcher, StallVerdict, WatcherAction, POST_DISCONNECT_DELAY_MILLIS,
};

#[test]
fn head_at_last_observed_means_idle() {
    assert_eq!(
        BlockWatcher::stall_verdict(100, 100),
        StallVerdict::ChainIdle
    );
}

#[test]
fn head_behind_last_observed_means_idle() {
    // http node briefly behind the ws view, or a reorg to a lower head:
    // neither is evidence the stream is broken
    assert_eq!(
        BlockWatcher::stall_verdict(100, 97),
        StallVerdict::ChainIdle
    );
}

#[test]
fn head_past_last_observed_means_stalled() {
    assert_eq!(
        BlockWatcher::stall_verdict(100, 106),
        StallVerdict::StreamStalled { http_head: 106 }
    );
}

#[test]
fn stall_timeout_is_three_blocks_but_at_least_two_seconds() {
    assert_eq!(BlockWatcher::stall_timeout(12_000), 36_000);
    assert_eq!(BlockWatcher::stall_timeout(667), 2_001);
    assert_eq!(BlockWatcher::stall_timeout(250), 2_000);
    assert_eq!(
        BlockWatcher::stall_timeout(EvmNetwork::Arbitrum.block_time()),
        2_000
    );
}

#[test]
fn check_without_baseline_or_answer_is_unconfirmed() {
    let mut watcher = BlockWatcher::new(EvmNetwork::Eth);
    assert_eq!(watcher.confirm_stall(Some(7)), StallVerdict::Unconfirmed);
    watcher.record_connected(100);
    assert_eq!(watcher.confirm_stall(None), StallVerdict::Unconfirmed);
    assert_eq!(watcher.confirm_stall(Some(100)), StallVerdict::ChainIdle);
}

#[test]
fn idle_chain_stays_healthy_past_stall_timeout() {
    let mut watcher = BlockWatcher::new(EvmNetwork::Arbitrum);
    let awaiting = WatcherAction::AwaitHeader {
        timeout_millis: 2_000,
    };
    assert_eq!(watcher.on_start(false), WatcherAction::Subscribe);
    assert_eq!(watcher.on_subscribe_result(true), awaiting);
    assert!(!watcher.health_status().is_healthy());

    // one header, then silence: every check finds the head where it was
    assert_eq!(
        watcher.record_connected(1),
        WatcherAction::Distribute {
            block: 1,
            timeout_millis: 2_000
        }
    );
    for _ in 0..2 {
        assert_eq!(watcher.on_silence(), WatcherAction::CheckHead);
        assert_eq!(watcher.on_head_checked(Some(1)), awaiting);
        assert!(watcher.health_status().is_healthy());
        assert!(watcher.subscribed);
    }

    // the kept stream is still live
    watcher.record_connected(2);
    assert_eq!(watcher.latest_block(), 2);
    assert!(watcher.health_status().is_healthy());
}

#[test]
fn stalled_stream_is_given_up_and_reconnected() {
    let mut watcher = BlockWatcher::new(EvmNetwork::Eth);
    watcher.on_subscribe_result(true);
    watcher.record_connected(100);
    assert_eq!(watcher.on_silence(), WatcherAction::CheckHead);
    assert_eq!(
        watcher.on_head_checked(Some(106)),
        WatcherAction::Pause {
            millis: POST_DISCONNECT_DELAY_MILLIS
        }
    );
    assert!(!watcher.subscribed);
    assert_eq!(
        watcher.health_status().reason(),
        Some("ws newHeads disconnected (last observed block=100)")
    );
    assert_eq!(watcher.on_start(false), WatcherAction::Subscribe);
    watcher.on_subscribe_result(true);
    // an idle chain is proof enough of being connected
    watcher.on_silence();
    watcher.on_head_checked(Some(100));
    assert!(watcher.health_status().is_healthy());
}

#[test]
fn silence_before_the_first_header_gives_the_stream_up() {
    let mut watcher = BlockWatcher::new(EvmNetwork::Eth);
    watcher.on_subscribe_result(true);
    assert_eq!(watcher.on_silence(), WatcherAction::Pause { millis: 200 });
    assert!(!watcher.subscribed);
}

#[test]
fn unanswered_check_gives_the_stream_up() {
    let mut watcher = BlockWatcher::new(EvmNetwork::Eth);
    watcher.on_subscribe_result(true);
    watcher.record_connected(5);
    watcher.on_silence();
    assert_eq!(
        watcher.on_head_checked(None),
        WatcherAction::Pause { millis: 200 }
    );
    assert!(!watcher.connected);
}

#[test]
fn cancelled_watcher_stops() {
    let mut watcher = BlockWatcher::new(EvmNetwork::Eth);
    assert_eq!(watcher.on_start(true), WatcherAction::Stop);
    assert_eq!(watcher.on_subscribe_result(false), WatcherAction::Stop);
    assert!(!watcher.subscribed);
}

#[test]
fn watcher_is_healthy_while_its_stream_is_alive() {
    let mut watcher = BlockWatcher::new(EvmNetwork::Eth);
    watcher.on_start(false);
    watcher.on_subscribe_result(true);
    // subscribed, but nothing has come yet
    assert!(watcher.subscribed && !watcher.health_status().is_healthy());
    watcher.record_connected(7);
    assert!(watcher.health_status().is_healthy());
    watcher.on_stream_end();
    assert!(!watcher.subscribed && !watcher.health_status().is_healthy());
    watcher.on_start(false);
    watcher.on_subscribe_result(true);
    // the header came before this subscription
    assert!(!watcher.health_status().is_healthy());
    watcher.on_silence();
    watcher.on_head_checked(Some(7));
    assert!(watcher.subscribed && watcher.health_status().is_healthy());
    watcher.on_silence();
    watcher.on_head_checked(Some(8));
    assert!(!watcher.subscribed && !watcher.health_status().is_healthy());
}
