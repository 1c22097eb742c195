use balances_watcher::domain::{Address, EvmNetwork, Log, Word};
use balances_watcher::evm::signatures::{deposit_topic, transfer_topic, withdrawal_topic};
use balances_watcher::services::event_dispatcher::{
    DispatcherAction, Erc20TransferEvent, Erc20TransferEventDispatcher, RangeReport,
};
use balances_watcher::services::range_bisect::{FetchOutcome, RangeBisect};

#[test]
fn first_head_fetches_only_that_block() {
    let plan = Erc20TransferEventDispatcher::plan_fetch(0, 100, 30, 10);
    assert_eq!(plan.skipped_blocks, 0);
    assert_eq!(plan.ranges, vec![(100, 100)]);
}

#[test]
fn stale_and_duplicate_heads_are_skipped() {
    assert!(Erc20TransferEventDispatcher::plan_fetch(100, 100, 30, 10)
        .ranges
        .is_empty());
    assert!(Erc20TransferEventDispatcher::plan_fetch(100, 97, 30, 10)
        .ranges
        .is_empty());
}

#[test]
fn next_head_is_a_single_block_range() {
    let plan = Erc20TransferEventDispatcher::plan_fetch(100, 101, 30, 10);
    assert_eq!(plan.skipped_blocks, 0);
    assert_eq!(plan.ranges, vec![(101, 101)]);
}

#[test]
fn small_gap_backfills_from_cursor_in_one_range() {
    let plan = Erc20TransferEventDispatcher::plan_fetch(100, 105, 30, 10);
    assert_eq!(plan.skipped_blocks, 0);
    assert_eq!(plan.ranges, vec![(101, 105)]);
}

#[test]
fn wide_gap_is_chunked_with_remainder() {
    let plan = Erc20TransferEventDispatcher::plan_fetch(100, 125, 30, 10);
    assert_eq!(plan.skipped_blocks, 0);
    assert_eq!(plan.ranges, vec![(101, 110), (111, 120), (121, 125)]);
}

#[test]
fn gap_at_exact_chunk_boundary() {
    let plan = Erc20TransferEventDispatcher::plan_fetch(100, 120, 30, 10);
    assert_eq!(plan.skipped_blocks, 0);
    assert_eq!(plan.ranges, vec![(101, 110), (111, 120)]);
}

#[test]
fn gap_equal_to_cap_backfills_everything() {
    // gap == max_backfill: nothing skipped
    let plan = Erc20TransferEventDispatcher::plan_fetch(100, 130, 30, 10);
    assert_eq!(plan.skipped_blocks, 0);
    assert_eq!(plan.ranges, vec![(101, 110), (111, 120), (121, 130)]);
}

#[test]
fn gap_over_cap_skips_oldest_blocks() {
    // gap = 100, cap = 30: fetch the newest 30 blocks, skip the 70 oldest
    let plan = Erc20TransferEventDispatcher::plan_fetch(100, 200, 30, 10);
    assert_eq!(plan.skipped_blocks, 70);
    assert_eq!(plan.ranges, vec![(171, 180), (181, 190), (191, 200)]);
    let fetched: u64 = plan.ranges.iter().map(|(f, t)| t - f + 1).sum();
    assert_eq!(fetched, 30);
}

#[test]
fn tight_cap_still_fetches_the_head() {
    // mainnet-style cap of 3: only the newest 3 blocks survive the cap
    let plan = Erc20TransferEventDispatcher::plan_fetch(10, 20, 3, 10);
    assert_eq!(plan.skipped_blocks, 7);
    assert_eq!(plan.ranges, vec![(18, 20)]);
}

#[test]
fn drain_folds_queue_into_newest_head_and_counts() {
    let queued = vec![101, 103, 102];
    let (newest, drained) = Erc20TransferEventDispatcher::drain_queued_heads(&queued, 100);
    assert_eq!(newest, 103);
    assert_eq!(drained, 3);
}

#[test]
fn drain_on_empty_queue_keeps_first_head() {
    let queued: Vec<u64> = Vec::new();
    let (newest, drained) = Erc20TransferEventDispatcher::drain_queued_heads(&queued, 100);
    assert_eq!(newest, 100);
    assert_eq!(drained, 0);
}

/// Runs the bisect over a fake provider that rejects ranges for which
/// `reject` returns true and holds one log per block otherwise, collecting the
/// handled logs' block numbers in arrival order.
fn run_bisect(
    from: u64,
    to: u64,
    reject: impl Fn(u64, u64) -> bool,
) -> (Vec<u64>, u64, u64) {
    let mut handled = Vec::new();
    let mut bisect = RangeBisect::new(from, to);
    while let Some((from, to)) = bisect.current() {
        if reject(from, to) {
            bisect.advance(FetchOutcome::Failed);
        } else {
            handled.extend(from..=to);
            bisect.advance(FetchOutcome::Fetched { logs: to - from + 1 });
        }
    }
    (handled, bisect.handled_logs(), bisect.lost_blocks())
}

#[test]
fn bisect_splits_until_provider_accepts() {
    // provider rejects any range wider than 2 blocks
    let (handled, count, lost) = run_bisect(1, 5, |from, to| to - from + 1 > 2);

    assert_eq!(lost, 0);
    assert_eq!(count, 5);
    assert_eq!(handled, vec![1, 2, 3, 4, 5]);
}

#[test]
fn bisect_loses_only_the_block_that_fails_alone() {
    // any range touching block 3 fails; the rest succeeds
    let (handled, count, lost) = run_bisect(1, 5, |from, to| (from..=to).contains(&3));

    assert_eq!(lost, 1);
    assert_eq!(count, 4);
    assert_eq!(handled, vec![1, 2, 4, 5]);
}

#[test]
fn bisect_total_failure_loses_every_block() {
    let (handled, count, lost) = run_bisect(1, 5, |_, _| true);

    assert!(handled.is_empty());
    assert_eq!(count, 0);
    assert_eq!(lost, 5);
}

#[test]
fn bisect_single_block_range_does_not_split() {
    let (handled, count, lost) = run_bisect(7, 7, |from, to| {
        assert_eq!((from, to), (7, 7));
        false
    });

    assert_eq!(lost, 0);
    assert_eq!(count, 1);
    assert_eq!(handled, vec![7]);
}

#[test]
fn bisect_streams_logs_before_the_traversal_completes() {
    // With a provider that rejects ranges wider than 2 blocks, logs of an
    // accepted older subrange must reach the handler before the younger
    // subranges are even fetched.
    let mut events = Vec::new();
    let mut bisect = RangeBisect::new(1, 5);
    while let Some((from, to)) = bisect.current() {
        events.push(format!("fetch {from}-{to}"));
        if to - from + 1 > 2 {
            bisect.advance(FetchOutcome::Failed);
        } else {
            for block in from..=to {
                events.push(format!("handle {block}"));
            }
            bisect.advance(FetchOutcome::Fetched { logs: to - from + 1 });
        }
    }

    assert_eq!(
        events,
        vec![
            "fetch 1-5", // rejected, bisect into 1-3 / 4-5
            "fetch 1-3", // rejected, bisect into 1-2 / 3-3
            "fetch 1-2",
            "handle 1", // streamed before the rest of the traversal
            "handle 2",
            "fetch 3-3",
            "handle 3",
            "fetch 4-5",
            "handle 4",
            "handle 5",
        ]
    );
}

#[test]
fn chunk_never_exceeds_backfill_cap_and_is_at_least_one_block() {
    // A chunk wider than max_block_lag could never be filled: plan_fetch
    // caps the whole backfill below it. Zero would stall the plan loop.
    const ALL_NETWORKS: [EvmNetwork; 11] = [
        EvmNetwork::Eth,
        EvmNetwork::Bnb,
        EvmNetwork::Gnosis,
        EvmNetwork::Polygon,
        EvmNetwork::Base,
        EvmNetwork::Plasma,
        EvmNetwork::Arbitrum,
        EvmNetwork::Avalanche,
        EvmNetwork::Ink,
        EvmNetwork::Linea,
        EvmNetwork::Sepolia,
    ];

    for network in ALL_NETWORKS {
        let chunk = network.backfill_chunk_blocks();
        let name = network.to_text();
        assert!(chunk >= 1, "{name}: zero-width chunk");
        assert!(
            chunk <= network.max_block_lag(),
            "{name}: chunk {chunk} exceeds backfill cap {}",
            network.max_block_lag()
        );
    }
}

#[test]
fn extreme_heads_are_planned_without_overflow() {
    let plan = Erc20TransferEventDispatcher::plan_fetch(u64::MAX - 3, u64::MAX, 30, 2);
    assert_eq!(plan.skipped_blocks, 0);
    assert_eq!(
        plan.ranges,
        vec![(u64::MAX - 2, u64::MAX - 1), (u64::MAX, u64::MAX)]
    );
    let plan = Erc20TransferEventDispatcher::plan_fetch(5, 9, 0, 10);
    assert_eq!(plan.skipped_blocks, 4);
    assert!(plan.ranges.is_empty());
    let plan = Erc20TransferEventDispatcher::plan_fetch(1, 4, 30, u64::MAX);
    assert_eq!(plan.ranges, vec![(2, 4)]);
}

/// Reads every range of the cycle that `heads` start, and returns the ranges.
fn run_cycle(
    dispatcher: &mut Erc20TransferEventDispatcher,
    first: u64,
    queued: &Vec<u64>,
) -> Vec<(u64, u64)> {
    let mut ranges = Vec::new();
    let mut action = dispatcher.on_heads(first, queued).action;
    while let DispatcherAction::FetchRange { from, to } = action {
        ranges.push((from, to));
        let report = dispatcher.on_range_done(0, 0);
        assert_eq!(report.processed_blocks, to - from + 1);
        assert_eq!(report.missed_blocks, 0);
        assert_eq!(dispatcher.latest_processed_block(), to);
        action = report.action;
    }
    assert_eq!(action, DispatcherAction::AwaitHead);
    ranges
}

#[test]
fn cycles_advance_the_cursor_range_by_range() {
    let mut dispatcher = Erc20TransferEventDispatcher::new(EvmNetwork::Polygon);
    assert_eq!(dispatcher.activate(), DispatcherAction::AwaitHead);
    assert_eq!(run_cycle(&mut dispatcher, 100, &vec![]), vec![(100, 100)]);
    assert_eq!(run_cycle(&mut dispatcher, 101, &vec![]), vec![(101, 101)]);
    // heads that queued up are read as one span
    let report = dispatcher.on_heads(102, &vec![103, 113, 107]);
    assert_eq!(report.head, 113);
    assert_eq!(report.drained_heads, 3);
    assert_eq!(report.backfilled_blocks, 11);
    assert_eq!(report.skipped_blocks, 0);
    assert_eq!(
        report.action,
        DispatcherAction::FetchRange { from: 102, to: 111 }
    );
    assert_eq!(
        dispatcher.on_range_done(0, 0),
        RangeReport {
            processed_blocks: 10,
            missed_blocks: 0,
            action: DispatcherAction::FetchRange { from: 112, to: 113 },
        }
    );
    assert_eq!(
        dispatcher.on_range_done(0, 0),
        RangeReport {
            processed_blocks: 2,
            missed_blocks: 0,
            action: DispatcherAction::AwaitHead,
        }
    );
    assert_eq!(dispatcher.lag_behind(120), 7);
    assert_eq!(dispatcher.lag_behind(100), 0);
    // a replayed head does nothing
    let report = dispatcher.on_heads(113, &vec![]);
    assert_eq!(report.action, DispatcherAction::AwaitHead);
    assert_eq!(report.backfilled_blocks, 0);
    assert_eq!(dispatcher.latest_processed_block(), 113);
}

#[test]
fn slow_provider_flips_health_and_drain_recovers_without_restart() {
    let mut dispatcher = Erc20TransferEventDispatcher::new(EvmNetwork::Eth);
    assert_eq!(
        dispatcher.health_status(0).reason(),
        Some("dispatcher not active yet (startup) or shut down")
    );
    dispatcher.activate();
    assert!(dispatcher.health_status(0).is_healthy());
    assert!(dispatcher.health_status(50).is_healthy());
    run_cycle(&mut dispatcher, 100, &vec![]);
    assert!(dispatcher.health_status(103).is_healthy());
    assert_eq!(
        dispatcher.health_status(104).reason(),
        Some("block lag 4 exceeds max 3 (head=104, latest_processed=100)")
    );
    // one drained cycle catches up with the newest three blocks
    let ranges = run_cycle(&mut dispatcher, 101, &vec![102, 103, 104]);
    assert_eq!(ranges, vec![(102, 104)]);
    assert!(dispatcher.health_status(104).is_healthy());
    assert!(dispatcher.health_status(90).is_healthy());
}

#[test]
fn cancelled_dispatcher_is_inactive() {
    let mut dispatcher = Erc20TransferEventDispatcher::new(EvmNetwork::Eth);
    dispatcher.activate();
    assert_eq!(dispatcher.on_heads_closed(), DispatcherAction::Stop);
    assert!(dispatcher.health_status(0).is_healthy());
    assert_eq!(dispatcher.on_cancelled(), DispatcherAction::Stop);
    assert!(!dispatcher.health_status(0).is_healthy());
}

#[test]
fn degraded_provider_backlog_is_bisected_without_losses() {
    let mut dispatcher = Erc20TransferEventDispatcher::new(EvmNetwork::Polygon);
    dispatcher.activate();
    run_cycle(&mut dispatcher, 10, &vec![]);
    let ranges = run_cycle(&mut dispatcher, 11, &vec![12, 13, 14, 15, 16]);
    let widest = ranges.iter().map(|(from, to)| to - from + 1).max().unwrap();
    assert!(widest >= 3);
    let mut blocks = Vec::new();
    for (from, to) in ranges {
        let (handled, _, lost) = run_bisect(from, to, |from, to| to - from + 1 > 2);
        assert_eq!(lost, 0);
        blocks.extend(handled);
    }
    assert_eq!(blocks, vec![11, 12, 13, 14, 15, 16]);
}

#[test]
fn permanently_failing_block_loses_only_itself() {
    let (handled, count, lost) = run_bisect(1, 1_000, |from, to| (from..=to).contains(&777));
    assert_eq!(lost, 1);
    assert_eq!(count, 999);
    assert_eq!(handled.len(), 999);
    assert!(!handled.contains(&777));
    assert!(handled.windows(2).all(|pair| pair[0] < pair[1]));
}

fn log(address: Address, topics: Vec<Word>, block_number: Option<u64>) -> Log {
    Log {
        address,
        topics,
        data: Vec::new(),
        block_number,
    }
}

#[test]
fn transfers_concern_sender_and_receiver() {
    let token = Address { hi: 9, lo: 9 };
    let from = Address { hi: 1, lo: 10 };
    let to = Address { hi: 2, lo: 20 };
    let topics = vec![transfer_topic(), from.into_word(), to.into_word()];
    let events = Erc20TransferEventDispatcher::on_erc20_log(&log(token, topics, Some(5)));
    assert_eq!(
        events,
        vec![
            Erc20TransferEvent {
                owner: from,
                token,
                block: Some(5)
            },
            Erc20TransferEvent {
                owner: to,
                token,
                block: Some(5)
            },
        ]
    );
}

#[test]
fn logs_with_another_number_of_topics_are_no_transfers() {
    let token = Address { hi: 9, lo: 9 };
    let word = Word { hi: 0, lo: 1 };
    for count in [0, 1, 2, 4] {
        let topics = vec![word; count];
        assert!(Erc20TransferEventDispatcher::on_erc20_log(&log(token, topics, None)).is_empty());
    }
}

#[test]
fn wraps_and_unwraps_concern_their_owner() {
    let dispatcher = Erc20TransferEventDispatcher::new(EvmNetwork::Eth);
    let weth9 = EvmNetwork::Eth.weth9_address();
    let owner = Address { hi: 1, lo: 10 };
    for topic in [deposit_topic(), withdrawal_topic()] {
        let wrap = log(weth9, vec![topic, owner.into_word()], Some(8));
        assert_eq!(dispatcher.weth9_owner(&wrap), Some(owner));
        assert_eq!(
            dispatcher.on_weth9_log(&wrap),
            Some(Erc20TransferEvent {
                owner,
                token: weth9,
                block: Some(8)
            })
        );
    }
    let elsewhere = log(owner, vec![deposit_topic(), owner.into_word()], Some(8));
    assert_eq!(dispatcher.on_weth9_log(&elsewhere), None);
    let short = log(weth9, vec![deposit_topic()], Some(8));
    assert_eq!(dispatcher.on_weth9_log(&short), None);
    let other = log(weth9, vec![transfer_topic(), owner.into_word()], Some(8));
    assert_eq!(dispatcher.on_weth9_log(&other), None);
}

#[test]
fn run_ends_at_the_newest_head_and_never_falls_back() {
    let mut dispatcher = Erc20TransferEventDispatcher::new(EvmNetwork::Polygon);
    dispatcher.activate();
    let batches: Vec<(u64, Vec<u64>)> = vec![
        (100, vec![]),
        (99, vec![98]),
        (104, vec![103, 90]),
        (104, vec![]),
        (2, vec![400, 130]),
        (399, vec![400]),
        (401, vec![]),
    ];
    let mut newest = 0;
    for (first, queued) in batches {
        let before = dispatcher.latest_processed_block();
        let head = queued.iter().copied().fold(first, u64::max);
        newest = newest.max(head);
        let ranges = run_cycle(&mut dispatcher, first, &queued);
        assert_eq!(ranges.is_empty(), before != 0 && head <= before);
        let mut cursor = before;
        for (from, to) in ranges {
            assert!(from > cursor);
            cursor = to;
        }
        assert_eq!(dispatcher.latest_processed_block(), newest);
    }
    assert_eq!(newest, 401);
}

#[test]
fn missed_blocks_add_up_over_both_reads() {
    let mut dispatcher = Erc20TransferEventDispatcher::new(EvmNetwork::Polygon);
    dispatcher.activate();
    run_cycle(&mut dispatcher, 100, &vec![]);
    assert_eq!(dispatcher.missed_block_logs(), 0);
    // how many of the bad blocks the read of a range loses
    let lost = |from: u64, to: u64, bad: &[u64]| {
        let mut bisect = RangeBisect::new(from, to);
        while let Some((from, to)) = bisect.current() {
            let refused = bad.iter().any(|block| from <= *block && *block <= to);
            bisect.advance(if refused {
                FetchOutcome::Failed
            } else {
                FetchOutcome::Fetched { logs: 1 }
            });
        }
        bisect.lost_blocks()
    };
    let erc20_bad = [103, 104, 112];
    let weth9_bad = [104];
    let mut action = dispatcher.on_heads(115, &vec![]).action;
    let mut missed = vec![];
    while let DispatcherAction::FetchRange { from, to } = action {
        let report =
            dispatcher.on_range_done(lost(from, to, &erc20_bad), lost(from, to, &weth9_bad));
        missed.push(report.missed_blocks);
        // a range with lost blocks moves the cursor all the same
        assert_eq!(dispatcher.latest_processed_block(), to);
        action = report.action;
    }
    assert_eq!(missed, vec![3, 1]);
    assert_eq!(dispatcher.missed_block_logs(), 4);
    // heads do not change the count
    dispatcher.on_heads(115, &vec![]);
    assert_eq!(dispatcher.missed_block_logs(), 4);
}
