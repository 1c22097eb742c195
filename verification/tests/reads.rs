use alloy::primitives::Address as AlloyAddress;
use balances_watcher::collections::{AddressMap, AddressSet};
use balances_watcher::config::constants::MAX_TOKEN_LIST_RESPONSE_BYTES;
use balances_watcher::domain::{Address, BlockId, EvmNetwork, Log, Session, Token, Word, U256};
use balances_watcher::evm::calldata::{
    address_call, BALANCE_OF_SELECTOR, GET_ETH_BALANCE_SELECTOR,
};
use balances_watcher::evm::signatures::{deposit_topic, transfer_topic, withdrawal_topic};
use balances_watcher::services::balance_refresh_queue::BalanceRefreshQueue;
use balances_watcher::services::calls_queue::{CallsQueue, QueueMessage};
use balances_watcher::services::errors::{FetcherError, ServiceError, SubscriptionError};
use balances_watcher::services::fetch_balances_via_multicall::{
    batch_calls, batch_tokens, collect_balances, fetch_balances_via_multicall, MulticallError,
    SubcallAnswer,
};
use balances_watcher::services::rpc_client::{
    HeadAnswer, MulticallFailure, RpcClient, RpcError, MULTICALL_CHUNK_SIZE,
};
use balances_watcher::services::snapshot_updater::SnapshotAction;
use balances_watcher::services::token_list_fetcher::TokenListFetcher;
use balances_watcher::services::watcher::{
    LogLoop, LogLoopAction, LogLoopEvent, ParseWeb3LogsError, Watcher, WatcherEvent, WethEvents,
};
use balances_watcher::services::ws_connection_pool::{Released, WsConnectionPool, WsPoolError};

fn token(n: u128) -> Address {
    Address { hi: 0, lo: n }
}

fn amount(n: u128) -> U256 {
    U256 { hi: 0, lo: n }
}

fn word_bytes(number: U256) -> Vec<u8> {
    let mut bytes = number.hi.to_be_bytes().to_vec();
    bytes.extend(number.lo.to_be_bytes());
    bytes
}

fn sorted(mut tokens: Vec<Address>) -> Vec<Address> {
    tokens.sort_by_key(|address| (address.hi, address.lo));
    tokens
}

fn sorted_set(set: &AddressSet) -> Vec<Address> {
    sorted(set.to_list())
}

#[test]
fn requests_are_coalesced_by_token() {
    let batch = vec![
        (token(1), Some(5)),
        (token(2), Some(9)),
        (token(1), Some(7)),
        (token(1), Some(6)),
    ];
    let blocks = BalanceRefreshQueue::coalesce_by_token(&batch);
    assert_eq!(blocks.get(&token(1)), Some(&Some(7)));
    assert_eq!(blocks.get(&token(2)), Some(&Some(9)));
    assert_eq!(blocks.get(&token(3)), None);
    let (tokens, at) = BalanceRefreshQueue::plan_batch(&batch);
    assert_eq!(sorted(tokens), vec![token(1), token(2)]);
    assert_eq!(at, BlockId::Number(9));
}

#[test]
fn request_without_a_block_wants_the_latest() {
    for batch in [
        vec![(token(1), Some(5)), (token(1), None)],
        vec![(token(1), None), (token(1), Some(5))],
        vec![(token(2), Some(5)), (token(1), None)],
        vec![(token(1), Some(0))],
        vec![],
    ] {
        let (_, at) = BalanceRefreshQueue::plan_batch(&batch);
        assert_eq!(at, BlockId::Latest, "{batch:?}");
    }
}

#[test]
fn simple_queue_takes_the_newest_block() {
    let batch = vec![
        (token(1), None),
        (token(2), Some(9)),
        (token(1), Some(7)),
        (token(2), None),
    ];
    let newest = CallsQueue::fold_batch_vec_to_token_map(&batch);
    assert_eq!(newest.get(&token(1)), Some(&7));
    assert_eq!(newest.get(&token(2)), Some(&9));
    let (tokens, at) = CallsQueue::plan_batch(&newest);
    assert_eq!(sorted(tokens), vec![token(1), token(2)]);
    assert_eq!(at, BlockId::Number(9));
    let newest = CallsQueue::fold_batch_vec_to_token_map(&vec![(token(1), None)]);
    let (tokens, at) = CallsQueue::plan_batch(&newest);
    assert_eq!(tokens, vec![token(1)]);
    assert_eq!(at, BlockId::Latest);
}

#[test]
fn outcomes_are_reported() {
    let message = CallsQueue::report(Ok((AddressMap::new(), 3)));
    assert!(matches!(message, QueueMessage::Success((_, 3))));
    let error = MulticallError::ProviderExhausted.into_service_error();
    match CallsQueue::report(Err(error)) {
        QueueMessage::Error(error) => assert_eq!(
            error.to_text(),
            "Error getting balances from multicall: Provider exhausted with retries"
        ),
        other => panic!("{other:?}"),
    }
}

#[test]
fn tokens_are_sorted_in_byte_order() {
    let tokens = vec![
        Address { hi: 2, lo: 0 },
        Address { hi: 1, lo: 9 },
        Address { hi: 1, lo: 3 },
        Address { hi: 2, lo: 0 },
    ];
    let expected = vec![
        Address { hi: 1, lo: 3 },
        Address { hi: 1, lo: 9 },
        Address { hi: 2, lo: 0 },
        Address { hi: 2, lo: 0 },
    ];
    assert_eq!(RpcClient::sorted_tokens(&tokens), expected);
}

#[test]
fn snapshots_are_cut_into_chunks() {
    let tokens: Vec<Address> = (0..1_203u128).rev().map(token).collect();
    let chunks = RpcClient::token_chunks(&tokens);
    let sizes: Vec<usize> = chunks.iter().map(|chunk| chunk.len()).collect();
    assert_eq!(sizes, vec![MULTICALL_CHUNK_SIZE, MULTICALL_CHUNK_SIZE, 203]);
    let expected: Vec<Address> = (0..1_203u128).map(token).collect();
    assert_eq!(chunks.concat(), expected);
    assert!(RpcClient::token_chunks(&Vec::new()).is_empty());
    let exact: Vec<Address> = (0..500u128).map(token).collect();
    assert_eq!(RpcClient::token_chunks(&exact).len(), 1);
}

#[test]
fn answers_are_paired_by_place() {
    let tokens = vec![token(1), token(2), token(3)];
    let answers = vec![Some(amount(10)), None];
    let (balances, failed) = RpcClient::map_balance_result(&tokens, &answers);
    assert_eq!(balances.get(&token(1)), Some(&amount(10)));
    assert_eq!(balances.get(&token(2)), None);
    assert_eq!(balances.get(&token(3)), None);
    assert_eq!(failed, 2);
    let outcome = RpcClient::fetch_balances_via_multicall(&tokens, Ok((77, answers)));
    let ((balances, block), failed) = outcome.unwrap();
    assert_eq!((balances.entries().len(), block, failed), (1, 77, 2));
    let outcome = RpcClient::fetch_balances_via_multicall(&tokens, Err("gone".to_string()));
    assert_eq!(
        outcome.unwrap_err().to_text(),
        "Provider exhausted after retries: gone"
    );
}

#[test]
fn head_checks() {
    assert!(matches!(
        RpcClient::latest_block_number(HeadAnswer::Number(8)),
        Ok(8)
    ));
    let failed = RpcClient::latest_block_number(HeadAnswer::Failed("no".to_string()));
    assert_eq!(
        failed.unwrap_err().to_text(),
        "Provider exhausted after retries: no"
    );
    let late = RpcClient::latest_block_number(HeadAnswer::TimedOut);
    assert_eq!(
        late.unwrap_err().to_text(),
        "Provider exhausted after retries: eth_blockNumber timed out after 3s"
    );
}

#[test]
fn only_failures_on_the_way_are_retried() {
    let on_the_way = MulticallFailure::Transport {
        has_revert_data: false,
    };
    assert!(RpcClient::is_multicall_retryable(&on_the_way));
    for failure in [
        MulticallFailure::Transport {
            has_revert_data: true,
        },
        MulticallFailure::Decode,
        MulticallFailure::NoReturnData,
        MulticallFailure::CallFailed,
        MulticallFailure::ValueTx,
    ] {
        assert!(!RpcClient::is_multicall_retryable(&failure));
    }
    assert_eq!(RpcClient::backoff().max_times, 3);
}

#[test]
fn log_filters() {
    let filter = RpcClient::transfer_logs_in_range(3, 9);
    assert_eq!((filter.from_block, filter.to_block), (Some(3), Some(9)));
    assert_eq!(filter.address, None);
    assert_eq!(filter.signatures, vec![transfer_topic()]);
    assert_eq!(filter.topic1, None);
    let filter = RpcClient::weth9_logs_in_range(token(4), 3, 9);
    assert_eq!((filter.from_block, filter.to_block), (Some(3), Some(9)));
    assert_eq!(filter.address, Some(token(4)));
    assert_eq!(filter.signatures, vec![deposit_topic(), withdrawal_topic()]);
    assert_eq!(filter.topic1, None);
}

#[test]
fn batch_asks_for_every_token_and_the_native_balance() {
    let native = EvmNetwork::Eth.native_token_address();
    let erc20 = batch_tokens(&vec![token(9), native, token(2)], native);
    assert_eq!(erc20, vec![token(2), token(9)]);
    let owner = Address { hi: 7, lo: 7 };
    let multicall3 = Address { hi: 8, lo: 8 };
    let calls = batch_calls(&erc20, owner, multicall3);
    assert_eq!(calls.len(), 3);
    assert_eq!(calls[0].target, token(2));
    assert_eq!(calls[1].target, token(9));
    assert_eq!(calls[2].target, multicall3);
    assert_eq!(calls[1].call_data, address_call(BALANCE_OF_SELECTOR, owner));
    assert_eq!(
        calls[2].call_data,
        address_call(GET_ETH_BALANCE_SELECTOR, owner)
    );
}

fn answered(success: bool, return_data: Vec<u8>) -> SubcallAnswer {
    SubcallAnswer {
        success,
        return_data,
    }
}

#[test]
fn balances_are_decoded() {
    let native = EvmNetwork::Eth.native_token_address();
    let large = U256 {
        hi: 0x0102_0304,
        lo: u128::MAX - 1,
    };
    let mut with_tail = word_bytes(large);
    with_tail.extend([0xff; 32]);
    let answers = vec![
        answered(true, word_bytes(amount(5))),
        answered(true, with_tail),
        answered(true, vec![0; 31]),
        answered(false, word_bytes(amount(6))),
    ];
    let erc20 = vec![token(1), token(2), token(3)];
    let balances = collect_balances(&erc20, native, &answers).unwrap();
    assert_eq!(balances.get(&token(1)), Some(&amount(5)));
    assert_eq!(balances.get(&token(2)), Some(&large));
    assert_eq!(balances.get(&token(3)), None);
    assert_eq!(balances.get(&native), Some(&amount(6)));
}

#[test]
fn batch_fails_as_a_whole() {
    let native = EvmNetwork::Eth.native_token_address();
    let text = "0xd8da6bf26964af9d7eed9e03e53415d37aa96045";
    let bytes: [u8; 20] = text.parse::<AlloyAddress>().unwrap().into_array();
    let checked = Address {
        hi: u32::from_be_bytes(bytes[..4].try_into().unwrap()),
        lo: u128::from_be_bytes(bytes[4..].try_into().unwrap()),
    };
    let erc20 = vec![token(1), checked];
    let failure = |answers: Vec<SubcallAnswer>| match collect_balances(&erc20, native, &answers) {
        Err(ServiceError::BalancesMultiCallError(text)) => text,
        other => panic!("{other:?}"),
    };
    assert_eq!(
        failure(vec![
            answered(true, word_bytes(amount(1))),
            answered(false, vec![1, 2, 3]),
            answered(true, word_bytes(amount(1))),
        ]),
        "multicall3 subcall failed: token=0xd8dA6BF26964aF9D7eEd9e03E53415D37aA96045, index=1, \
         return_data_len=3"
    );
    assert_eq!(
        failure(vec![answered(true, word_bytes(amount(1)))]),
        "multicall: missing response at index={i} for token={token}"
    );
    assert_eq!(
        failure(vec![
            answered(true, word_bytes(amount(1))),
            answered(true, word_bytes(amount(1))),
        ]),
        "multicall3: missing response at index={i} for token={token}"
    );
}

#[test]
fn batch_reply_gives_balances_and_block_or_fails() {
    let native = EvmNetwork::Eth.native_token_address();
    let erc20 = vec![token(1)];
    let block = U256 { hi: 7, lo: 9 };
    let reply = Ok((
        block,
        vec![
            answered(true, word_bytes(amount(5))),
            answered(true, word_bytes(amount(6))),
        ],
    ));
    let (balances, read_at) = fetch_balances_via_multicall(&erc20, native, reply).unwrap();
    assert_eq!(read_at, block);
    assert_eq!(balances.entries().len(), 2);
    assert_eq!(balances.get(&token(1)), Some(&amount(5)));
    assert_eq!(balances.get(&native), Some(&amount(6)));

    let failure = |reply| match fetch_balances_via_multicall(&erc20, native, reply) {
        Err(ServiceError::BalancesMultiCallError(text)) => text,
        other => panic!("{other:?}"),
    };
    assert_eq!(
        failure(Err(MulticallError::ProviderExhausted)),
        "Provider exhausted with retries"
    );
    assert_eq!(
        failure(Ok((block, vec![]))),
        "multicall: missing response at index={i} for token={token}"
    );
}

#[test]
fn lists_are_filtered_by_chain() {
    let fetcher = TokenListFetcher::new(EvmNetwork::Gnosis);
    let entry = |n: u128, chain_id: u64| Token {
        address: token(n),
        chain_id,
    };
    let list = vec![entry(1, 100), entry(2, 1), entry(3, 100), entry(1, 100)];
    let set = fetcher
        .fetch_list_and_filter_by_chain("http://lists/1", Ok(list))
        .unwrap();
    assert_eq!(sorted_set(&set), vec![token(1), token(3)]);
    let error = fetcher
        .fetch_list_and_filter_by_chain("http://lists/1", Err("timeout".to_string()))
        .unwrap_err();
    assert_eq!(
        error.to_text(),
        "Unable to load token list, url: http://lists/1, error: timeout"
    );
}

#[test]
fn lists_are_merged_or_fail_together() {
    let list = |tokens: &[u128]| {
        let tokens: Vec<Address> = tokens.iter().map(|n| token(*n)).collect();
        Ok(AddressSet::from_list(&tokens))
    };
    let failed = |url: &str| {
        Err(FetcherError::UnableToLoadList(
            url.to_string(),
            "timeout".to_string(),
        ))
    };
    let merged = TokenListFetcher::get_tokens(vec![list(&[1, 2]), list(&[2, 3])]).unwrap();
    assert_eq!(sorted_set(&merged), vec![token(1), token(2), token(3)]);
    assert!(TokenListFetcher::get_tokens(vec![]).unwrap().is_empty());
    let error =
        TokenListFetcher::get_tokens(vec![list(&[1]), failed("a"), list(&[2]), failed("b")]);
    match error {
        Err(FetcherError::UnableToLoadList(url, _)) => assert_eq!(url, "a"),
        Ok(_) => panic!("no error"),
    }
}

#[test]
fn oversized_token_list_response_is_rejected() {
    let url = "http://127.0.0.1:80/huge.json";
    assert!(TokenListFetcher::check_response_size(url, MAX_TOKEN_LIST_RESPONSE_BYTES).is_ok());
    let refused = TokenListFetcher::check_response_size(url, MAX_TOKEN_LIST_RESPONSE_BYTES + 1);
    assert_eq!(
        refused.unwrap_err().to_text(),
        "Unable to load token list, url: http://127.0.0.1:80/huge.json, error: response is too \
         large"
    );
}

#[test]
fn connections_are_shared_up_to_capacity() {
    let mut pool = WsConnectionPool::new(2);
    assert_eq!(pool.acquire(), None);
    pool.add_connection(10);
    assert_eq!(pool.acquire(), Some(10));
    assert_eq!(pool.acquire(), None);
    pool.add_connection(11);
    assert_eq!(pool.len(), 2);
    assert_eq!(pool.acquire(), Some(11));
    assert_eq!(pool.release(10), Released::Kept);
    assert_eq!(pool.acquire(), Some(10));
    assert_eq!(pool.release(10), Released::Kept);
    assert_eq!(pool.release(10), Released::Closed);
    assert_eq!(pool.release(10), Released::Unknown);
    assert_eq!(pool.len(), 1);
    assert_eq!(WsConnectionPool::create_ws_sub_backoff().max_times, 5);
}

fn watcher() -> Watcher {
    Watcher::new(Session {
        owner: Address { hi: 1, lo: 2 },
        network: EvmNetwork::Eth,
        client_id: 3,
    })
}

fn weth_log(topics: Vec<Word>, data_len: usize) -> Log {
    Log {
        address: EvmNetwork::Eth.weth9_address(),
        topics,
        data: vec![0; data_len],
        block_number: Some(40),
    }
}

#[test]
fn weth_logs_are_parsed() {
    let owner = Address { hi: 1, lo: 2 }.into_word();
    let weth9 = EvmNetwork::Eth.weth9_address();
    let deposit = weth_log(vec![deposit_topic(), owner], 32);
    let withdrawal = weth_log(vec![withdrawal_topic(), owner], 64);
    let short = weth_log(vec![deposit_topic(), owner], 31);
    let bare = weth_log(vec![withdrawal_topic()], 32);
    let none = weth_log(vec![], 32);
    let other = weth_log(vec![transfer_topic(), owner], 32);
    assert_eq!(
        Watcher::parse_weth9_logs(&deposit),
        Ok(Some(WethEvents::Deposit(Some(40))))
    );
    assert_eq!(
        Watcher::parse_weth9_logs(&withdrawal),
        Ok(Some(WethEvents::Withdrawal(Some(40))))
    );
    assert_eq!(Watcher::parse_weth9_logs(&short), Ok(None));
    assert_eq!(Watcher::parse_weth9_logs(&bare), Ok(None));
    assert_eq!(
        Watcher::parse_weth9_logs(&none),
        Err(ParseWeb3LogsError::Topic0IsNone)
    );
    assert_eq!(
        Watcher::parse_weth9_logs(&other),
        Err(ParseWeb3LogsError::UnexpectedHashSignature)
    );
    let watcher = watcher();
    assert_eq!(watcher.refresh_request(&deposit), Some((weth9, Some(40))));
    assert_eq!(watcher.refresh_request(&withdrawal), Some((weth9, Some(40))));
    assert_eq!(watcher.refresh_request(&short), Some((weth9, None)));
    assert_eq!(watcher.refresh_request(&none), None);
    assert_eq!(watcher.refresh_request(&other), None);
}

#[test]
fn watcher_takes_no_snapshot_before_logs_are_followed() {
    let mut watcher = watcher();
    assert_eq!(watcher.on_event(WatcherEvent::Tick), SnapshotAction::Await);
    assert_eq!(
        watcher.on_event(WatcherEvent::RefreshRequested),
        SnapshotAction::StartInterval
    );
    assert_eq!(
        watcher.on_event(WatcherEvent::Tick),
        SnapshotAction::FetchSnapshot
    );
    assert_eq!(
        watcher.on_event(WatcherEvent::RefreshRequested),
        SnapshotAction::ResetIntervalAndFetch
    );
    assert_eq!(
        watcher.on_event(WatcherEvent::Cancelled),
        SnapshotAction::Stop
    );
    let filter = watcher.weth9_filter();
    assert_eq!(filter.address, Some(EvmNetwork::Eth.weth9_address()));
    assert_eq!(filter.topic1, Some(Word { hi: 1, lo: 2 }));
    assert_eq!(filter.signatures, vec![deposit_topic(), withdrawal_topic()]);
}

#[test]
fn log_loop_resubscribes_and_refreshes() {
    let mut log_loop = LogLoop::new();
    let steps = [
        (LogLoopEvent::Started, LogLoopAction::Subscribe),
        (
            LogLoopEvent::Subscribed,
            LogLoopAction::RefreshAndAwaitLog {
                resubscribed: false,
            },
        ),
        (LogLoopEvent::LogReceived, LogLoopAction::HandleLog),
        (LogLoopEvent::StreamEnded, LogLoopAction::Subscribe),
        (
            LogLoopEvent::Subscribed,
            LogLoopAction::RefreshAndAwaitLog { resubscribed: true },
        ),
        (LogLoopEvent::SubscribeFailed, LogLoopAction::CloseSession),
        (LogLoopEvent::Cancelled, LogLoopAction::Stop),
    ];
    for (event, action) in steps {
        assert_eq!(log_loop.on_event(event), action);
    }
}

#[test]
fn errors_say_what_happened() {
    let texts = [
        (
            watcher()
                .balance_error(&RpcError::Exhausted("e".to_string()))
                .to_text(),
            "unable to get balance for owner0x0000000100000000000000000000000000000002 in \
             network1: Provider exhausted after retries: e",
        ),
        (
            ParseWeb3LogsError::Topic0IsNone.to_text(),
            "log.topic0() is none",
        ),
        (
            ParseWeb3LogsError::UnexpectedHashSignature.to_text(),
            "event HASH_SIGNATURE is not expected",
        ),
        (
            ServiceError::ErrorToSend("e".to_string()).to_text(),
            "Error to send data via tx: e",
        ),
        (
            ServiceError::ErrorInitWsProvider("e".to_string()).to_text(),
            "Error when init the ws provider: e",
        ),
        (
            SubscriptionError::TooManySubscriptions.to_text(),
            "Too many subscriptions",
        ),
        (
            SubscriptionError::ThereArentCreatedSubscriptions.to_text(),
            "There aren't created subscriptions",
        ),
        (
            WsPoolError::InitProvider("e".to_string()).to_text(),
            "failed to init WS provider: e",
        ),
        (
            WsPoolError::FailedToAcquireConnectionPool("e".to_string()).to_text(),
            "failed to acquire WS connection pool: e",
        ),
        (
            WsPoolError::WsSubscriptionExhausted.to_text(),
            "WS subscription is exhausted with retries",
        ),
        (
            WsPoolError::SubscribeSemaphoreClosed.to_text(),
            "WS subscribe semaphore is closed",
        ),
    ];
    for (text, expected) in texts {
        assert_eq!(text, expected);
    }
    match Watcher::connection_lost_event() {
        Some(balances_watcher::domain::BalanceEvent::Error { code, message }) => {
            assert_eq!(code, 503);
            assert_eq!(message, "WebSocket connection lost permanently");
        }
        other => panic!("{other:?}"),
    }
}
