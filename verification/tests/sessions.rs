use balances_watcher::app_error::AppError;
use balances_watcher::collections::{AddressMap, AddressSet};
use balances_watcher::config::constants::{MAX_CLIENTS_PER_OWNER, SESSION_TTL};
use balances_watcher::domain::{
    Address, BalanceEvent, BlockId, EvmNetwork, Log, Session, Word, U256,
};
use balances_watcher::evm::signatures::{deposit_topic, transfer_topic, withdrawal_topic};
use balances_watcher::services::balance_refresh_queue::BalanceRefreshQueue;
use balances_watcher::services::errors::FetcherError;
use balances_watcher::services::event_dispatcher::{
    Erc20TransferEvent, Erc20TransferEventDispatcher,
};
use balances_watcher::services::rpc_client::RpcError;
use balances_watcher::services::session_manager::{
    SessionConfig, SessionContext, SessionError, SessionManager, StreamError,
};
use balances_watcher::services::snapshot_updater::{
    SnapshotAction, SnapshotEvent, SnapshotUpdater,
};
use balances_watcher::services::subscription::Subscription;
use balances_watcher::services::subscription_manager::{
    shutdown_event, SessionHandle, SubscriptionError, SubscriptionManager, UpsertOutcome,
};

fn token(n: u128) -> Address {
    Address { hi: 0, lo: n }
}

fn owner(n: u32) -> Address {
    Address { hi: n, lo: 0 }
}

fn session(owner_id: u32, client_id: u128) -> Session {
    Session {
        owner: owner(owner_id),
        network: EvmNetwork::Eth,
        client_id,
    }
}

/// The `nth` session that was created, counted from zero.
fn nth(nth: u64, session: Session) -> SessionHandle {
    SessionHandle { session, id: nth }
}

fn set(tokens: &[Address]) -> AddressSet {
    AddressSet::from_list(&tokens.to_vec())
}

fn amounts(entries: &[(Address, u128)]) -> AddressMap<U256> {
    let mut map = AddressMap::new();
    for (token, amount) in entries {
        map.insert(*token, U256 { hi: 0, lo: *amount });
    }
    map
}

fn sorted(map: &AddressMap<String>) -> Vec<(Address, String)> {
    let mut entries: Vec<(Address, String)> = map.entries().clone();
    entries.sort_by_key(|(address, _)| (address.hi, address.lo));
    entries
}

fn told(entries: &[(Address, &str)]) -> Vec<(Address, String)> {
    entries
        .iter()
        .map(|(address, amount)| (*address, amount.to_string()))
        .collect()
}

fn update(event: Option<BalanceEvent>) -> Option<Vec<(Address, String)>> {
    match event {
        None => None,
        Some(BalanceEvent::BalanceUpdate(balances)) => Some(sorted(&balances)),
        Some(BalanceEvent::Error { code, message }) => panic!("{code} {message}"),
    }
}

fn service() -> SessionManager {
    SessionManager::new(SessionConfig {
        snapshot_interval: 60,
        token_limit: 3,
        active_network: EvmNetwork::Eth,
        allow_private_token_lists: false,
    })
}

fn context(session: Session, custom_tokens: &[Address]) -> SessionContext {
    SessionContext {
        session,
        custom_tokens: custom_tokens.to_vec(),
        tokens_lists_urls: Vec::new(),
    }
}

fn post(
    manager: &mut SessionManager,
    session: Session,
    tokens: &[Address],
    now: u64,
) -> Result<UpsertOutcome, u16> {
    manager
        .upsert(&context(session, tokens), Ok(AddressSet::new()), now)
        .map_err(|error| AppError::from(error).into_response().code)
}

fn put(
    manager: &mut SessionManager,
    session: Session,
    tokens: &[Address],
    now: u64,
) -> Result<UpsertOutcome, u16> {
    manager
        .replace(&context(session, tokens), Ok(AddressSet::new()), now)
        .map_err(|error| AppError::from(error).into_response().code)
}

#[test]
fn watched_tokens_are_replaced_and_evicted() {
    let mut subscription = Subscription::new(set(&[token(1), token(2)]));
    subscription.update_balances_and_take_diff(&amounts(&[(token(1), 10), (token(2), 20)]), 5);
    assert!(!subscription.set_watched_tokens(set(&[token(2), token(1)])));
    assert!(subscription.set_watched_tokens(set(&[token(2), token(3)])));
    assert!(subscription.is_watched_token(&token(3)));
    assert!(!subscription.is_watched_token(&token(1)));
    let snapshot = subscription.current_snapshot();
    assert!(!snapshot.contains_key(&token(1)));
    assert_eq!(snapshot.get(&token(2)).unwrap().amount.lo, 20);
    // the same list again changes nothing
    assert!(!subscription.set_watched_tokens(set(&[token(3), token(2)])));
}

#[test]
fn updates_are_guarded_by_their_block() {
    let mut subscription = Subscription::new(set(&[token(1), token(2)]));
    let diff = subscription.update_balances_and_take_diff(&amounts(&[(token(1), 10)]), 5);
    assert_eq!(sorted(&diff), told(&[(token(1), "10")]));
    // the same read again, and an older one, are not told
    let diff = subscription.update_balances_and_take_diff(&amounts(&[(token(1), 10)]), 5);
    assert!(diff.is_empty());
    let diff = subscription.update_balances_and_take_diff(&amounts(&[(token(1), 99)]), 4);
    assert!(diff.is_empty());
    assert_eq!(subscription.current_snapshot().get(&token(1)).unwrap().block_number, 5);
    // a newer read of the same amount moves the block and is not told
    let diff = subscription.update_balances_and_take_diff(&amounts(&[(token(1), 10)]), 7);
    assert!(diff.is_empty());
    assert_eq!(subscription.current_snapshot().get(&token(1)).unwrap().block_number, 7);
    let diff = subscription
        .update_balances_and_take_diff(&amounts(&[(token(1), 11), (token(2), 0)]), 8);
    assert_eq!(sorted(&diff), told(&[(token(1), "11"), (token(2), "0")]));
    let diff = subscription.update_balances_and_take_diff(&AddressMap::new(), 9);
    assert!(diff.is_empty());
}

#[test]
fn large_amounts_are_told_in_decimal() {
    let mut subscription = Subscription::new(set(&[token(1)]));
    let mut all = AddressMap::new();
    all.insert(
        token(1),
        U256 {
            hi: u128::MAX,
            lo: u128::MAX,
        },
    );
    let diff = subscription.update_balances_and_take_diff(&all, 1);
    assert_eq!(
        diff.get(&token(1)).unwrap(),
        "115792089237316195423570985008687907853269984665640564039457584007913129639935"
    );
    let mut one = AddressMap::new();
    one.insert(token(1), U256 { hi: 1, lo: 0 });
    let diff = subscription.update_balances_and_take_diff(&one, 2);
    assert_eq!(
        diff.get(&token(1)).unwrap(),
        "340282366920938463463374607431768211456"
    );
}

#[test]
fn concurrent_upserts_create_exactly_one_subscription() {
    let mut manager = SubscriptionManager::new();
    for round in 0..50 {
        let session = session(round, round as u128);
        let mut creates = 0;
        for _ in 0..8 {
            let outcome = manager.upsert(session, set(&[token(1)]), 0).unwrap();
            if matches!(outcome, UpsertOutcome::Created { .. }) {
                creates += 1;
            } else {
                assert_eq!(outcome, UpsertOutcome::Existing { changed: false });
            }
        }
        assert_eq!(creates, 1, "round {round}");
    }
}

#[test]
fn owner_client_limit_returns_429() {
    let mut manager = service();
    let limit = MAX_CLIENTS_PER_OWNER;
    for client in 0..limit {
        assert_eq!(
            post(&mut manager, session(1, client as u128), &[token(1)], 0),
            Ok(UpsertOutcome::Created {
                id: client as u64,
                sessions_for_owner: client + 1
            })
        );
    }
    assert_eq!(
        post(&mut manager, session(1, limit as u128), &[token(1)], 0),
        Err(429)
    );
    assert_eq!(manager.sub_manager.sessions_of(EvmNetwork::Eth, &owner(1)), limit);
    // existing clients and other owners are not affected
    assert_eq!(
        post(&mut manager, session(1, 0), &[token(2)], 0),
        Ok(UpsertOutcome::Existing { changed: true })
    );
    assert_eq!(
        post(&mut manager, session(2, 0), &[token(1)], 0),
        Ok(UpsertOutcome::Created {
            id: limit as u64,
            sessions_for_owner: 1
        })
    );
}

#[test]
fn clients_are_counted() {
    let mut manager = SubscriptionManager::new();
    let session = session(1, 1);
    assert_eq!(
        manager.subscribe(&session),
        Err(SubscriptionError::SessionNotRegistered)
    );
    assert_eq!(
        manager.unsubscribe(&session, 0),
        Err(SubscriptionError::SessionNotRegistered)
    );
    manager.upsert(session, set(&[]), 0).unwrap();
    assert_eq!(
        manager.unsubscribe(&session, 0),
        Err(SubscriptionError::SessionNotRegistered)
    );
    assert_eq!(manager.subscribe(&session), Ok(()));
    assert_eq!(manager.subscribe(&session), Ok(()));
    assert_eq!(manager.unsubscribe(&session, 1), Ok(false));
    assert_eq!(manager.unsubscribe(&session, 2), Ok(true));
}

#[test]
fn idle_session_expires_after_ttl() {
    let mut manager = SubscriptionManager::new();
    let session = session(1, 1);
    manager.upsert(session, set(&[token(1)]), 100).unwrap();
    assert!(manager.cleanup_subs(100 + SESSION_TTL).is_empty());
    assert_eq!(manager.cleanup_subs(101 + SESSION_TTL), vec![session]);
    assert_eq!(
        manager.subscribe(&session),
        Err(SubscriptionError::SessionNotRegistered)
    );
    // a clock that seems to run backwards reaps nothing
    manager.upsert(session, set(&[token(1)]), 100).unwrap();
    assert!(manager.cleanup_subs(0).is_empty());
}

#[test]
fn active_session_survives_ttl_dies_after_disconnect() {
    let mut manager = SubscriptionManager::new();
    let session = session(1, 1);
    manager.upsert(session, set(&[token(1)]), 0).unwrap();
    manager.subscribe(&session).unwrap();
    assert!(manager.cleanup_subs(100 * SESSION_TTL).is_empty());
    assert!(manager.is_registered(&session));
    manager.unsubscribe(&session, 100 * SESSION_TTL).unwrap();
    assert!(manager.cleanup_subs(101 * SESSION_TTL).is_empty());
    assert_eq!(manager.cleanup_subs(102 * SESSION_TTL), vec![session]);
    assert!(!manager.is_registered(&session));
}

#[test]
fn siblings_die_independently() {
    let mut manager = SubscriptionManager::new();
    let alive = session(1, 1);
    let idle = session(1, 2);
    manager.upsert(alive, set(&[token(1)]), 0).unwrap();
    manager.upsert(idle, set(&[token(1)]), 0).unwrap();
    manager.subscribe(&alive).unwrap();
    assert_eq!(manager.cleanup_subs(2 * SESSION_TTL), vec![idle]);
    assert!(manager.is_registered(&alive));
    assert_eq!(manager.sessions_of(EvmNetwork::Eth, &owner(1)), 1);
}

#[test]
fn owner_limit_counts_each_chain_on_its_own() {
    let mut manager = SubscriptionManager::new();
    let on = |network: EvmNetwork, client_id: u128| Session {
        owner: owner(1),
        network,
        client_id,
    };
    let limit = MAX_CLIENTS_PER_OWNER;
    for (round, network) in [EvmNetwork::Eth, EvmNetwork::Polygon].into_iter().enumerate() {
        for client in 0..limit {
            assert_eq!(
                manager.upsert(on(network, client as u128), set(&[token(1)]), 0),
                Ok(UpsertOutcome::Created {
                    id: (round * limit + client) as u64,
                    sessions_for_owner: client + 1
                })
            );
        }
        assert!(manager
            .upsert(on(network, limit as u128), set(&[token(1)]), 0)
            .is_err());
        assert_eq!(manager.sessions_of(network, &owner(1)), limit);
        assert_eq!(manager.sessions_of(network, &owner(2)), 0);
    }
    assert_eq!(manager.sessions_of(EvmNetwork::Gnosis, &owner(1)), 0);
}

#[test]
fn shutdown_closes_every_session() {
    let mut manager = SubscriptionManager::new();
    manager.upsert(session(1, 1), set(&[]), 0).unwrap();
    manager.upsert(session(2, 1), set(&[]), 0).unwrap();
    assert_eq!(
        manager.close_sse_connections(),
        vec![session(1, 1), session(2, 1)]
    );
    assert!(!manager.is_registered(&session(1, 1)));
    match shutdown_event() {
        BalanceEvent::Error { code, message } => {
            assert_eq!(code, 503);
            assert_eq!(message, "server is shutting down");
        }
        BalanceEvent::BalanceUpdate(_) => panic!("no error"),
    }
}

#[test]
fn transfers_are_routed_to_sessions_that_watch() {
    let mut manager = service();
    post(&mut manager, session(1, 1), &[token(1)], 0).unwrap();
    post(&mut manager, session(1, 2), &[token(1), token(2)], 0).unwrap();
    post(&mut manager, session(2, 1), &[token(1)], 0).unwrap();
    let transfer = |of: Address, token: Address| Erc20TransferEvent {
        owner: of,
        token,
        block: Some(9),
    };
    assert_eq!(
        manager.route_transfer(&transfer(owner(1), token(1))),
        vec![session(1, 1), session(1, 2)]
    );
    assert_eq!(
        manager.route_transfer(&transfer(owner(1), token(2))),
        vec![session(1, 2)]
    );
    assert!(manager
        .route_transfer(&transfer(owner(2), token(2)))
        .is_empty());
    // the wrapped native token is watched by all
    let weth9 = EvmNetwork::Eth.weth9_address();
    assert_eq!(
        manager.route_transfer(&transfer(owner(2), weth9)),
        vec![session(2, 1)]
    );
}

#[test]
fn weth9_is_added_and_the_native_token_dropped() {
    let network = EvmNetwork::Eth;
    let tokens = SessionManager::extend_tokens(
        network,
        set(&[token(1), network.native_token_address()]),
        &vec![token(2), network.native_token_address(), token(1)],
    );
    assert_eq!(tokens.len(), 3);
    assert!(tokens.contains(&token(1)));
    assert!(tokens.contains(&token(2)));
    assert!(tokens.contains(&network.weth9_address()));
    assert!(!tokens.contains(&network.native_token_address()));
}

#[test]
fn token_limit_is_enforced() {
    let mut manager = service();
    let session = session(1, 1);
    // two tokens and the wrapped native one
    assert!(post(&mut manager, session, &[token(1), token(2)], 0).is_ok());
    let outcome = manager.upsert(
        &context(session, &[token(1), token(2), token(3)]),
        Ok(AddressSet::new()),
        0,
    );
    let error = outcome.unwrap_err();
    assert!(matches!(error, SessionError::TokenLimitExceeded(3, 4)));
    assert_eq!(
        error.to_text(),
        "Token limit exceeded, max count is 3, current count is 4"
    );
    let body = AppError::from(error).into_response();
    assert_eq!(body.code, 400);
    assert_eq!(
        body.message,
        "Bad request: Token limit exceeded, max count is 3, current count is 4"
    );
    // nothing has changed
    let watched = manager.sub_manager.clone_watched_tokens(&nth(0, session)).unwrap();
    assert!(!watched.contains(&token(3)));
}

#[test]
fn unloadable_list_is_not_found() {
    let mut manager = service();
    let listed = Err(FetcherError::UnableToLoadList(
        "http://lists/1".to_string(),
        "timeout".to_string(),
    ));
    let error = manager
        .upsert(&context(session(1, 1), &[token(1)]), listed, 0)
        .unwrap_err();
    let body = AppError::from(error).into_response();
    assert_eq!(body.code, 400);
    assert_eq!(
        body.message,
        "Bad request: Token list not found: http://lists/1"
    );
    assert!(!manager.sub_manager.is_registered(&session(1, 1)));
}

#[test]
fn guard_rejects_private_ip_literal_urls() {
    let manager = service();
    for url in [
        "http://127.0.0.1:8080/list.json",
        "http://169.254.169.254/latest/meta-data",
        "http://10.0.0.1/list.json",
        "http://[::1]:8080/list.json",
    ] {
        let urls = vec!["https://example.com/ok.json".to_string(), url.to_string()];
        let error = manager.check_urls(&urls).unwrap_err();
        let body = AppError::from(error).into_response();
        assert_eq!(body.code, 400, "{url} must be rejected");
        assert!(body.message.contains("not allowed"), "{}", body.message);
        assert!(body.message.contains(url), "{}", body.message);
    }
}

#[test]
fn guard_rejects_non_http_schemes() {
    let manager = service();
    let urls = vec!["ftp://tokens.example.com/list.json".to_string()];
    let body = AppError::from(manager.check_urls(&urls).unwrap_err()).into_response();
    assert_eq!(body.code, 400);
    assert!(body.message.contains("not allowed"), "{}", body.message);
}

#[test]
fn guard_disabled_allows_local_token_lists() {
    let mut manager = service();
    manager.config.allow_private_token_lists = true;
    let urls = vec!["http://127.0.0.1:9/list.json".to_string()];
    assert!(manager.check_urls(&urls).is_ok());
    assert!(manager.check_urls(&Vec::new()).is_ok());
}

#[test]
fn snapshot_after_post() {
    let mut manager = service();
    let session = session(1, 1);
    let weth9 = EvmNetwork::Eth.weth9_address();
    post(&mut manager, session, &[token(1)], 0).unwrap();
    // nothing is known yet, so the stream starts with nothing
    assert_eq!(update(manager.create_sse_connection(session).unwrap()), None);
    let event = SnapshotUpdater::on_snapshot_chunk(
        &mut manager.sub_manager,
        &nth(0, session),
        Ok((amounts(&[(weth9, 0)]), 1)),
    );
    assert_eq!(update(event), Some(told(&[(weth9, "0")])));
}

#[test]
fn late_joining_client_gets_full_snapshot() {
    let mut manager = service();
    let session = session(1, 1);
    post(&mut manager, session, &[token(1), token(2)], 0).unwrap();
    let sub_manager = &mut manager.sub_manager;
    let read = Ok((amounts(&[(token(1), 1_000), (token(2), 7)]), 1));
    SnapshotUpdater::on_snapshot_chunk(sub_manager, &nth(0, session), read);
    let read = Ok((amounts(&[(token(1), 1_500)]), 2));
    let diff = SnapshotUpdater::on_snapshot_chunk(sub_manager, &nth(0, session), read);
    assert_eq!(update(diff), Some(told(&[(token(1), "1500")])));
    assert_eq!(
        update(manager.create_sse_connection(session).unwrap()),
        Some(told(&[(token(1), "1500"), (token(2), "7")]))
    );
}

#[test]
fn stream_of_a_missing_session_is_not_found() {
    let mut manager = service();
    let error = manager.create_sse_connection(session(1, 1)).unwrap_err();
    assert_eq!(error.code, 404);
    assert_eq!(error.status(), 404);
    assert_eq!(error.message, "Session is not created");
}

#[test]
fn put_add_transfer_remove_flow() {
    let mut manager = service();
    let session = session(1, 1);
    let weth9 = EvmNetwork::Eth.weth9_address();
    let custom = token(0xC0FFEE00);
    assert!(manager.check_update(&session).is_err());
    post(&mut manager, session, &[weth9], 0).unwrap();
    assert!(manager.check_update(&session).is_ok());
    let read = Ok((amounts(&[(weth9, 0)]), 1));
    SnapshotUpdater::on_snapshot_chunk(&mut manager.sub_manager, &nth(0, session), read);

    // add
    assert_eq!(
        put(&mut manager, session, &[custom], 1),
        Ok(UpsertOutcome::Existing { changed: true })
    );
    let mint: u128 = 1_000_000_000_000_000_000;
    let read = Ok((amounts(&[(weth9, 0), (custom, mint)]), 2));
    let event = SnapshotUpdater::on_snapshot_chunk(&mut manager.sub_manager, &nth(0, session), read);
    assert_eq!(
        update(event),
        Some(told(&[(custom, "1000000000000000000")]))
    );

    // transfer
    let transfer = Erc20TransferEvent {
        owner: owner(1),
        token: custom,
        block: Some(3),
    };
    assert_eq!(manager.route_transfer(&transfer), vec![session]);
    let read = Some(Ok((amounts(&[(custom, mint - 250_000_000_000_000_000)]), 3)));
    let reaction = SnapshotUpdater::on_queue_result(&mut manager.sub_manager, &nth(0, session), read);
    assert!(!reaction.close_session);
    assert_eq!(
        update(reaction.event),
        Some(told(&[(custom, "750000000000000000")]))
    );

    // remove
    assert_eq!(
        put(&mut manager, session, &[], 4),
        Ok(UpsertOutcome::Existing { changed: true })
    );
    assert!(manager.route_transfer(&transfer).is_empty());
    assert_eq!(
        update(manager.create_sse_connection(session).unwrap()),
        Some(told(&[(weth9, "0")]))
    );
}

#[test]
fn session_errors_become_responses() {
    let cases = [
        (SessionError::SessionIsNotCreated, 404, "Not found: Session is not created"),
        (SessionError::TooManyClients, 429, "Too many requests: Too many clients"),
        (
            SessionError::OwnerClientLimitExceeded(5),
            429,
            "Too many requests: Too many clients for this owner, limit is 5",
        ),
        (
            SessionError::TokenListUrlNotAllowed("u".to_string(), "r".to_string()),
            400,
            "Bad request: Token list url u is not allowed: r",
        ),
    ];
    for (error, code, message) in cases {
        let body = AppError::from(error).into_response();
        assert_eq!(body.code, code);
        assert_eq!(body.message, message);
    }
    let error = SessionManager::map_subscription_error(SubscriptionError::SessionNotRegistered);
    assert!(matches!(error, SessionError::SessionIsNotCreated));
}

#[test]
fn stream_errors() {
    let error = StreamError::from(SessionError::TooManyClients);
    assert_eq!(error.code, 500);
    assert_eq!(error.message, "Internal server error");
    assert_eq!(StreamError::new(99, String::new()).status(), 500);
    assert_eq!(StreamError::new(1_000, String::new()).status(), 500);
    assert_eq!(StreamError::new(429, String::new()).status(), 429);
}

#[test]
fn registry_errors_say_why() {
    assert_eq!(
        SubscriptionError::SessionNotRegistered.to_text(),
        "no session registered for this (chain, owner, client_id)"
    );
    assert_eq!(
        SubscriptionError::OwnerClientLimitExceeded { limit: 5 }.to_text(),
        "too many active client_ids for this owner (limit: 5)"
    );
}

#[test]
fn events_are_streamed_under_their_names() {
    assert_eq!(
        SessionManager::balance_event_to_sse(&shutdown_event()),
        "error"
    );
    assert_eq!(
        SessionManager::balance_event_to_sse(&BalanceEvent::BalanceUpdate(AddressMap::new())),
        "balance_update"
    );
}

#[test]
fn concurrent_posts_with_same_client_id_yield_one_working_session() {
    let mut manager = service();
    let session = session(1, 1);
    let mut created = 0;
    for _ in 0..10 {
        let outcome = post(&mut manager, session, &[token(1)], 0).unwrap();
        created += matches!(outcome, UpsertOutcome::Created { .. }) as u32;
    }
    assert_eq!(created, 1);
    assert_eq!(manager.sub_manager.sessions_of(EvmNetwork::Eth, &owner(1)), 1);
    assert!(manager.create_sse_connection(session).is_ok());
}

/// The event of one transfer or wrap, routed and read again.
fn refreshed(
    manager: &mut SessionManager,
    event: &Erc20TransferEvent,
    amount: u128,
) -> Vec<Option<Vec<(Address, String)>>> {
    let mut updates = Vec::new();
    for session in manager.route_transfer(event) {
        let (tokens, at) = BalanceRefreshQueue::plan_batch(&vec![(event.token, event.block)]);
        let block = match at {
            BlockId::Number(block) => block,
            BlockId::Latest => panic!("no block"),
        };
        let read = Some(Ok((amounts(&[(tokens[0], amount)]), block)));
        // the clients were created in the order of their numbers, from one
        let handle = nth(session.client_id as u64 - 1, session);
        let reaction = SnapshotUpdater::on_queue_result(&mut manager.sub_manager, &handle, read);
        updates.push(update(reaction.event));
    }
    updates
}

#[test]
fn weth_deposit_and_withdraw_are_broadcast() {
    let mut manager = service();
    let weth9 = EvmNetwork::Eth.weth9_address();
    post(&mut manager, session(1, 1), &[], 0).unwrap();
    let snapshot = Ok((amounts(&[(weth9, 0)]), 10));
    SnapshotUpdater::on_snapshot_chunk(&mut manager.sub_manager, &nth(0, session(1, 1)), snapshot);

    let dispatcher = Erc20TransferEventDispatcher::new(EvmNetwork::Eth);
    let log = |topic: Word, block: u64| Log {
        address: weth9,
        topics: vec![topic, owner(1).into_word()],
        data: vec![0; 32],
        block_number: Some(block),
    };
    let deposited: u128 = 500_000_000_000_000_000;
    let deposit = dispatcher.on_weth9_log(&log(deposit_topic(), 11)).unwrap();
    assert_eq!(
        refreshed(&mut manager, &deposit, deposited),
        vec![Some(told(&[(weth9, "500000000000000000")]))]
    );
    let withdrawal = dispatcher.on_weth9_log(&log(withdrawal_topic(), 12)).unwrap();
    assert_eq!(
        refreshed(&mut manager, &withdrawal, deposited - 200_000_000_000_000_000),
        vec![Some(told(&[(weth9, "300000000000000000")]))]
    );
}

#[test]
fn erc20_transfer_is_broadcast() {
    let mut manager = service();
    let weth9 = EvmNetwork::Eth.weth9_address();
    let seed: u128 = 1_000_000_000_000_000_000;
    post(&mut manager, session(1, 1), &[], 0).unwrap();
    let snapshot = Ok((amounts(&[(weth9, seed)]), 10));
    SnapshotUpdater::on_snapshot_chunk(&mut manager.sub_manager, &nth(0, session(1, 1)), snapshot);
    let events = Erc20TransferEventDispatcher::on_erc20_log(&Log {
        address: weth9,
        topics: vec![transfer_topic(), owner(1).into_word(), owner(2).into_word()],
        data: vec![0; 32],
        block_number: Some(11),
    });
    assert_eq!(
        refreshed(&mut manager, &events[0], seed - 300_000_000_000_000_000),
        vec![Some(told(&[(weth9, "700000000000000000")]))]
    );
    // the peer is watched by nobody
    assert!(refreshed(&mut manager, &events[1], 1).is_empty());
}

#[test]
fn balance_update_fans_out_to_all_session_clients() {
    let mut manager = service();
    let weth9 = EvmNetwork::Eth.weth9_address();
    for client in 1..4 {
        post(&mut manager, session(1, client), &[], 0).unwrap();
        manager.create_sse_connection(session(1, client)).unwrap();
    }
    let event = Erc20TransferEvent {
        owner: owner(1),
        token: weth9,
        block: Some(20),
    };
    let expected = Some(told(&[(weth9, "600000000000000000")]));
    assert_eq!(
        refreshed(&mut manager, &event, 600_000_000_000_000_000),
        vec![expected.clone(), expected.clone(), expected]
    );
    // the same read again is told to nobody
    assert_eq!(
        refreshed(&mut manager, &event, 600_000_000_000_000_000),
        vec![None, None, None]
    );
}

#[test]
fn failed_reads_are_told() {
    let mut manager = service();
    let session = session(1, 1);
    post(&mut manager, session, &[token(1)], 0).unwrap();
    let sub_manager = &mut manager.sub_manager;
    let failure = || RpcError::Exhausted("timeout".to_string());
    match SnapshotUpdater::on_snapshot_chunk(sub_manager, &nth(0, session), Err(failure())) {
        Some(BalanceEvent::Error { code, message }) => {
            assert_eq!(code, 500);
            assert_eq!(message, "Error when make multicall3 request");
        }
        other => panic!("{other:?}"),
    }
    let reaction = SnapshotUpdater::on_queue_result(sub_manager, &nth(0, session), Some(Err(failure())));
    assert!(reaction.close_session);
    match reaction.event {
        Some(BalanceEvent::Error { code, message }) => {
            assert_eq!(code, 503);
            assert_eq!(message, "RPC provider connection lost permanently");
        }
        other => panic!("{other:?}"),
    }
    let reaction = SnapshotUpdater::on_queue_result(sub_manager, &nth(0, session), None);
    assert!(!reaction.close_session);
    assert!(reaction.event.is_none());
}

#[test]
fn reads_for_a_session_that_is_gone_are_dropped() {
    let mut manager = service();
    let read = Ok((amounts(&[(token(1), 5)]), 1));
    let event =
        SnapshotUpdater::on_snapshot_chunk(&mut manager.sub_manager, &nth(0, session(1, 1)), read);
    assert!(event.is_none());
    assert!(!manager.sub_manager.is_registered(&session(1, 1)));
}

#[test]
fn late_reads_miss_the_session_that_took_the_place() {
    let mut manager = service();
    let key = session(1, 1);
    post(&mut manager, key, &[token(1)], 0).unwrap();
    assert_eq!(
        manager.sub_manager.cleanup_subs(2 * SESSION_TTL),
        vec![key]
    );
    let again = post(&mut manager, key, &[token(1)], 3 * SESSION_TTL);
    assert_eq!(
        again,
        Ok(UpsertOutcome::Created {
            id: 1,
            sessions_for_owner: 1
        })
    );
    assert_eq!(manager.sub_manager.created_count(), 2);
    let sub_manager = &mut manager.sub_manager;
    let read = || Ok((amounts(&[(token(1), 5)]), 9));
    assert!(SnapshotUpdater::on_snapshot_chunk(sub_manager, &nth(0, key), read()).is_none());
    let reaction = SnapshotUpdater::on_queue_result(sub_manager, &nth(0, key), Some(read()));
    assert!(reaction.event.is_none());
    assert!(sub_manager.clone_watched_tokens(&nth(0, key)).is_none());
    assert!(sub_manager.current_snapshot(&key).unwrap().is_empty());
    // its own reads reach it
    let event = SnapshotUpdater::on_snapshot_chunk(sub_manager, &nth(1, key), read());
    assert_eq!(update(event), Some(told(&[(token(1), "5")])));
    // numbers are not given out again after shutdown
    sub_manager.close_sse_connections();
    assert_eq!(sub_manager.created_count(), 2);
}

#[test]
fn update_of_a_session_that_expired_meanwhile_is_not_found() {
    let mut manager = service();
    let session = session(1, 1);
    assert_eq!(put(&mut manager, session, &[token(1)], 0), Err(404));
    post(&mut manager, session, &[token(1)], 0).unwrap();
    assert!(manager.check_update(&session).is_ok());
    manager.sub_manager.cleanup_subs(2 * SESSION_TTL);
    assert_eq!(put(&mut manager, session, &[token(2)], 2 * SESSION_TTL), Err(404));
    assert!(!manager.sub_manager.is_registered(&session));
    let failed = Err(FetcherError::UnableToLoadList(
        "http://lists/1".to_string(),
        "timeout".to_string(),
    ));
    let error = manager
        .replace(&context(session, &[token(2)]), failed, 0)
        .unwrap_err();
    assert!(matches!(error, SessionError::SessionIsNotCreated));
}

#[test]
fn snapshots_wait_until_heads_are_followed() {
    let mut updater = SnapshotUpdater::new(session(1, 1));
    for connected in [false, false] {
        assert_eq!(
            updater.on_event(SnapshotEvent::ConnectionChanged { connected }),
            SnapshotAction::AwaitConnection
        );
        assert_eq!(
            updater.on_event(SnapshotEvent::Tick),
            SnapshotAction::AwaitConnection
        );
    }
    assert_eq!(
        updater.on_event(SnapshotEvent::ConnectionChanged { connected: true }),
        SnapshotAction::StartInterval
    );
    assert_eq!(
        updater.on_event(SnapshotEvent::Connection { connected: false }),
        SnapshotAction::AwaitConnection
    );
    assert_eq!(
        updater.on_event(SnapshotEvent::RefreshRequested),
        SnapshotAction::AwaitConnection
    );
}

#[test]
fn snapshots_follow_the_connection() {
    let mut updater = SnapshotUpdater::new(session(1, 1));
    let steps = [
        (SnapshotEvent::Tick, SnapshotAction::AwaitConnection),
        (
            SnapshotEvent::Connection { connected: false },
            SnapshotAction::AwaitConnection,
        ),
        (
            SnapshotEvent::Connection { connected: true },
            SnapshotAction::StartInterval,
        ),
        (SnapshotEvent::Tick, SnapshotAction::FetchSnapshot),
        (
            SnapshotEvent::RefreshRequested,
            SnapshotAction::ResetIntervalAndFetch,
        ),
        (
            SnapshotEvent::ConnectionChanged { connected: true },
            SnapshotAction::Await,
        ),
        (
            SnapshotEvent::ConnectionChanged { connected: false },
            SnapshotAction::CheckConnection,
        ),
        (
            SnapshotEvent::RefreshRequested,
            SnapshotAction::AwaitConnection,
        ),
        (
            SnapshotEvent::ConnectionChanged { connected: true },
            SnapshotAction::StartInterval,
        ),
        (SnapshotEvent::Cancelled, SnapshotAction::Stop),
    ];
    for (event, action) in steps {
        assert_eq!(updater.on_event(event), action, "{event:?}");
    }
    let mut parked = SnapshotUpdater::new(session(1, 1));
    assert_eq!(
        parked.on_event(SnapshotEvent::ConnectionClosed),
        SnapshotAction::Stop
    );
}

#[test]
fn overtaken_reads_do_no_harm() {
    let early = amounts(&[(token(1), 10), (token(2), 20)]);
    let late = amounts(&[(token(1), 11), (token(3), 31)]);
    let mut in_order = Subscription::new(set(&[]));
    in_order.update_balances_and_take_diff(&early, 5);
    in_order.update_balances_and_take_diff(&late, 6);
    let mut overtaken = Subscription::new(set(&[]));
    overtaken.update_balances_and_take_diff(&late, 6);
    overtaken.update_balances_and_take_diff(&early, 5);
    for (n, amount, block) in [(1, 11, 6), (2, 20, 5), (3, 31, 6)] {
        for subscription in [&in_order, &overtaken] {
            let snapshot = subscription.current_snapshot();
            let balance = snapshot.get(&token(n)).unwrap();
            assert_eq!((balance.amount.lo, balance.block_number), (amount, block));
        }
    }
}

#[test]
fn stream_reproduces_the_snapshot() {
    let mut subscription = Subscription::new(set(&[]));
    let mut shown = std::collections::HashMap::new();
    for (n, amount, block) in [
        (1, 10, 5),
        (2, 7, 5),
        (1, 12, 4),
        (1, 10, 6),
        (2, 8, 7),
        (3, 0, 7),
        (2, 9, 6),
    ] {
        let diff = subscription.update_balances_and_take_diff(&amounts(&[(token(n), amount)]), block);
        for (token, text) in diff.entries() {
            shown.insert(*token, text.clone());
        }
    }
    let snapshot = subscription.current_snapshot();
    assert_eq!(snapshot.entries().len(), shown.len());
    for (token, balance) in snapshot.entries() {
        assert_eq!(shown[token], balance.amount.lo.to_string());
    }
    assert_eq!(shown[&token(2)], "8");
}

#[test]
fn stream_stays_true_while_tokens_are_replaced() {
    let mut subscription = Subscription::new(set(&[token(1), token(2)]));
    let mut shown = std::collections::HashMap::new();
    let mut read = |subscription: &mut Subscription, n: u128, amount: u128, block: u64| {
        let diff = subscription.update_balances_and_take_diff(&amounts(&[(token(n), amount)]), block);
        for (token, text) in diff.entries() {
            shown.insert(*token, text.clone());
        }
        for (token, balance) in subscription.current_snapshot().entries() {
            assert_eq!(shown.get(token), Some(&balance.amount.lo.to_string()));
        }
    };
    read(&mut subscription, 1, 10, 5);
    read(&mut subscription, 2, 20, 5);
    assert!(subscription.set_watched_tokens(set(&[token(2)])));
    read(&mut subscription, 2, 21, 6);
    assert!(subscription.set_watched_tokens(set(&[token(1), token(2)])));
    // the amount of the token that came back is told anew
    read(&mut subscription, 1, 10, 6);
    assert_eq!(subscription.current_snapshot().entries().len(), 2);
}
