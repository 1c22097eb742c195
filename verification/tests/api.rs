use balances_watcher::api::chain_extractor::ChainId;
use balances_watcher::api::client_id_extractor::ClientId;
use balances_watcher::api::create_session::{create_session, CreateSessionRequest};
use balances_watcher::api::health::health_handler;
use balances_watcher::api::session_path_extractor::SessionPath;
use balances_watcher::api::update_session::{update_session, UpdateSessionRequest};
use balances_watcher::app_error::AppError;
use balances_watcher::collections::AddressSet;
use balances_watcher::domain::{Address, EvmNetwork, Session};
use balances_watcher::services::block_watcher::BlockWatcher;
use balances_watcher::services::event_dispatcher::Erc20TransferEventDispatcher;
use balances_watcher::services::health::{AppHealth, SubsystemHealth};
use balances_watcher::services::session_manager::{SessionConfig, SessionManager};

const UUID: &str = "550e8400-e29b-41d4-a716-446655440000";
const UUID_NUMBER: u128 = 0x550e8400_e29b_41d4_a716_446655440000;

fn answer<T>(outcome: Result<T, AppError>) -> (u16, String) {
    match outcome {
        Ok(_) => panic!("no error"),
        Err(error) => {
            let body = error.into_response();
            (body.code, body.message)
        }
    }
}

fn refused(code: u16, message: &str) -> (u16, String) {
    (code, message.to_string())
}

fn params(pairs: &[(&str, &str)]) -> Vec<(String, String)> {
    pairs
        .iter()
        .map(|(name, value)| (name.to_string(), value.to_string()))
        .collect()
}

#[test]
fn served_chain_is_accepted() {
    let found = params(&[("owner", "0x0"), ("chain_id", "100"), ("chain_id", "1")]);
    let chain = ChainId::from_request_parts(Some(&found), EvmNetwork::Gnosis).unwrap();
    assert_eq!(chain, ChainId(EvmNetwork::Gnosis));
}

#[test]
fn other_chains_are_refused() {
    let served = EvmNetwork::Gnosis;
    assert_eq!(
        answer(ChainId::from_request_parts(None, served)),
        refused(400, "Bad request: missing path parameters")
    );
    assert_eq!(
        answer(ChainId::from_request_parts(
            Some(&params(&[("owner", "0x0")])),
            served
        )),
        refused(400, "Bad request: missing chain_id path parameter")
    );
    for raw in ["eth", "2", "-1"] {
        assert_eq!(
            answer(ChainId::from_request_parts(
                Some(&params(&[("chain_id", raw)])),
                served
            )),
            (400, format!("Bad request: invalid chain_id: {raw}"))
        );
    }
    assert_eq!(
        answer(ChainId::from_request_parts(
            Some(&params(&[("chain_id", "1")])),
            served
        )),
        refused(
            404,
            "Not found: chain_id 1 is not served by this instance (configured: 100)"
        )
    );
}

#[test]
fn session_paths_are_checked() {
    let owner = Address { hi: 1, lo: 2 };
    assert_eq!(
        SessionPath::from_request_parts(Ok((EvmNetwork::Eth, owner)), EvmNetwork::Eth).unwrap(),
        SessionPath(EvmNetwork::Eth, owner)
    );
    assert_eq!(
        answer(SessionPath::from_request_parts(
            Ok((EvmNetwork::Base, owner)),
            EvmNetwork::Eth
        )),
        refused(
            404,
            "Not found: chain_id 8453 is not served by this instance (configured: 1)"
        )
    );
    assert_eq!(
        answer(SessionPath::from_request_parts(
            Err("odd".to_string()),
            EvmNetwork::Eth
        )),
        refused(400, "Bad request: invalid path: odd")
    );
}

#[test]
fn header_names_the_client_in_any_notation() {
    for text in [
        UUID,
        "550E8400-E29B-41D4-A716-446655440000",
        "550e8400e29b41d4a716446655440000",
        "{550e8400-e29b-41d4-a716-446655440000}",
        "urn:uuid:550e8400-e29b-41d4-a716-446655440000",
    ] {
        let header = text.as_bytes().to_vec();
        assert_eq!(
            ClientId::from_request_parts(Some(&header), Ok(Some(3))).unwrap(),
            ClientId(UUID_NUMBER),
            "{text}"
        );
        assert_eq!(
            ClientId::try_from_headers(Some(&header)).unwrap(),
            Some(UUID_NUMBER)
        );
    }
    assert_eq!(ClientId::try_from_headers(None).unwrap(), None);
}

#[test]
fn query_names_the_client_without_a_header() {
    assert_eq!(
        ClientId::from_request_parts(None, Ok(Some(3))).unwrap(),
        ClientId(3)
    );
    assert_eq!(
        answer(ClientId::from_request_parts(None, Ok(None))),
        refused(
            400,
            "Bad request: missing client id (send X-Client-Id header or ?client_id= query)"
        )
    );
    assert_eq!(
        answer(ClientId::from_request_parts(None, Err("no uuid".to_string()))),
        refused(400, "Bad request: invalid client_id query: no uuid")
    );
}

#[test]
fn bad_headers_are_refused_whatever_the_query() {
    let not_a_uuid = b"client".to_vec();
    assert_eq!(
        answer(ClientId::from_request_parts(Some(&not_a_uuid), Ok(Some(3)))),
        refused(400, "Bad request: X-Client-Id is not a valid UUID")
    );
    for foreign in [0x80u8, 0xff, 0x1f, 0x7f] {
        let mut header = UUID.as_bytes().to_vec();
        header[0] = foreign;
        assert_eq!(
            answer(ClientId::from_request_parts(Some(&header), Ok(Some(3)))),
            refused(400, "Bad request: X-Client-Id is not valid ASCII")
        );
    }
    let with_tab = b"\t550e8400-e29b-41d4-a716-446655440000".to_vec();
    assert_eq!(
        answer(ClientId::try_from_headers(Some(&with_tab))),
        refused(400, "Bad request: X-Client-Id is not a valid UUID")
    );
}

fn session() -> Session {
    Session {
        owner: Address { hi: 1, lo: 2 },
        network: EvmNetwork::Eth,
        client_id: 9,
    }
}

#[test]
fn empty_requests_are_refused() {
    let create = CreateSessionRequest {
        tokens_lists_urls: Vec::new(),
        custom_tokens: Vec::new(),
    };
    assert_eq!(
        answer(create_session(session(), create)),
        refused(
            400,
            "Bad request: tokens_lists_urls or custom_tokens should not be empty both"
        )
    );
    let manager = manager();
    let update = UpdateSessionRequest {
        tokens_lists_urls: Vec::new(),
        custom_tokens: Vec::new(),
    };
    assert_eq!(
        answer(update_session(&manager, session(), update)),
        refused(
            400,
            "Bad request: tokens_lists_urls && custom_tokens are empty"
        )
    );
}

fn manager() -> SessionManager {
    SessionManager::new(SessionConfig {
        snapshot_interval: 60,
        token_limit: 10,
        active_network: EvmNetwork::Eth,
        allow_private_token_lists: false,
    })
}

#[test]
fn only_created_sessions_can_be_updated() {
    let mut manager = manager();
    let body = || UpdateSessionRequest {
        tokens_lists_urls: vec!["http://lists/1".to_string()],
        custom_tokens: Vec::new(),
    };
    assert_eq!(
        answer(update_session(&manager, session(), body())),
        refused(404, "Not found: Session is not created")
    );
    let create = CreateSessionRequest {
        tokens_lists_urls: Vec::new(),
        custom_tokens: vec![Address { hi: 0, lo: 5 }],
    };
    let context = create_session(session(), create).unwrap();
    assert_eq!(context.custom_tokens, vec![Address { hi: 0, lo: 5 }]);
    manager.upsert(&context, Ok(AddressSet::new()), 0).unwrap();
    let context = update_session(&manager, session(), body()).unwrap();
    assert_eq!(context.session, session());
    assert_eq!(context.tokens_lists_urls, vec!["http://lists/1".to_string()]);
}

#[test]
fn health_is_reported_as_a_status() {
    let sick = || SubsystemHealth::Unhealthy("reason".to_string());
    let cases = [
        (SubsystemHealth::Healthy, SubsystemHealth::Healthy, 200),
        (sick(), SubsystemHealth::Healthy, 503),
        (SubsystemHealth::Healthy, sick(), 503),
        (sick(), sick(), 503),
    ];
    for (block_watcher, event_dispatcher, status) in cases {
        let health = AppHealth {
            block_watcher,
            event_dispatcher,
        };
        assert_eq!(health_handler(&health), status);
        assert_eq!(health.is_healthy(), status == 200);
    }
}

#[test]
fn both_parts_of_the_service_have_to_be_well() {
    let mut watcher = BlockWatcher::new(EvmNetwork::Eth);
    let mut dispatcher = Erc20TransferEventDispatcher::new(EvmNetwork::Eth);
    let status = |watcher: &BlockWatcher, dispatcher: &Erc20TransferEventDispatcher| {
        health_handler(&SessionManager::health_status(watcher, dispatcher))
    };
    assert_eq!(status(&watcher, &dispatcher), 503);
    dispatcher.activate();
    assert_eq!(status(&watcher, &dispatcher), 503);
    watcher.record_connected(10);
    assert_eq!(status(&watcher, &dispatcher), 200);
    dispatcher.on_heads(10, &vec![]);
    dispatcher.on_range_done(0, 0);
    watcher.record_connected(14);
    assert_eq!(status(&watcher, &dispatcher), 503);
}
