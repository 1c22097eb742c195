use alloy::primitives::{keccak256, Address as AlloyAddress};
use balances_watcher::domain::{Address, EvmError, EvmNetwork, Session, Word};
use balances_watcher::evm::calldata::{
    address_call, BALANCE_OF_SELECTOR, GET_ETH_BALANCE_SELECTOR,
};
use balances_watcher::evm::signatures::{deposit_topic, transfer_topic, withdrawal_topic};

const ALL: [(EvmNetwork, u64); 11] = [
    (EvmNetwork::Eth, 1),
    (EvmNetwork::Bnb, 56),
    (EvmNetwork::Gnosis, 100),
    (EvmNetwork::Polygon, 137),
    (EvmNetwork::Base, 8453),
    (EvmNetwork::Plasma, 9745),
    (EvmNetwork::Arbitrum, 42161),
    (EvmNetwork::Avalanche, 43114),
    (EvmNetwork::Ink, 57073),
    (EvmNetwork::Linea, 59144),
    (EvmNetwork::Sepolia, 11155111),
];

fn address(text: &str) -> Address {
    let bytes: [u8; 20] = text.parse::<AlloyAddress>().unwrap().into_array();
    Address {
        hi: u32::from_be_bytes(bytes[..4].try_into().unwrap()),
        lo: u128::from_be_bytes(bytes[4..].try_into().unwrap()),
    }
}

fn word(bytes: [u8; 32]) -> Word {
    Word {
        hi: u128::from_be_bytes(bytes[..16].try_into().unwrap()),
        lo: u128::from_be_bytes(bytes[16..].try_into().unwrap()),
    }
}

#[test]
fn chain_ids_round_trip() {
    for (network, id) in ALL {
        assert_eq!(network.chain_id(), id);
        assert_eq!(EvmNetwork::try_from(id), Ok(network));
        assert_eq!(EvmNetwork::from_str(&network.to_text()), Ok(network));
        assert_eq!(network.to_text(), id.to_string());
    }
}

#[test]
fn unknown_and_malformed_chain_ids_are_errors() {
    assert_eq!(
        EvmNetwork::try_from(2),
        Err(EvmError::UnsupportedNetwork(2))
    );
    assert_eq!(
        EvmNetwork::from_str("2"),
        Err(EvmError::UnsupportedNetwork(2))
    );
    for text in ["", "+", "eth", "-1", "1 ", "0x1", "18446744073709551616"] {
        assert_eq!(EvmNetwork::from_str(text), Err(EvmError::InvalidNetworkId));
    }
    assert_eq!(EvmNetwork::from_str("+0001"), Ok(EvmNetwork::Eth));
    assert_eq!(
        EvmError::UnsupportedNetwork(2).to_text(),
        "Unsupported network: 2"
    );
    assert_eq!(EvmError::InvalidNetworkId.to_text(), "Invalid network id");
}

#[test]
fn well_known_addresses() {
    let native = address("0xEeeeeEeeeEeEeeEeEeEeeEEEeeeeEeeeeeeeEEeE");
    let weth9 = [
        "0xC02aaA39b223FE8D0A0e5C4F27eAD9083C756Cc2",
        "0xbb4CdB9CBd36B01bD1cBaEBF2De08d9173bc095c",
        "0xe91D153E0b41518A2Ce8Dd3D7944Fa863463a97d",
        "0x0d500b1d8e8ef31e21c99d1db9a6444d3adf1270",
        "0x4200000000000000000000000000000000000006",
        "0x6100e367285b01f48d07953803a2d8dca5d19873",
        "0x82aF49447D8a07e3bd95BD0d56f35241523fBab1",
        "0xb31f66aa3c1e785363f0875a1b74e27b85fd66c7",
        "0x4200000000000000000000000000000000000006",
        "0xe5d7c2a44ffddf6b295a15c148167daaaf5cf34f",
        "0xfFf9976782d46CC05630D1f6eBAb18b2324d6B14",
    ];
    for ((network, _), expected) in ALL.into_iter().zip(weth9) {
        assert_eq!(network.weth9_address(), address(expected));
        assert_eq!(network.native_token_address(), native);
        assert_ne!(network.weth9_address(), native);
    }
}

#[test]
fn chain_timings() {
    assert_eq!(EvmNetwork::Eth.max_block_lag(), 3);
    assert_eq!(EvmNetwork::Eth.backfill_chunk_blocks(), 3);
    assert_eq!(EvmNetwork::Arbitrum.block_time(), 250);
    for (network, _) in ALL {
        assert!(network.block_time() >= 250);
        assert!(network.max_block_lag() >= network.backfill_chunk_blocks());
    }
}

#[test]
fn session_displays_owner_and_chain() {
    let session = Session {
        owner: address("0xd8da6bf26964af9d7eed9e03e53415d37aa96045"),
        network: EvmNetwork::Gnosis,
        client_id: 7,
    };
    assert_eq!(
        session.to_text(),
        "0xd8dA6BF26964aF9D7eEd9e03E53415D37aA96045:100"
    );
}

#[test]
fn signatures_are_hashes_of_their_events() {
    let hash = |event: &str| word(keccak256(event.as_bytes()).0);
    assert_eq!(transfer_topic(), hash("Transfer(address,address,uint256)"));
    assert_eq!(deposit_topic(), hash("Deposit(address,uint256)"));
    assert_eq!(withdrawal_topic(), hash("Withdrawal(address,uint256)"));
}

#[test]
fn selectors_are_hashes_of_their_functions() {
    let selector = |function: &str| {
        let hash = keccak256(function.as_bytes());
        u32::from_be_bytes(hash[..4].try_into().unwrap())
    };
    assert_eq!(BALANCE_OF_SELECTOR, selector("balanceOf(address)"));
    assert_eq!(GET_ETH_BALANCE_SELECTOR, selector("getEthBalance(address)"));
}

#[test]
fn calls_hold_selector_and_padded_address() {
    let owner = address("0x0102030405060708090a0b0c0d0e0f1011121314");
    let data = address_call(BALANCE_OF_SELECTOR, owner);
    let mut expected = vec![0x70, 0xa0, 0x82, 0x31];
    expected.extend([0u8; 12]);
    expected.extend(1u8..=20);
    assert_eq!(data, expected);
}

#[test]
fn addresses_and_words() {
    let a = address("0x00000000000000000000000000000000C0FFee00");
    let b = address("0xffffffff00000000000000000000000000000000");
    assert_eq!(Address::from_word(a.into_word()), a);
    assert_eq!(Address::from_word(b.into_word()), b);
    // the first twelve bytes of a word do not matter
    let mut bytes = [0xabu8; 32];
    bytes[12..].copy_from_slice(&[1u8; 20]);
    assert_eq!(
        Address::from_word(word(bytes)),
        address("0x0101010101010101010101010101010101010101")
    );
    assert!(a.is_before(&b));
    assert!(!b.is_before(&a));
    assert!(!a.is_before(&a));
}
