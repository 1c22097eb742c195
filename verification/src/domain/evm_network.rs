use crate::domain::errors::EvmError;
use crate::domain::primitives::Address;
use crate::text::{decimal, decimal_text, parse_number, parsed_number};
use vstd::prelude::*;

verus! {

/// How far behind the head, in milliseconds of chain time, event processing
/// may fall before it counts as unhealthy.
pub const LAG_WINDOW_MS: u64 = 36_000;

/// The widest range of blocks asked for in one request while catching up.
pub const MAX_BACKFILL_CHUNK_BLOCKS: u64 = 10;

/// The supported chains.
#[derive(Clone, Copy, Debug, PartialEq, Eq, Structural, Hash)]
pub enum EvmNetwork {
    Eth,
    Bnb,
    Gnosis,
    Polygon,
    Base,
    Plasma,
    Arbitrum,
    Avalanche,
    Ink,
    Linea,
    Sepolia,
}

impl EvmNetwork {
    pub open spec fn id(self) -> u64 {
        match self {
            EvmNetwork::Eth => 1,
            EvmNetwork::Bnb => 56,
            EvmNetwork::Gnosis => 100,
            EvmNetwork::Polygon => 137,
            EvmNetwork::Base => 8453,
            EvmNetwork::Plasma => 9745,
            EvmNetwork::Arbitrum => 42161,
            EvmNetwork::Avalanche => 43114,
            EvmNetwork::Ink => 57073,
            EvmNetwork::Linea => 59144,
            EvmNetwork::Sepolia => 11155111,
        }
    }

    /// The chain with the given id, if it is supported.
    pub open spec fn of_id(id: u64) -> Option<EvmNetwork> {
        if id == 1 {
            Some(EvmNetwork::Eth)
        } else if id == 56 {
            Some(EvmNetwork::Bnb)
        } else if id == 100 {
            Some(EvmNetwork::Gnosis)
        } else if id == 137 {
            Some(EvmNetwork::Polygon)
        } else if id == 8453 {
            Some(EvmNetwork::Base)
        } else if id == 9745 {
            Some(EvmNetwork::Plasma)
        } else if id == 42161 {
            Some(EvmNetwork::Arbitrum)
        } else if id == 43114 {
            Some(EvmNetwork::Avalanche)
        } else if id == 57073 {
            Some(EvmNetwork::Ink)
        } else if id == 59144 {
            Some(EvmNetwork::Linea)
        } else if id == 11155111 {
            Some(EvmNetwork::Sepolia)
        } else {
            None
        }
    }

    /// The contract of the wrapped native token.
    pub open spec fn weth9(self) -> Address {
        match self {
            EvmNetwork::Eth => Address { hi: 0xc02aaa39, lo: 0xb223fe8d0a0e5c4f27ead9083c756cc2 },
            EvmNetwork::Bnb => Address { hi: 0xbb4cdb9c, lo: 0xbd36b01bd1cbaebf2de08d9173bc095c },
            EvmNetwork::Gnosis => Address { hi: 0xe91d153e, lo: 0x0b41518a2ce8dd3d7944fa863463a97d },
            EvmNetwork::Polygon => Address { hi: 0x0d500b1d, lo: 0x8e8ef31e21c99d1db9a6444d3adf1270 },
            EvmNetwork::Base => Address { hi: 0x42000000, lo: 0x00000000000000000000000000000006 },
            EvmNetwork::Plasma => Address { hi: 0x6100e367, lo: 0x285b01f48d07953803a2d8dca5d19873 },
            EvmNetwork::Arbitrum => Address { hi: 0x82af4944, lo: 0x7d8a07e3bd95bd0d56f35241523fbab1 },
            EvmNetwork::Avalanche => Address { hi: 0xb31f66aa, lo: 0x3c1e785363f0875a1b74e27b85fd66c7 },
            EvmNetwork::Ink => Address { hi: 0x42000000, lo: 0x00000000000000000000000000000006 },
            EvmNetwork::Linea => Address { hi: 0xe5d7c2a4, lo: 0x4ffddf6b295a15c148167daaaf5cf34f },
            EvmNetwork::Sepolia => Address { hi: 0xfff99767, lo: 0x82d46cc05630d1f6ebab18b2324d6b14 },
        }
    }

    /// The pseudo-address that stands for the native token on every chain.
    pub open spec fn native_token(self) -> Address {
        Address { hi: 0xeeeeeeee, lo: 0xeeeeeeeeeeeeeeeeeeeeeeeeeeeeeeee }
    }

    /// The usual time between two blocks, in milliseconds.
    pub open spec fn block_millis(self) -> u64 {
        match self {
            EvmNetwork::Eth => 12000,
            EvmNetwork::Bnb => 750,
            EvmNetwork::Gnosis => 5000,
            EvmNetwork::Polygon => 2000,
            EvmNetwork::Base => 2000,
            EvmNetwork::Plasma => 1000,
            EvmNetwork::Arbitrum => 250,
            EvmNetwork::Avalanche => 2000,
            EvmNetwork::Ink => 1000,
            EvmNetwork::Linea => 2000,
            EvmNetwork::Sepolia => 12000,
        }
    }

    /// The blocks that fit into the lag window.
    pub open spec fn lag_blocks(self) -> u64 {
        LAG_WINDOW_MS / self.block_millis()
    }

    pub open spec fn chunk_blocks(self) -> u64 {
        if self.lag_blocks() < MAX_BACKFILL_CHUNK_BLOCKS {
            self.lag_blocks()
        } else {
            MAX_BACKFILL_CHUNK_BLOCKS
        }
    }

    pub fn chain_id(self) -> (id: u64)
        ensures
            id == self.id(),
    {
        match self {
            EvmNetwork::Eth => 1,
            EvmNetwork::Bnb => 56,
            EvmNetwork::Gnosis => 100,
            EvmNetwork::Polygon => 137,
            EvmNetwork::Base => 8453,
            EvmNetwork::Plasma => 9745,
            EvmNetwork::Arbitrum => 42161,
            EvmNetwork::Avalanche => 43114,
            EvmNetwork::Ink => 57073,
            EvmNetwork::Linea => 59144,
            EvmNetwork::Sepolia => 11155111,
        }
    }

    /// The sentinel that token lists use for the native token. It is no
    /// contract, so a list that holds it must be cleared of it before any
    /// balance is asked for.
    pub fn native_token_address(self) -> (address: Address)
        ensures
            address == self.native_token(),
    {
        Address { hi: 0xeeeeeeee, lo: 0xeeeeeeeeeeeeeeeeeeeeeeeeeeeeeeee }
    }

    pub fn weth9_address(self) -> (address: Address)
        ensures
            address == self.weth9(),
    {
        match self {
            EvmNetwork::Eth => Address { hi: 0xc02aaa39, lo: 0xb223fe8d0a0e5c4f27ead9083c756cc2 },
            EvmNetwork::Bnb => Address { hi: 0xbb4cdb9c, lo: 0xbd36b01bd1cbaebf2de08d9173bc095c },
            EvmNetwork::Gnosis => Address { hi: 0xe91d153e, lo: 0x0b41518a2ce8dd3d7944fa863463a97d },
            EvmNetwork::Polygon => Address { hi: 0x0d500b1d, lo: 0x8e8ef31e21c99d1db9a6444d3adf1270 },
            EvmNetwork::Base => Address { hi: 0x42000000, lo: 0x00000000000000000000000000000006 },
            EvmNetwork::Plasma => Address { hi: 0x6100e367, lo: 0x285b01f48d07953803a2d8dca5d19873 },
            EvmNetwork::Arbitrum => Address { hi: 0x82af4944, lo: 0x7d8a07e3bd95bd0d56f35241523fbab1 },
            EvmNetwork::Avalanche => Address { hi: 0xb31f66aa, lo: 0x3c1e785363f0875a1b74e27b85fd66c7 },
            EvmNetwork::Ink => Address { hi: 0x42000000, lo: 0x00000000000000000000000000000006 },
            EvmNetwork::Linea => Address { hi: 0xe5d7c2a4, lo: 0x4ffddf6b295a15c148167daaaf5cf34f },
            EvmNetwork::Sepolia => Address { hi: 0xfff99767, lo: 0x82d46cc05630d1f6ebab18b2324d6b14 },
        }
    }

    /// The usual time between two blocks, in milliseconds.
    pub fn block_time(self) -> (millis: u64)
        ensures
            millis == self.block_millis(),
    {
        match self {
            EvmNetwork::Eth => 12000,
            EvmNetwork::Bnb => 750,
            EvmNetwork::Gnosis => 5000,
            EvmNetwork::Polygon => 2000,
            EvmNetwork::Base => 2000,
            EvmNetwork::Plasma => 1000,
            EvmNetwork::Arbitrum => 250,
            EvmNetwork::Avalanche => 2000,
            EvmNetwork::Ink => 1000,
            EvmNetwork::Linea => 2000,
            EvmNetwork::Sepolia => 12000,
        }
    }

    /// How many blocks event processing may lag behind the head, which is
    /// also the most it catches up on after a gap.
    pub fn max_block_lag(self) -> (blocks: u64)
        ensures
            blocks == self.lag_blocks(),
    {
        LAG_WINDOW_MS / self.block_time()
    }

    /// How many blocks one request may span while catching up.
    pub fn backfill_chunk_blocks(self) -> (blocks: u64)
        ensures
            blocks == self.chunk_blocks(),
    {
        let lag: u64 = self.max_block_lag();
        if lag < MAX_BACKFILL_CHUNK_BLOCKS {
            lag
        } else {
            MAX_BACKFILL_CHUNK_BLOCKS
        }
    }

    pub fn try_from(id: u64) -> (network: Result<EvmNetwork, EvmError>)
        ensures
            network == (match EvmNetwork::of_id(id) {
                Some(n) => Ok::<EvmNetwork, EvmError>(n),
                None => Err(EvmError::UnsupportedNetwork(id)),
            }),
    {
        match id {
            1 => Ok(EvmNetwork::Eth),
            56 => Ok(EvmNetwork::Bnb),
            100 => Ok(EvmNetwork::Gnosis),
            137 => Ok(EvmNetwork::Polygon),
            8453 => Ok(EvmNetwork::Base),
            9745 => Ok(EvmNetwork::Plasma),
            42161 => Ok(EvmNetwork::Arbitrum),
            43114 => Ok(EvmNetwork::Avalanche),
            57073 => Ok(EvmNetwork::Ink),
            59144 => Ok(EvmNetwork::Linea),
            11155111 => Ok(EvmNetwork::Sepolia),
            _ => Err(EvmError::UnsupportedNetwork(id)),
        }
    }

    /// What reading a chain id from text yields.
    pub open spec fn of_text(text: Seq<char>) -> Result<EvmNetwork, EvmError> {
        match parsed_number(text, u64::MAX as nat) {
            None => Err(EvmError::InvalidNetworkId),
            Some(id) => match EvmNetwork::of_id(id as u64) {
                Some(n) => Ok(n),
                None => Err(EvmError::UnsupportedNetwork(id as u64)),
            },
        }
    }

    pub fn from_str(s: &str) -> (network: Result<EvmNetwork, EvmError>)
        ensures
            network == EvmNetwork::of_text(s@),
    {
        match parse_number(s, u64::MAX) {
            None => Err(EvmError::InvalidNetworkId),
            Some(id) => EvmNetwork::try_from(id),
        }
    }

    /// The chain id in decimal.
    pub fn to_text(self) -> (text: String)
        ensures
            text@ == decimal(self.id() as nat),
    {
        decimal_text(self.chain_id())
    }
}

/// Every chain is found again by its id, and only by it.
pub proof fn law_chain_id_round_trip(network: EvmNetwork, id: u64)
    ensures
        EvmNetwork::of_id(network.id()) == Some(network),
        EvmNetwork::of_id(id) matches Some(n) ==> n.id() == id,
{
}

/// A chain's printed id is read back as the chain.
pub proof fn law_printed_chain_id_reads_back(network: EvmNetwork)
    ensures
        EvmNetwork::of_text(decimal(network.id() as nat)) == Ok::<EvmNetwork, EvmError>(network),
{
    crate::text::law_decimal_reads_back(network.id() as nat, u64::MAX as nat);
}

/// A chunk is never wider than the backfill cap, so it can be filled, and it
/// is at least one block, so a plan always advances.
pub proof fn law_chunk_fits_the_cap(network: EvmNetwork)
    ensures
        1 <= network.chunk_blocks() <= network.lag_blocks(),
{
    let millis = network.block_millis();
    assert(LAG_WINDOW_MS / millis >= 1) by (nonlinear_arith)
        requires
            1 <= millis <= 12_000,
    ;
}

/// The sentinel of the native token is no chain's wrapped token.
pub proof fn law_native_token_is_not_weth9(network: EvmNetwork)
    ensures
        network.native_token() != network.weth9(),
{
}

/// The blocks of the lag window take no longer than 36 seconds of chain time,
/// and one more would. A chunk is as many, but ten at most.
pub proof fn law_lag_blocks_fill_the_window(network: EvmNetwork)
    ensures
        network.lag_blocks() * network.block_millis() <= 36_000,
        (network.lag_blocks() + 1) * network.block_millis() > 36_000,
        network.chunk_blocks() <= network.lag_blocks(),
        network.chunk_blocks() <= 10,
        network.chunk_blocks() == network.lag_blocks() || network.chunk_blocks() == 10,
{
    let millis = network.block_millis() as int;
    let lag = network.lag_blocks() as int;
    assert(lag * millis <= 36_000 && (lag + 1) * millis > 36_000) by (nonlinear_arith)
        requires
            millis >= 1,
            lag == 36_000int / millis,
    ;
}

/// A text names a chain if and only if it reads as the chain's id. Other
/// numbers are refused as unsupported and other texts as no number.
pub proof fn law_text_names_the_chain_with_that_id(text: Seq<char>, network: EvmNetwork)
    ensures
        EvmNetwork::of_text(text) == Ok::<EvmNetwork, EvmError>(network) <==> parsed_number(
            text,
            u64::MAX as nat,
        ) == Some(network.id() as nat),
        EvmNetwork::of_text(text) matches Err(EvmError::InvalidNetworkId) <==> parsed_number(
            text,
            u64::MAX as nat,
        ) is None,
        EvmNetwork::of_text(text) matches Err(EvmError::UnsupportedNetwork(id)) ==> parsed_number(
            text,
            u64::MAX as nat,
        ) == Some(id as nat) && id != network.id(),
{
    law_chain_id_round_trip(network, network.id());
    if let Some(id) = parsed_number(text, u64::MAX as nat) {
        law_chain_id_round_trip(network, id as u64);
    }
}

} // verus!
