//! The values the rest of the crate speaks of.
pub mod errors;
pub mod events;
pub mod evm_network;
pub mod primitives;
pub mod session;
pub mod token;

pub use errors::EvmError;
pub use events::BalanceEvent;
pub use evm_network::EvmNetwork;
pub use primitives::{Address, BlockId, Log, U256, Word};
pub use session::Session;
pub use token::Token;
