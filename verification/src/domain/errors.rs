use crate::text::{decimal, decimal_text, joined};
use vstd::prelude::*;
use vstd::string::*;

verus! {

/// Why a chain cannot be served.
#[derive(Clone, Copy, Debug, PartialEq, Eq, Structural)]
pub enum EvmError {
    /// The chain id is none of the supported ones.
    UnsupportedNetwork(u64),
    /// The text is not a chain id at all.
    InvalidNetworkId,
}

impl EvmError {
    /// What the error says to a reader.
    pub open spec fn message(self) -> Seq<char> {
        match self {
            EvmError::UnsupportedNetwork(id) => "Unsupported network: "@ + decimal(id as nat),
            EvmError::InvalidNetworkId => "Invalid network id"@,
        }
    }

    pub fn to_text(&self) -> (text: String)
        ensures
            text@ == self.message(),
    {
        match self {
            EvmError::UnsupportedNetwork(id) => {
                let number = decimal_text(*id);
                joined("Unsupported network: ", number.as_str())
            },
            EvmError::InvalidNetworkId => String::from_str("Invalid network id"),
        }
    }
}

} // verus!
