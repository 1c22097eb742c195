use crate::domain::evm_network::EvmNetwork;
use crate::domain::primitives::{checksum_text, Address};
use crate::text::decimal;
use vstd::prelude::*;
use vstd::string::*;

verus! {

/// One device or tab watching one wallet on one chain.
#[derive(Clone, Copy, Debug, PartialEq, Eq, Structural, Hash)]
pub struct Session {
    pub owner: Address,
    pub network: EvmNetwork,
    /// The client's UUID as a big-endian number.
    pub client_id: u128,
}

impl Session {
    /// `{owner}:{chain id}`; the client is left out.
    pub open spec fn display(self) -> Seq<char> {
        checksum_text(self.owner.hi, self.owner.lo) + ":"@ + decimal(self.network.id() as nat)
    }

    pub fn to_text(&self) -> (text: String)
        ensures
            text@ == self.display(),
    {
        let mut text = self.owner.to_text();
        text.append(":");
        let network = self.network.to_text();
        text.append(network.as_str());
        text
    }
}

} // verus!
