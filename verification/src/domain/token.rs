use crate::domain::primitives::Address;
use vstd::prelude::*;

verus! {

/// An entry of a token list.
#[derive(Clone, Copy, Debug, PartialEq, Eq, Structural)]
pub struct Token {
    pub address: Address,
    pub chain_id: u64,
}

} // verus!
