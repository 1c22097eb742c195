use crate::collections::address_map::AddressMap;
use vstd::prelude::*;

verus! {

/// Events sent to the clients of a stream.
#[derive(Debug)]
pub enum BalanceEvent {
    /// Balances in decimal, by token.
    BalanceUpdate(AddressMap<String>),
    Error { code: u16, message: String },
}

} // verus!
