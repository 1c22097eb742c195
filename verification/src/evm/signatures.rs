//! Signature hashes of the events the service listens to: the first topic of
//! every log of that event.
use crate::domain::primitives::Word;
use vstd::prelude::*;

verus! {

/// `Transfer(address,address,uint256)`
pub open spec fn transfer_signature() -> Word {
    Word { hi: 0xddf252ad1be2c89b69c2b068fc378daa, lo: 0x952ba7f163c4a11628f55a4df523b3ef }
}

/// `Deposit(address,uint256)`
pub open spec fn deposit_signature() -> Word {
    Word { hi: 0xe1fffcc4923d04b559f4d29a8bfc6cda, lo: 0x04eb5b0d3c460751c2402c5c5cc9109c }
}

/// `Withdrawal(address,uint256)`
pub open spec fn withdrawal_signature() -> Word {
    Word { hi: 0x7fcf532c15f0a6db0bd6d0e038bea71d, lo: 0x30d808c7d98cb3bf7268a95bf5081b65 }
}

pub fn transfer_topic() -> (topic: Word)
    ensures
        topic == transfer_signature(),
{
    Word { hi: 0xddf252ad1be2c89b69c2b068fc378daa, lo: 0x952ba7f163c4a11628f55a4df523b3ef }
}

pub fn deposit_topic() -> (topic: Word)
    ensures
        topic == deposit_signature(),
{
    Word { hi: 0xe1fffcc4923d04b559f4d29a8bfc6cda, lo: 0x04eb5b0d3c460751c2402c5c5cc9109c }
}

pub fn withdrawal_topic() -> (topic: Word)
    ensures
        topic == withdrawal_signature(),
{
    Word { hi: 0x7fcf532c15f0a6db0bd6d0e038bea71d, lo: 0x30d808c7d98cb3bf7268a95bf5081b65 }
}

} // verus!
