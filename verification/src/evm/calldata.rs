//! Calls of contract functions that take one address, as bytes.
use crate::domain::primitives::{be_value, law_bytes_are_big_endian, Address};
use vstd::prelude::*;

verus! {

/// `balanceOf(address)`
pub const BALANCE_OF_SELECTOR: u32 = 0x70a08231;

/// `getEthBalance(address)`
pub const GET_ETH_BALANCE_SELECTOR: u32 = 0x4d2301cc;

/// One call of a batch.
#[derive(Debug)]
pub struct Call {
    pub target: Address,
    pub call_data: Vec<u8>,
}

pub open spec fn pow256(n: nat) -> nat
    decreases n,
{
    if n == 0 {
        1
    } else {
        256 * pow256((n - 1) as nat)
    }
}

/// The number that the twenty bytes of an address denote.
pub open spec fn address_value(address: Address) -> nat {
    address.hi as nat * pow256(16) + address.lo as nat
}

/// The bytes of a call: the selector in four bytes, then the address as one
/// word of 32 bytes.
pub open spec fn is_address_call(data: Seq<u8>, selector: u32, address: Address) -> bool {
    &&& data.len() == 36
    &&& be_value(data.take(4)) == selector
    &&& be_value(data.skip(4)) == address_value(address)
}

proof fn lemma_be_value_concat(left: Seq<u8>, right: Seq<u8>)
    ensures
        be_value(left + right) == be_value(left) * pow256(right.len()) + be_value(right),
    decreases right.len(),
{
    let l = be_value(left);
    if right.len() == 0 {
        assert(left + right =~= left);
        assert(pow256(0) == 1);
        assert(l * 1 == l);
    } else {
        let shorter = right.drop_last();
        let p = pow256(shorter.len());
        assert((left + right).drop_last() =~= left + shorter);
        lemma_be_value_concat(left, shorter);
        assert(pow256(right.len()) == 256 * p);
        assert(256 * (l * p) == l * (256 * p)) by (nonlinear_arith);
    }
}

/// The last `count` bytes of `value`, most significant first.
fn be_bytes(value: u128, count: usize) -> (bytes: Vec<u8>)
    requires
        value < pow256(count as nat),
    ensures
        bytes@.len() == count,
        be_value(bytes@) == value,
    decreases count,
{
    if count == 0 {
        Vec::new()
    } else {
        let mut bytes = be_bytes(value / 256, count - 1);
        let ghost before = bytes@;
        bytes.push((value % 256) as u8);
        assert(bytes@.drop_last() =~= before);
        bytes
    }
}

/// The call of the function with this selector on `address`.
pub fn address_call(selector: u32, address: Address) -> (data: Vec<u8>)
    ensures
        is_address_call(data@, selector, address),
{
    proof {
        assert(pow256(4) == 0x1_0000_0000) by {
            reveal_with_fuel(pow256, 5);
        }
        assert(pow256(16) == 0x1_0000_0000_0000_0000_0000_0000_0000_0000nat) by {
            reveal_with_fuel(pow256, 17);
        }
        assert(pow256(12) > 0) by {
            reveal_with_fuel(pow256, 13);
        }
    }
    let mut data = be_bytes(selector as u128, 4);
    let mut padding: Vec<u8> = be_bytes(0, 12);
    let mut hi = be_bytes(address.hi as u128, 4);
    let mut lo = be_bytes(address.lo, 16);
    proof {
        lemma_be_value_concat(padding@, hi@);
        lemma_be_value_concat(padding@ + hi@, lo@);
        let zero = be_value(padding@);
        let scale = pow256(4);
        assert(zero * scale == 0) by (nonlinear_arith)
            requires
                zero == 0,
        ;
    }
    let ghost head = data@;
    let ghost word = padding@ + hi@ + lo@;
    data.append(&mut padding);
    data.append(&mut hi);
    data.append(&mut lo);
    assert(data@.take(4) =~= head);
    assert(data@.skip(4) =~= word);
    data
}

proof fn lemma_zero_bytes(bytes: Seq<u8>)
    requires
        be_value(bytes) == 0,
    ensures
        forall|i: int| 0 <= i < bytes.len() ==> #[trigger] bytes[i] == 0,
    decreases bytes.len(),
{
    if bytes.len() > 0 {
        lemma_zero_bytes(bytes.drop_last());
        assert forall|i: int| 0 <= i < bytes.len() implies #[trigger] bytes[i] == 0 by {
            if i < bytes.len() - 1 {
                assert(bytes.drop_last()[i] == bytes[i]);
            }
        }
    }
}

/// A call is 36 bytes: the selector in four, twelve zeros, and the twenty bytes
/// of the address, most significant ones first.
pub proof fn law_call_is_selector_and_padded_address(
    data: Seq<u8>,
    selector: u32,
    address: Address,
)
    requires
        is_address_call(data, selector, address),
    ensures
        data.len() == 36,
        data.take(4).fold_left(0int, |value: int, b: u8| 256 * value + b) == selector,
        forall|i: int| 4 <= i < 16 ==> #[trigger] data[i] == 0,
        data.skip(16).fold_left(0int, |value: int, b: u8| 256 * value + b) == address.hi
            * 0x1_0000_0000_0000_0000_0000_0000_0000_0000nat + address.lo,
{
    assert(pow256(16) == 0x1_0000_0000_0000_0000_0000_0000_0000_0000nat) by {
        reveal_with_fuel(pow256, 17);
    }
    assert(pow256(20) == 0x1_0000_0000_0000_0000_0000_0000_0000_0000_0000_0000nat) by {
        reveal_with_fuel(pow256, 21);
    }
    let padding = data.subrange(4, 16);
    let rest = data.skip(16);
    assert(data.skip(4) =~= padding + rest);
    lemma_be_value_concat(padding, rest);
    let zero = be_value(padding);
    let scale = pow256(20);
    let low = be_value(rest);
    assert(zero == 0) by (nonlinear_arith)
        requires
            zero * scale + low < scale,
            zero >= 0,
            low >= 0,
            scale > 0,
    ;
    assert(zero * scale == 0) by (nonlinear_arith)
        requires
            zero == 0,
    ;
    lemma_zero_bytes(padding);
    assert forall|i: int| 4 <= i < 16 implies #[trigger] data[i] == 0 by {
        assert(padding[i - 4] == data[i]);
    }
    law_bytes_are_big_endian(data.take(4));
    law_bytes_are_big_endian(rest);
}

} // verus!
