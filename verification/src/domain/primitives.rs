//! Fixed-size values of the EVM, held as integers of their big-endian bytes.
use crate::text::decimal;
use vstd::prelude::*;

verus! {

/// An account or contract address: its first four bytes and its last sixteen,
/// each as a big-endian number.
#[derive(Clone, Copy, Debug, PartialEq, Eq, Structural, Hash)]
pub struct Address {
    pub hi: u32,
    pub lo: u128,
}

/// A 32-byte word, as two big-endian halves.
#[derive(Clone, Copy, Debug, PartialEq, Eq, Structural, Hash)]
pub struct Word {
    pub hi: u128,
    pub lo: u128,
}

/// An unsigned 256-bit number, as its upper and lower half.
#[derive(Clone, Copy, Debug, PartialEq, Eq, Structural, Hash)]
pub struct U256 {
    pub hi: u128,
    pub lo: u128,
}

/// The block a read is made against.
#[derive(Clone, Copy, Debug, PartialEq, Eq, Structural)]
pub enum BlockId {
    Latest,
    Number(u64),
}

/// What the service reads of an event log.
#[derive(Debug)]
pub struct Log {
    /// The contract that emitted the log.
    pub address: Address,
    pub topics: Vec<Word>,
    pub data: Vec<u8>,
    pub block_number: Option<u64>,
}

/// The number that `bytes` denotes, most significant byte first.
pub open spec fn be_value(bytes: Seq<u8>) -> nat
    decreases bytes.len(),
{
    if bytes.len() == 0 {
        0
    } else {
        256 * be_value(bytes.drop_last()) + bytes.last() as nat
    }
}

/// The text of an address: `0x` and forty hexadecimal digits whose case
/// carries the checksum.
pub uninterp spec fn checksum_text(hi: u32, lo: u128) -> Seq<char>;

impl Address {
    /// Byte order, which is the order of the numbers the bytes denote.
    pub open spec fn before(self, other: Address) -> bool {
        self.hi < other.hi || (self.hi == other.hi && self.lo < other.lo)
    }

    /// The address in the last twenty bytes of `word`.
    pub open spec fn of_word(word: Word) -> Address {
        Address { hi: (word.hi % 0x1_0000_0000) as u32, lo: word.lo }
    }

    pub fn is_before(&self, other: &Address) -> (r: bool)
        ensures
            r == self.before(*other),
    {
        self.hi < other.hi || (self.hi == other.hi && self.lo < other.lo)
    }

    pub fn from_word(word: Word) -> (address: Address)
        ensures
            address == Address::of_word(word),
    {
        Address { hi: (word.hi % 0x1_0000_0000) as u32, lo: word.lo }
    }

    /// The word that holds `self` in its last twenty bytes and zeros before.
    pub fn into_word(self) -> (word: Word)
        ensures
            word.hi == self.hi,
            word.lo == self.lo,
    {
        Word { hi: self.hi as u128, lo: self.lo }
    }

    /// Displays the address through `alloy::primitives::Address`. The text is
    /// a function of the twenty bytes alone; its letters' case comes from a
    /// hash of them and is not spelled out here.
    #[verifier::external_body]
    pub(crate) fn to_text(&self) -> (text: String)
        ensures
            text@ == checksum_text(self.hi, self.lo),
    {
        let mut bytes = [0u8; 20];
        bytes[..4].copy_from_slice(&self.hi.to_be_bytes());
        bytes[4..].copy_from_slice(&self.lo.to_be_bytes());
        alloy::primitives::Address::from(bytes).to_string()
    }
}

/// An address put into a word is read back from it.
pub proof fn law_address_word_round_trip(address: Address, word: Word)
    requires
        word.hi == address.hi,
        word.lo == address.lo,
    ensures
        Address::of_word(word) == address,
{
}

/// Byte order is a strict total order on addresses.
pub proof fn law_address_order(a: Address, b: Address, c: Address)
    ensures
        !a.before(a),
        a.before(b) && b.before(c) ==> a.before(c),
        a == b || a.before(b) || b.before(a),
{
}

impl View for U256 {
    type V = nat;

    open spec fn view(&self) -> nat {
        (self.hi as nat) * 0x1_0000_0000_0000_0000_0000_0000_0000_0000nat + self.lo as nat
    }
}

impl U256 {
    /// Displays the number through `alloy::primitives::U256`, which writes it
    /// in decimal without leading zeros.
    #[verifier::external_body]
    pub(crate) fn to_text(&self) -> (text: String)
        ensures
            text@ == decimal(self@),
    {
        let mut bytes = [0u8; 32];
        bytes[..16].copy_from_slice(&self.hi.to_be_bytes());
        bytes[16..].copy_from_slice(&self.lo.to_be_bytes());
        alloy::primitives::U256::from_be_bytes(bytes).to_string()
    }

    /// Reads a `uint256` through `alloy::sol_types::SolValue::abi_decode`,
    /// which takes the first 32 bytes, ignores what follows them and refuses
    /// shorter data.
    #[verifier::external_body]
    pub(crate) fn abi_decode(data: &Vec<u8>) -> (number: Option<U256>)
        ensures
            number is Some <==> data@.len() >= 32,
            number matches Some(n) ==> n@ == be_value(data@.take(32)),
    {
        match <alloy::primitives::U256 as alloy::sol_types::SolValue>::abi_decode(data) {
            Ok(value) => {
                let halves: [u8; 32] = value.to_be_bytes();
                let hi = u128::from_be_bytes(halves[..16].try_into().unwrap());
                let lo = u128::from_be_bytes(halves[16..].try_into().unwrap());
                Some(U256 { hi, lo })
            },
            Err(_) => None,
        }
    }
}

/// The 256-bit number with this value.
pub open spec fn u256_of(value: nat) -> U256
    recommends
        value < 0x1_0000_0000_0000_0000_0000_0000_0000_0000nat
            * 0x1_0000_0000_0000_0000_0000_0000_0000_0000nat,
{
    U256 {
        hi: (value / 0x1_0000_0000_0000_0000_0000_0000_0000_0000nat) as u128,
        lo: (value % 0x1_0000_0000_0000_0000_0000_0000_0000_0000nat) as u128,
    }
}

/// What ABI-decoding a `uint256` yields.
pub open spec fn decoded_u256(data: Seq<u8>) -> Option<U256> {
    if data.len() >= 32 {
        Some(u256_of(be_value(data.take(32))))
    } else {
        None
    }
}

pub(crate) proof fn lemma_u256_of_view(number: U256)
    ensures
        u256_of(number@) == number,
{
}

/// Equal numbers are equal values: a 256-bit number has one representation.
pub proof fn law_u256_view_is_injective(a: U256, b: U256)
    requires
        a@ == b@,
    ensures
        a == b,
{
}

/// The address in a word is what is left of the word's number when it is
/// divided by two to the power of 160.
pub proof fn law_address_of_word_is_its_low_bytes(word: Word)
    ensures
        ({
            let half = 0x1_0000_0000_0000_0000_0000_0000_0000_0000nat;
            let address = Address::of_word(word);
            address.hi as nat * half + address.lo as nat == (word.hi as nat * half + word.lo as nat)
                % 0x1_0000_0000_0000_0000_0000_0000_0000_0000_0000_0000nat
        }),
{
    let half = 0x1_0000_0000_0000_0000_0000_0000_0000_0000nat;
    let whole = 0x1_0000_0000_0000_0000_0000_0000_0000_0000_0000_0000nat;
    let address = Address::of_word(word);
    let above = (word.hi / 0x1_0000_0000) as nat;
    let value = word.hi as nat * half + word.lo as nat;
    let low = address.hi as nat * half + address.lo as nat;
    assert(word.hi == above * 0x1_0000_0000 + address.hi);
    assert(value == above * whole + low);
    vstd::arithmetic::div_mod::lemma_fundamental_div_mod_converse(
        value as int,
        whole as int,
        above as int,
        low as int,
    );
}

/// Byte order is the order of the numbers that the twenty bytes denote.
pub proof fn law_address_order_is_numeric(a: Address, b: Address)
    ensures
        a.before(b) <==> a.hi * 0x1_0000_0000_0000_0000_0000_0000_0000_0000nat + a.lo < b.hi
            * 0x1_0000_0000_0000_0000_0000_0000_0000_0000nat + b.lo,
{
}

/// The bytes of a number denote it with the most significant one first.
pub proof fn law_bytes_are_big_endian(bytes: Seq<u8>)
    ensures
        be_value(bytes) == bytes.fold_left(0int, |value: int, b: u8| 256 * value + b),
    decreases bytes.len(),
{
    if bytes.len() > 0 {
        law_bytes_are_big_endian(bytes.drop_last());
    }
}

/// A `uint256` is decoded from the first 32 bytes, most significant first, and
/// from nothing less; what follows them does not matter.
pub proof fn law_decoded_number_is_big_endian(data: Seq<u8>, number: U256)
    ensures
        decoded_u256(data) is Some <==> data.len() >= 32,
        data.len() >= 32 && data.take(32).fold_left(0int, |value: int, b: u8| 256 * value + b)
            == number.hi * 0x1_0000_0000_0000_0000_0000_0000_0000_0000nat + number.lo
            ==> decoded_u256(data) == Some(number),
        number@ == number.hi * 0x1_0000_0000_0000_0000_0000_0000_0000_0000nat + number.lo,
{
    law_bytes_are_big_endian(data.take(32));
    lemma_u256_of_view(number);
}

} // verus!
