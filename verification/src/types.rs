//! Addresses, symbols and the records that the oracle hands out.

use crate::table::Key;
use vstd::prelude::*;

verus! {

/// The address of an account or of a contract.
#[derive(Clone, Copy, Debug, PartialEq, Eq)]
pub struct Address {
    /// Whether the address names a contract rather than an account.
    pub is_contract: bool,
    /// The account's public key, or the hash that identifies the contract.
    pub id: [u8; 32],
}

/// A short ASCII name, filled up with zero bytes.
#[derive(Clone, Copy, Debug, PartialEq, Eq)]
pub struct Symbol {
    pub text: [u8; 32],
}

/// An asset as the standard oracle interface names it.
#[derive(Clone, Copy, Debug, PartialEq, Eq)]
pub enum Asset {
    /// A token contract on the chain.
    Stellar(Address),
    /// Anything else, by its symbol.
    Other(Symbol),
}

/// Whether two byte strings of 32 bytes are the same.
pub fn same_bytes(a: &[u8; 32], b: &[u8; 32]) -> (r: bool)
    ensures
        r == (*a == *b),
{
    let mut i: usize = 0;
    while i < 32
        invariant
            i <= 32,
            forall|j: int| 0 <= j < i ==> a@[j] == b@[j],
        decreases 32 - i,
    {
        if a[i] != b[i] {
            return false;
        }
        i += 1;
    }
    assert(*a =~= *b);
    true
}

impl Key for Address {
    fn same(&self, other: &Self) -> (r: bool) {
        self.is_contract == other.is_contract && same_bytes(&self.id, &other.id)
    }

    fn copy(&self) -> (r: Self) {
        *self
    }
}

impl Key for Symbol {
    fn same(&self, other: &Self) -> (r: bool) {
        same_bytes(&self.text, &other.text)
    }

    fn copy(&self) -> (r: Self) {
        *self
    }
}

/// Whether `a` is in `list`.
pub fn contains_address(list: &Vec<Address>, a: &Address) -> (r: bool)
    ensures
        r == list@.contains(*a),
{
    let mut i: usize = 0;
    while i < list.len()
        invariant
            i <= list@.len(),
            forall|j: int| 0 <= j < i ==> list@[j] != *a,
        decreases list@.len() - i,
    {
        if list[i].same(a) {
            return true;
        }
        i += 1;
    }
    false
}

/// What one source last reported for one asset.
#[derive(Clone, Copy, Debug, PartialEq, Eq)]
pub struct PriceEntry {
    pub source: Address,
    pub asset: Address,
    /// The price, scaled by ten to the power of the contract's decimals.
    pub price: i128,
    /// When the price was observed, in seconds.
    pub timestamp: u64,
    /// The ledger in which it was submitted.
    pub ledger: u32,
}

/// A price agreed by several sources.
#[derive(Clone, Copy, Debug, PartialEq, Eq, Structural)]
pub struct AggregatePrice {
    pub price: i128,
    /// The latest observation that went into the price, in seconds.
    pub timestamp: u64,
    /// How many sources went into the price.
    pub num_sources: u32,
    /// The ledger in which the price was agreed.
    pub ledger: u32,
}

/// An aggregate with a counter that moves only when the price does.
#[derive(Clone, Copy, Debug, PartialEq, Eq, Structural)]
pub struct VersionedAggregatePrice {
    pub aggregate: AggregatePrice,
    pub version: u32,
}

/// A price as the standard oracle interface reports it.
#[derive(Clone, Copy, Debug, PartialEq, Eq, Structural)]
pub struct PriceData {
    pub price: i128,
    pub timestamp: u64,
}

/// An aggregate as it stood at one ledger.
#[derive(Clone, Copy, Debug, PartialEq, Eq, Structural)]
pub struct PriceHistoryEntry {
    pub price: i128,
    pub timestamp: u64,
    pub ledger: u32,
    pub num_sources: u32,
    /// Whether the entry was estimated from its neighbours rather than recorded.
    pub is_interpolated: bool,
}

} // verus!
