//! What a call learns from the chain.

use crate::types::{contains_address, Address};
use vstd::prelude::*;

verus! {

/// The circumstances of one call.
#[derive(Debug)]
pub struct Env {
    /// The sequence number of the ledger that the call runs in.
    pub ledger: u32,
    /// The time of that ledger, in seconds.
    pub timestamp: u64,
    /// The hash of that ledger.
    pub ledger_hash: [u8; 32],
    /// The processor instructions spent so far.
    pub cpu_instructions: u64,
    /// The bytes of memory used so far.
    pub memory_bytes: u64,
    /// The addresses that authorize the call.
    pub authorized: Vec<Address>,
}

impl Env {
    /// Whether `a` authorizes the call.
    pub open spec fn authorizes(self, a: Address) -> bool {
        self.authorized@.contains(a)
    }

    /// Whether `a` authorizes the call.
    pub fn is_authorized_by(&self, a: &Address) -> (r: bool)
        ensures
            r == self.authorizes(*a),
    {
        contains_address(&self.authorized, a)
    }
}

} // verus!
