//! What the contract announces and what it asks the chain to do.

use crate::aggregation::AggregationMethod;
use crate::types::{Address, Symbol};
use vstd::prelude::*;

verus! {

/// An announcement for observers off the chain.
#[derive(Clone, Copy, Debug, PartialEq, Eq)]
pub enum Event {
    /// The way of aggregating prices was changed.
    AggregationMethodChanged { method: AggregationMethod },
    /// The oldest recorded price of an asset was dropped.
    HistoryPruned { asset: Address, ledger: u32 },
    /// A price was asked for that is older than the caller accepts.
    PriceStale { asset: Address, timestamp: u64 },
    /// A source that counted as inactive is active again.
    SourceActiveAgain { source: Address },
    /// A storage migration began.
    MigrationStarted { from_version: u32, to_version: u32 },
    /// A storage migration went on.
    MigrationResumed { processed: u32 },
    /// A storage migration came to its end.
    MigrationCompleted { version: u32 },
    /// A reference oracle disagrees with the aggregate.
    CrossRefDeviation { asset: Address, deviation_bps: u32 },
    /// An aggregate waits for finality.
    PricePendingFinality { asset: Address, committed_ledger: u32, finality_ledger: u32 },
    /// An aggregate that waited for finality was taken back.
    PriceRetracted { asset: Address, committed_ledger: u32 },
    /// A price for other chains.
    PriceUpdate { symbol: Symbol, payload: PriceEventPayload },
}

/// A price as other chains are told of it.
#[derive(Clone, Copy, Debug, PartialEq, Eq)]
pub struct PriceEventPayload {
    pub symbol: Symbol,
    pub price: i128,
    pub timestamp: u64,
    pub ledger: u32,
}

/// A transfer of tokens that the contract asks for.
#[derive(Clone, Copy, Debug, PartialEq, Eq)]
pub enum Transfer {
    /// From `from` to the contract.
    Receive { token: Address, from: Address, amount: i128 },
    /// From the contract to `to`.
    Send { token: Address, to: Address, amount: i128 },
}

} // verus!
