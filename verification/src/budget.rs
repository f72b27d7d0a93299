//! What the storage of prices costs, roughly.

use crate::contract::PriceOracleContract;
use crate::error::ErrorCode;
use crate::types::{Address, PriceEntry};
use vstd::prelude::*;

verus! {

/// What it costs to keep one entry alive for another term, in stroops.
pub const TERM_COST: u64 = 10_000;

/// How many terms a month has.
pub const TERMS_PER_MONTH: u64 = 4;

/// What the storage of one asset holds and costs.
#[derive(Clone, Copy, Debug, PartialEq, Eq, Structural)]
pub struct StorageBudget {
    /// The recorded prices.
    pub history_entries: u64,
    /// The last prices of the sources.
    pub submission_entries: u64,
    /// These, the aggregate where there is one, and the registration.
    pub total_entries: u64,
    /// What one term costs, in stroops.
    pub term_cost: u64,
    /// What a month costs, in stroops.
    pub monthly_cost: u64,
}

/// What the storage of all assets holds and costs.
#[derive(Clone, Copy, Debug, PartialEq, Eq, Structural)]
pub struct TotalStorageBudget {
    pub assets: u64,
    pub total_entries: u64,
    pub term_cost: u64,
    pub monthly_cost: u64,
}

/// A number, or the largest one where it is too large.
pub open spec fn at_most_max(n: int) -> u64 {
    if n > u64::MAX {
        u64::MAX
    } else {
        n as u64
    }
}

fn cap(n: u128) -> (r: u64)
    ensures
        r == at_most_max(n as int),
{
    if n > u64::MAX as u128 {
        u64::MAX
    } else {
        n as u64
    }
}

impl PriceOracleContract {
    /// What is stored for `asset`.
    pub open spec fn entries_of(self, asset: Address) -> int {
        self.history(asset).len() + self.submissions_for(asset).len() + (if self.book.aggregates@.contains_key(
            asset,
        ) {
            1int
        } else {
            0
        }) + 1
    }

    /// What the storage of `asset` holds and costs.
    pub open spec fn budget_of(self, asset: Address) -> StorageBudget {
        StorageBudget {
            history_entries: at_most_max(self.history(asset).len() as int),
            submission_entries: at_most_max(self.submissions_for(asset).len() as int),
            total_entries: at_most_max(self.entries_of(asset)),
            term_cost: at_most_max(self.entries_of(asset) * TERM_COST),
            monthly_cost: at_most_max(self.entries_of(asset) * TERM_COST * TERMS_PER_MONTH),
        }
    }

    /// What the storage of `assets` holds and costs together.
    pub open spec fn total_budget_of(self, assets: Seq<Address>) -> TotalStorageBudget
        decreases assets.len(),
    {
        if assets.len() == 0 {
            TotalStorageBudget { assets: 0, total_entries: 0, term_cost: 0, monthly_cost: 0 }
        } else {
            let rest = self.total_budget_of(assets.drop_last());
            let b = self.budget_of(assets.last());
            TotalStorageBudget {
                assets: at_most_max(rest.assets + 1),
                total_entries: at_most_max(rest.total_entries + b.total_entries),
                term_cost: at_most_max(rest.term_cost + b.term_cost),
                monthly_cost: at_most_max(rest.monthly_cost + b.monthly_cost),
            }
        }
    }

    fn work_out_budget(&self, asset: &Address, prices: &Vec<PriceEntry>) -> (r: StorageBudget)
        requires
            prices@ == self.submissions_for(*asset),
        ensures
            r == self.budget_of(*asset),
    {
        let recorded: usize = match self.book.histories.get(asset) {
            Some(h) => h.len(),
            None => 0,
        };
        let aggregates: u128 = if self.book.aggregates.contains_key(asset) {
            1
        } else {
            0
        };
        let entries: u128 = recorded as u128 + prices.len() as u128 + aggregates + 1;
        proof {
            let most: int = 0x4_0000_0000_0000_0000;
            assert(entries <= most);
            assert(0 <= entries * TERM_COST <= most * 10_000 && 0 <= entries * TERM_COST * TERMS_PER_MONTH
                <= most * 40_000) by (nonlinear_arith)
                requires
                    0 <= entries <= most,
                    TERM_COST == 10_000,
                    TERMS_PER_MONTH == 4,
            ;
        }
        let term_cost: u128 = entries * TERM_COST as u128;
        let monthly_cost: u128 = term_cost * TERMS_PER_MONTH as u128;
        StorageBudget {
            history_entries: cap(recorded as u128),
            submission_entries: cap(prices.len() as u128),
            total_entries: cap(entries),
            term_cost: cap(term_cost),
            monthly_cost: cap(monthly_cost),
        }
    }

    /// Estimates what the storage of `asset` holds and costs.
    pub fn get_storage_budget(&self, asset: Address) -> (r: Result<StorageBudget, ErrorCode>)
        ensures
            r == (if self.entered {
                Err(ErrorCode::Reentrancy)
            } else if !self.book.assets@.contains_key(asset) {
                Err(ErrorCode::AssetNotRegistered)
            } else {
                Ok(self.budget_of(asset))
            }),
    {
        match self.get_all_prices(asset) {
            Err(e) => Err(e),
            Ok(prices) => Ok(self.work_out_budget(&asset, &prices)),
        }
    }

    /// Estimates what the storage of all registered assets holds and costs.
    pub fn get_total_storage_budget(&self) -> (r: Result<TotalStorageBudget, ErrorCode>)
        ensures
            r == (if self.entered {
                Err(ErrorCode::Reentrancy)
            } else {
                Ok(self.total_budget_of(self.book.assets.keys()))
            }),
    {
        if self.entered {
            return Err(ErrorCode::Reentrancy);
        }
        let ghost keys = self.book.assets.keys();
        let mut total = TotalStorageBudget { assets: 0, total_entries: 0, term_cost: 0, monthly_cost: 0 };
        let mut i: usize = 0;
        assert(keys.take(0) =~= Seq::<Address>::empty());
        while i < self.book.assets.len()
            invariant
                !self.entered,
                i <= keys.len(),
                keys == self.book.assets.keys(),
                total == self.total_budget_of(keys.take(i as int)),
            decreases keys.len() - i,
        {
            let asset: Address = self.book.assets.key_at(i);
            proof {
                assert(keys.take(i + 1).drop_last() =~= keys.take(i as int));
            }
            if let Ok(b) = self.get_storage_budget(asset) {
                total = TotalStorageBudget {
                    assets: total.assets.saturating_add(1),
                    total_entries: total.total_entries.saturating_add(b.total_entries),
                    term_cost: total.term_cost.saturating_add(b.term_cost),
                    monthly_cost: total.monthly_cost.saturating_add(b.monthly_cost),
                };
            }
            i += 1;
        }
        assert(keys.take(keys.len() as int) =~= keys);
        Ok(total)
    }
}

} // verus!
