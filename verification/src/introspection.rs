//! Figures about the state as a whole.

use crate::budget::at_most_max;
use crate::contract::PriceOracleContract;
use crate::types::Address;
use vstd::prelude::*;

verus! {

/// Figures about the state.
#[derive(Clone, Copy, Debug, PartialEq, Eq, Structural)]
pub struct StateAnalysis {
    /// The registered sources.
    pub sources: u64,
    /// The registered assets.
    pub assets: u64,
    /// Those of them that have an aggregate.
    pub priced_assets: u64,
    /// Those of them whose price is frozen.
    pub frozen_assets: u64,
    /// What is recorded for them.
    pub history_entries: u64,
}

impl PriceOracleContract {
    /// Figures about the assets `assets`.
    pub open spec fn analysis_of(self, assets: Seq<Address>) -> StateAnalysis
        decreases assets.len(),
    {
        if assets.len() == 0 {
            StateAnalysis {
                sources: at_most_max(self.sources.keys().len() as int),
                assets: 0,
                priced_assets: 0,
                frozen_assets: 0,
                history_entries: 0,
            }
        } else {
            let rest = self.analysis_of(assets.drop_last());
            let a = assets.last();
            StateAnalysis {
                assets: at_most_max(rest.assets + 1),
                priced_assets: at_most_max(
                    rest.priced_assets + (if self.book.aggregates@.contains_key(a) {
                        1int
                    } else {
                        0
                    }),
                ),
                frozen_assets: at_most_max(
                    rest.frozen_assets + (if self.frozen@.contains_key(a) {
                        1int
                    } else {
                        0
                    }),
                ),
                history_entries: at_most_max(
                    rest.history_entries + at_most_max(self.history(a).len() as int),
                ),
                ..rest
            }
        }
    }

    /// Figures about the state.
    pub fn oracle_state_analyze(&self) -> (r: StateAnalysis)
        ensures
            r == self.analysis_of(self.book.assets.keys()),
    {
        let ghost keys = self.book.assets.keys();
        let mut r = StateAnalysis {
            sources: self.sources.len() as u64,
            assets: 0,
            priced_assets: 0,
            frozen_assets: 0,
            history_entries: 0,
        };
        let mut i: usize = 0;
        assert(keys.take(0) =~= Seq::<Address>::empty());
        while i < self.book.assets.len()
            invariant
                i <= keys.len(),
                keys == self.book.assets.keys(),
                r == self.analysis_of(keys.take(i as int)),
            decreases keys.len() - i,
        {
            let a: Address = self.book.assets.key_at(i);
            proof {
                assert(keys.take(i + 1).drop_last() =~= keys.take(i as int));
            }
            r.assets = r.assets.saturating_add(1);
            if self.book.aggregates.contains_key(&a) {
                r.priced_assets = r.priced_assets.saturating_add(1);
            }
            if self.frozen.contains_key(&a) {
                r.frozen_assets = r.frozen_assets.saturating_add(1);
            }
            if let Some(h) = self.book.histories.get(&a) {
                r.history_entries = r.history_entries.saturating_add(h.len() as u64);
            }
            i += 1;
        }
        assert(keys.take(keys.len() as int) =~= keys);
        r
    }
}

} // verus!
