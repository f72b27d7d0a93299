//! What a relayer has done, at a glance.

use crate::contract::PriceOracleContract;
use crate::relayers::{balance_of, count_of};
use crate::types::Address;
use vstd::prelude::*;

verus! {

/// What a relayer has done.
#[derive(Debug)]
pub struct RelayerDashboard {
    /// How many prices it has submitted.
    pub submissions: u64,
    /// The submissions among the submissions and the failures, in ten-thousandths.
    pub success_rate_bps: u32,
    /// The seconds from an observation to its submission, on average.
    pub average_latency: u64,
    pub fees: i128,
    pub rewards: i128,
    pub bond: i128,
    /// The registered assets for which it has submitted prices, with their number.
    pub by_asset: Vec<(Address, u64)>,
    /// How many of a hundred approved relayers have submitted no more prices than it has.
    pub percentile: u32,
}

/// `part` of `whole` in units of which `scale` make the whole; zero of nothing.
pub open spec fn share(part: int, whole: int, scale: int) -> int {
    if whole <= 0 {
        0
    } else {
        part * scale / whole
    }
}

proof fn lemma_share(part: int, whole: int, scale: int)
    requires
        0 <= part <= whole,
        0 <= scale,
    ensures
        0 <= share(part, whole, scale) <= scale,
{
    if whole > 0 {
        assert(0 <= part * scale <= whole * scale) by (nonlinear_arith)
            requires
                0 <= part <= whole,
                0 <= scale,
        ;
        vstd::arithmetic::div_mod::lemma_div_is_ordered(0, part * scale, whole);
        vstd::arithmetic::div_mod::lemma_div_is_ordered(part * scale, whole * scale, whole);
        vstd::arithmetic::div_mod::lemma_div_multiples_vanish(scale, whole);
    }
}

impl PriceOracleContract {
    /// How many of the approved relayers have submitted at most `n` prices.
    pub open spec fn relayers_up_to(self, n: u64) -> nat {
        self.relayers.approved.keys().filter(|r: Address| self.submissions_of(r) <= n).len()
    }

    /// The registered assets for which `relayer` has submitted prices, with their number.
    pub open spec fn submissions_by_asset(self, relayer: Address) -> Seq<(Address, u64)> {
        self.book.assets.keys().filter(
            |a: Address| count_of(self.relayers.asset_counts@, (relayer, a)) > 0,
        ).map_values(|a: Address| (a, count_of(self.relayers.asset_counts@, (relayer, a))))
    }

    fn count_relayers_up_to(&self, n: u64) -> (r: usize)
        ensures
            r == self.relayers_up_to(n),
            r <= self.relayers.approved.keys().len(),
    {
        let ghost keys = self.relayers.approved.keys();
        let ghost pred = |r: Address| self.submissions_of(r) <= n;
        let mut found: usize = 0;
        let mut i: usize = 0;
        proof {
            reveal(Seq::filter);
            assert(keys.take(0).filter(pred).len() == 0);
        }
        while i < self.relayers.approved.len()
            invariant
                i <= keys.len(),
                keys == self.relayers.approved.keys(),
                pred == (|r: Address| self.submissions_of(r) <= n),
                found == keys.take(i as int).filter(pred).len(),
                found <= i,
            decreases keys.len() - i,
        {
            let relayer: Address = self.relayers.approved.key_at(i);
            proof {
                reveal(Seq::filter);
                assert(keys.take(i + 1).drop_last() =~= keys.take(i as int));
            }
            if self.get_relayer_submission_count(relayer) <= n {
                found += 1;
            }
            i += 1;
        }
        assert(keys.take(keys.len() as int) =~= keys);
        found
    }

    fn list_submissions_by_asset(&self, relayer: &Address) -> (r: Vec<(Address, u64)>)
        ensures
            r@ == self.submissions_by_asset(*relayer),
    {
        let ghost keys = self.book.assets.keys();
        let ghost pred = |a: Address| count_of(self.relayers.asset_counts@, (*relayer, a)) > 0;
        let ghost line = |a: Address| (a, count_of(self.relayers.asset_counts@, (*relayer, a)));
        let mut list: Vec<(Address, u64)> = Vec::new();
        let mut i: usize = 0;
        proof {
            reveal(Seq::filter);
            assert(keys.take(0).filter(pred) =~= Seq::<Address>::empty());
            assert(list@ =~= keys.take(0).filter(pred).map_values(line));
        }
        while i < self.book.assets.len()
            invariant
                i <= keys.len(),
                keys == self.book.assets.keys(),
                pred == (|a: Address| count_of(self.relayers.asset_counts@, (*relayer, a)) > 0),
                line == (|a: Address| (a, count_of(self.relayers.asset_counts@, (*relayer, a)))),
                list@ == keys.take(i as int).filter(pred).map_values(line),
            decreases keys.len() - i,
        {
            let asset: Address = self.book.assets.key_at(i);
            let n: u64 = match self.relayers.asset_counts.get(&(*relayer, asset)) {
                Some(n) => *n,
                None => 0,
            };
            proof {
                reveal(Seq::filter);
                assert(keys.take(i + 1).drop_last() =~= keys.take(i as int));
                let f = keys.take(i as int).filter(pred);
                assert(f.push(asset).map_values(line) =~= f.map_values(line).push(line(asset)));
            }
            if n > 0 {
                list.push((asset, n));
            }
            i += 1;
        }
        assert(keys.take(keys.len() as int) =~= keys);
        list
    }

    /// What `relayer` has done: how much it has submitted and how well, what it has earned and
    /// deposited, and how it compares with the other approved relayers.
    pub fn get_relayer_dashboard(&self, relayer: Address) -> (r: RelayerDashboard)
        ensures
            r.submissions == self.submissions_of(relayer),
            r.success_rate_bps == share(
                self.submissions_of(relayer) as int,
                self.submissions_of(relayer) + self.failures_of(relayer),
                10_000,
            ),
            r.average_latency == share(
                count_of(self.relayers.latencies@, relayer) as int,
                self.submissions_of(relayer) as int,
                1,
            ),
            r.fees == balance_of(self.relayers.fee_balances@, relayer),
            r.rewards == balance_of(self.relayers.reward_balances@, relayer),
            r.bond == balance_of(self.relayers.bonds@, relayer),
            r.by_asset@ == self.submissions_by_asset(relayer),
            r.percentile == share(
                self.relayers_up_to(self.submissions_of(relayer)) as int,
                self.relayers.approved.keys().len() as int,
                100,
            ),
    {
        let submissions: u64 = self.get_relayer_submission_count(relayer);
        let failures: u32 = self.get_relayer_failure_count(relayer);
        let attempts: u128 = submissions as u128 + failures as u128;
        proof {
            lemma_share(submissions as int, attempts as int, 10_000);
        }
        let success_rate_bps: u32 = if attempts == 0 {
            0
        } else {
            (submissions as u128 * 10_000 / attempts) as u32
        };
        let seconds: u64 = match self.relayers.latencies.get(&relayer) {
            Some(s) => *s,
            None => 0,
        };
        let average_latency: u64 = if submissions == 0 {
            0
        } else {
            seconds / submissions
        };
        let below: usize = self.count_relayers_up_to(submissions);
        let all: usize = self.relayers.approved.len();
        proof {
            lemma_share(below as int, all as int, 100);
        }
        let percentile: u32 = if all == 0 {
            0
        } else {
            (below as u128 * 100 / all as u128) as u32
        };
        RelayerDashboard {
            submissions,
            success_rate_bps,
            average_latency,
            fees: self.get_relayer_fee_balance(relayer),
            rewards: self.get_relayer_reward_balance(relayer),
            bond: self.get_relayer_bond_balance(relayer),
            by_asset: self.list_submissions_by_asset(&relayer),
            percentile,
        }
    }
}

} // verus!
