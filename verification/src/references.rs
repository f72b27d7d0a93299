//! Other oracles, other chains, and the decimals of single assets.

use crate::admin::MAX_DEVIATION_BPS;
use crate::aggregation::{capped_deviation, deviation_bps};
use crate::contract::PriceOracleContract;
use crate::env::Env;
use crate::error::{refused_if, reply, ErrorCode};
use crate::events::Event;
use crate::price_book::lookup;
use crate::table::{Key, Table};
use crate::types::Address;
use vstd::prelude::*;

verus! {

/// The most decimals that an asset can have.
pub const MAX_DECIMALS: u32 = 18;

/// A deviation of a hundred percent, in ten-thousandths.
pub const FULL_DEVIATION_BPS: u32 = 10_000;

/// An aggregate beside the price of another oracle.
#[derive(Clone, Copy, Debug, PartialEq, Eq)]
pub struct CrossReferenceResult {
    /// The other oracle.
    pub reference: Address,
    pub our_price: i128,
    pub reference_price: i128,
    pub deviation_bps: u32,
}

/// A price that was observed on another chain.
#[derive(Debug)]
pub struct CrossChainPrice {
    pub price: i128,
    pub decimals: u32,
    pub chain_id: String,
    pub timestamp: u64,
}

/// The other oracles and chains.
#[derive(Debug)]
pub struct References {
    /// The other oracles, each with pairs of an asset and what the oracle calls it.
    pub oracles: Table<Address, Vec<(Address, Address)>>,
    /// From which deviation on another oracle is said to disagree, in ten-thousandths.
    pub deviation_threshold: u32,
    pub cross_chain_enabled: bool,
    pub cross_chain_threshold: u32,
    /// The last price by asset and oracle of another chain.
    pub cross_chain_prices: Table<(Address, Address), CrossChainPrice>,
    /// The decimals that replace the contract's own for single assets.
    pub asset_decimals: Table<Address, u32>,
}

/// What an oracle calls `asset`, by the first pair that names it.
pub open spec fn mapped(pairs: Seq<(Address, Address)>, asset: Address) -> Option<Address>
    decreases pairs.len(),
{
    if pairs.len() == 0 {
        None
    } else {
        match mapped(pairs.drop_last(), asset) {
            Some(a) => Some(a),
            None => if pairs.last().0 == asset {
                Some(pairs.last().1)
            } else {
                None
            },
        }
    }
}

proof fn lemma_mapped(pairs: Seq<(Address, Address)>, asset: Address, n: int)
    requires
        0 <= n <= pairs.len(),
        mapped(pairs.take(n), asset) is Some,
    ensures
        mapped(pairs, asset) == mapped(pairs.take(n), asset),
    decreases pairs.len() - n,
{
    if n < pairs.len() {
        assert(pairs.take(n + 1).drop_last() =~= pairs.take(n));
        lemma_mapped(pairs, asset, n + 1);
    } else {
        assert(pairs.take(n) =~= pairs);
    }
}

fn find_mapped(pairs: &Vec<(Address, Address)>, asset: &Address) -> (r: Option<Address>)
    ensures
        r == mapped(pairs@, *asset),
{
    let mut i: usize = 0;
    assert(pairs@.take(0) =~= Seq::<(Address, Address)>::empty());
    while i < pairs.len()
        invariant
            i <= pairs@.len(),
            mapped(pairs@.take(i as int), *asset) is None,
        decreases pairs@.len() - i,
    {
        proof {
            assert(pairs@.take(i + 1).drop_last() =~= pairs@.take(i as int));
            assert(pairs@.take(i + 1).last() == pairs@[i as int]);
        }
        if pairs[i].0.same(asset) {
            proof {
                lemma_mapped(pairs@, *asset, i + 1);
            }
            return Some(pairs[i].1);
        }
        i += 1;
    }
    assert(pairs@.take(pairs@.len() as int) =~= pairs@);
    None
}

impl PriceOracleContract {
    /// Whether `post` differs from `pre` only in the other oracles.
    pub open spec fn only_oracles_differ(pre: Self, post: Self) -> bool {
        post == (PriceOracleContract {
            references: References { oracles: post.references.oracles, ..pre.references },
            ..pre
        })
    }

    /// Adds another oracle, with pairs of an asset and what the oracle calls it.
    pub fn add_reference_oracle(
        &mut self,
        env: &Env,
        contract_id: Address,
        asset_mapping: Vec<(Address, Address)>,
    ) -> (r: Result<(), ErrorCode>)
        ensures
            r == reply(old(self).admin_refusal(*env)),
            r is Err ==> *final(self) == *old(self),
            r is Ok ==> final(self).references.oracles@ == old(self).references.oracles@.insert(
                contract_id,
                asset_mapping,
            ) && final(self).references.oracles.keys() == (if old(self).references.oracles@.contains_key(
                contract_id,
            ) {
                old(self).references.oracles.keys()
            } else {
                old(self).references.oracles.keys().push(contract_id)
            }),
            PriceOracleContract::only_oracles_differ(*old(self), *final(self)),
    {
        if let Some(e) = self.check_admin(env) {
            return Err(e);
        }
        self.references.oracles.insert(contract_id, asset_mapping);
        Ok(())
    }

    /// Forgets another oracle.
    pub fn remove_reference_oracle(&mut self, env: &Env, contract_id: Address) -> (r: Result<(), ErrorCode>)
        ensures
            r == reply(old(self).admin_refusal(*env)),
            r is Err ==> *final(self) == *old(self),
            r is Ok ==> final(self).references.oracles@ == old(self).references.oracles@.remove(contract_id)
                && final(self).references.oracles.keys() == old(
                self,
            ).references.oracles.keys().remove_value(contract_id),
            PriceOracleContract::only_oracles_differ(*old(self), *final(self)),
    {
        if let Some(e) = self.check_admin(env) {
            return Err(e);
        }
        let _ = self.references.oracles.remove(&contract_id);
        Ok(())
    }

    /// The other oracles, in the order in which they were added.
    pub fn get_reference_oracles(&self) -> (r: Vec<Address>)
        ensures
            r@ == self.references.oracles.keys(),
    {
        let mut r: Vec<Address> = Vec::new();
        let mut i: usize = 0;
        while i < self.references.oracles.len()
            invariant
                i <= self.references.oracles.keys().len(),
                r@ == self.references.oracles.keys().take(i as int),
            decreases self.references.oracles.keys().len() - i,
        {
            r.push(self.references.oracles.key_at(i));
            i += 1;
            assert(r@ =~= self.references.oracles.keys().take(i as int));
        }
        assert(r@ =~= self.references.oracles.keys());
        r
    }

    /// The first of the first `n` other oracles that knows `asset`, and what it calls it.
    pub open spec fn reference_among(self, asset: Address, n: int) -> Option<(Address, Address)>
        decreases n,
    {
        if n <= 0 {
            None
        } else {
            match self.reference_among(asset, n - 1) {
                Some(x) => Some(x),
                None => {
                    let o = self.references.oracles.keys()[n - 1];
                    match mapped(self.references.oracles@[o]@, asset) {
                        Some(a) => Some((o, a)),
                        None => None,
                    }
                },
            }
        }
    }

    /// The other oracle that is asked about `asset`, and what it calls it.
    pub open spec fn reference_of(self, asset: Address) -> Option<(Address, Address)> {
        self.reference_among(asset, self.references.oracles.keys().len() as int)
    }

    proof fn lemma_reference(self, asset: Address, n: int)
        requires
            0 <= n <= self.references.oracles.keys().len(),
            self.reference_among(asset, n) is Some,
        ensures
            self.reference_of(asset) == self.reference_among(asset, n),
        decreases self.references.oracles.keys().len() - n,
    {
        if n < self.references.oracles.keys().len() {
            self.lemma_reference(asset, n + 1);
        }
    }

    /// The first other oracle that knows `asset`, and what it calls it: which price to ask it for.
    pub fn find_reference(&self, asset: Address) -> (r: Option<(Address, Address)>)
        ensures
            r == self.reference_of(asset),
    {
        let mut i: usize = 0;
        while i < self.references.oracles.len()
            invariant
                i <= self.references.oracles.keys().len(),
                self.reference_among(asset, i as int) is None,
            decreases self.references.oracles.keys().len() - i,
        {
            let o: Address = self.references.oracles.key_at(i);
            if let Some(pairs) = self.references.oracles.get(&o) {
                if let Some(a) = find_mapped(pairs, &asset) {
                    proof {
                        self.lemma_reference(asset, i + 1);
                    }
                    return Some((o, a));
                }
            }
            i += 1;
        }
        None
    }

    /// What comes of comparing the aggregate of `asset` with what the other oracle said.
    pub open spec fn comparison(self, asset: Address, reference_price: i128) -> Option<
        CrossReferenceResult,
    > {
        if self.book.aggregates@.contains_key(asset) && self.book.aggregates@[asset].aggregate.price > 0
            && reference_price > 0 {
            match self.reference_of(asset) {
                Some((reference, _)) => Some(
                    CrossReferenceResult {
                        reference,
                        our_price: self.book.aggregates@[asset].aggregate.price,
                        reference_price,
                        deviation_bps: capped_deviation(
                            self.book.aggregates@[asset].aggregate.price,
                            reference_price,
                        ),
                    },
                ),
                None => None,
            }
        } else {
            None
        }
    }

    /// Compares the aggregate of `asset` with `reference_price`, which the oracle found by
    /// [`Self::find_reference`] said. Too large a deviation is announced.
    pub fn get_cross_reference(&mut self, asset: Address, reference_price: i128) -> (r: Option<
        CrossReferenceResult,
    >)
        ensures
            r == old(self).comparison(asset, reference_price),
            final(self).events@ == (match r {
                Some(x) => if x.deviation_bps > old(self).references.deviation_threshold {
                    old(self).events@.push(
                        Event::CrossRefDeviation { asset, deviation_bps: x.deviation_bps },
                    )
                } else {
                    old(self).events@
                },
                None => old(self).events@,
            }),
            *final(self) == (PriceOracleContract { events: final(self).events, ..*old(self) }),
    {
        let our_price: i128 = match self.book.aggregates.get(&asset) {
            Some(v) => v.aggregate.price,
            None => {
                return None;
            },
        };
        if our_price <= 0 || reference_price <= 0 {
            return None;
        }
        match self.find_reference(asset) {
            None => None,
            Some((reference, _)) => {
                let d: u32 = deviation_bps(our_price, reference_price);
                if d > self.references.deviation_threshold {
                    self.events.push(Event::CrossRefDeviation { asset, deviation_bps: d });
                }
                Some(CrossReferenceResult { reference, our_price, reference_price, deviation_bps: d })
            },
        }
    }

    /// The decimals of `asset`.
    pub open spec fn decimals_of(self, asset: Address) -> u32 {
        match lookup(self.references.asset_decimals@, asset) {
            Some(d) => d,
            None => self.config.decimals,
        }
    }

    /// Replaces the decimals for one asset.
    pub fn set_asset_decimals(&mut self, env: &Env, asset: Address, decimals: u32) -> (r: Result<
        (),
        ErrorCode,
    >)
        ensures
            r == reply(
                refused_if(
                    refused_if(
                        old(self).admin_refusal(*env),
                        !old(self).book.assets@.contains_key(asset),
                        ErrorCode::AssetNotRegistered,
                    ),
                    decimals > MAX_DECIMALS,
                    ErrorCode::InvalidConfiguration,
                ),
            ),
            r is Err ==> *final(self) == *old(self),
            r is Ok ==> final(self).references.asset_decimals@ == old(
                self,
            ).references.asset_decimals@.insert(asset, decimals),
            *final(self) == (PriceOracleContract {
                references: References {
                    asset_decimals: final(self).references.asset_decimals,
                    ..old(self).references
                },
                ..*old(self)
            }),
    {
        if let Some(e) = self.check_admin(env) {
            return Err(e);
        }
        if !self.book.assets.contains_key(&asset) {
            return Err(ErrorCode::AssetNotRegistered);
        }
        if decimals > MAX_DECIMALS {
            return Err(ErrorCode::InvalidConfiguration);
        }
        self.references.asset_decimals.insert(asset, decimals);
        Ok(())
    }

    /// The decimals of `asset`.
    pub fn get_asset_decimals(&self, asset: Address) -> (r: u32)
        ensures
            r == self.decimals_of(asset),
    {
        match self.references.asset_decimals.get(&asset) {
            Some(d) => *d,
            None => self.config.decimals,
        }
    }

    /// Puts the contract's own decimals into force again for one asset.
    pub fn clear_asset_decimals(&mut self, env: &Env, asset: Address) -> (r: Result<(), ErrorCode>)
        ensures
            r == reply(old(self).admin_refusal(*env)),
            r is Err ==> *final(self) == *old(self),
            r is Ok ==> final(self).references.asset_decimals@ == old(
                self,
            ).references.asset_decimals@.remove(asset),
            *final(self) == (PriceOracleContract {
                references: References {
                    asset_decimals: final(self).references.asset_decimals,
                    ..old(self).references
                },
                ..*old(self)
            }),
    {
        if let Some(e) = self.check_admin(env) {
            return Err(e);
        }
        let _ = self.references.asset_decimals.remove(&asset);
        Ok(())
    }

    /// Stores a price of `asset` that was observed on another chain.
    pub fn submit_cross_chain_price(
        &mut self,
        env: &Env,
        asset: Address,
        oracle_chain: Address,
        price: i128,
        decimals: u32,
        chain_id: String,
        timestamp: u64,
    ) -> (r: Result<(), ErrorCode>)
        ensures
            r == reply(
                refused_if(
                    refused_if(
                        old(self).admin_refusal(*env),
                        !old(self).book.assets@.contains_key(asset),
                        ErrorCode::AssetNotRegistered,
                    ),
                    price <= 0,
                    ErrorCode::InvalidPrice,
                ),
            ),
            r is Err ==> *final(self) == *old(self),
            r is Ok ==> final(self).references.cross_chain_prices@ == old(
                self,
            ).references.cross_chain_prices@.insert(
                (asset, oracle_chain),
                CrossChainPrice { price, decimals, chain_id, timestamp },
            ),
            *final(self) == (PriceOracleContract {
                references: References {
                    cross_chain_prices: final(self).references.cross_chain_prices,
                    ..old(self).references
                },
                ..*old(self)
            }),
    {
        if let Some(e) = self.check_admin(env) {
            return Err(e);
        }
        if !self.book.assets.contains_key(&asset) {
            return Err(ErrorCode::AssetNotRegistered);
        }
        if price <= 0 {
            return Err(ErrorCode::InvalidPrice);
        }
        self.references.cross_chain_prices.insert(
            (asset, oracle_chain),
            CrossChainPrice { price, decimals, chain_id, timestamp },
        );
        Ok(())
    }

    /// Sets from which deviation on another oracle is said to disagree, in ten-thousandths.
    pub fn set_cross_ref_deviation_bps(&mut self, env: &Env, threshold_bps: u32) -> (r: Result<(), ErrorCode>)
        ensures
            r == reply(
                refused_if(
                    old(self).admin_refusal(*env),
                    threshold_bps > MAX_DEVIATION_BPS,
                    ErrorCode::InvalidConfiguration,
                ),
            ),
            *final(self) == (if r is Ok {
                PriceOracleContract {
                    references: References { deviation_threshold: threshold_bps, ..old(self).references },
                    ..*old(self)
                }
            } else {
                *old(self)
            }),
    {
        if let Some(e) = self.check_admin(env) {
            return Err(e);
        }
        if threshold_bps > MAX_DEVIATION_BPS {
            return Err(ErrorCode::InvalidConfiguration);
        }
        self.references.deviation_threshold = threshold_bps;
        Ok(())
    }

    /// From which deviation on another oracle is said to disagree, in ten-thousandths.
    pub fn get_cross_ref_deviation_bps(&self) -> (r: u32)
        ensures
            r == self.references.deviation_threshold,
    {
        self.references.deviation_threshold
    }

    /// Turns the comparison with other chains on or off.
    pub fn set_cross_chain_verification_enabled(&mut self, env: &Env, enabled: bool) -> (r: Result<(), ErrorCode>)
        ensures
            r == reply(old(self).admin_refusal(*env)),
            *final(self) == (if r is Ok {
                PriceOracleContract {
                    references: References { cross_chain_enabled: enabled, ..old(self).references },
                    ..*old(self)
                }
            } else {
                *old(self)
            }),
    {
        if let Some(e) = self.check_admin(env) {
            return Err(e);
        }
        self.references.cross_chain_enabled = enabled;
        Ok(())
    }

    /// Whether prices are compared with other chains.
    pub fn is_cross_chain_verification_enabled(&self) -> (r: bool)
        ensures
            r == self.references.cross_chain_enabled,
    {
        self.references.cross_chain_enabled
    }

    /// Sets the largest deviation from another chain, in ten-thousandths.
    pub fn set_cross_chain_deviation_threshold(&mut self, env: &Env, threshold_bps: u32) -> (r: Result<(), ErrorCode>)
        ensures
            r == reply(
                refused_if(
                    old(self).admin_refusal(*env),
                    threshold_bps >= FULL_DEVIATION_BPS,
                    ErrorCode::InvalidConfiguration,
                ),
            ),
            *final(self) == (if r is Ok {
                PriceOracleContract {
                    references: References { cross_chain_threshold: threshold_bps, ..old(self).references },
                    ..*old(self)
                }
            } else {
                *old(self)
            }),
    {
        if let Some(e) = self.check_admin(env) {
            return Err(e);
        }
        if threshold_bps >= FULL_DEVIATION_BPS {
            return Err(ErrorCode::InvalidConfiguration);
        }
        self.references.cross_chain_threshold = threshold_bps;
        Ok(())
    }

    /// The largest deviation from another chain, in ten-thousandths.
    pub fn get_cross_chain_deviation_threshold(&self) -> (r: u32)
        ensures
            r == self.references.cross_chain_threshold,
    {
        self.references.cross_chain_threshold
    }
}

} // verus!
