//! Submitting prices and asking for them.

use crate::answer_laws::{seconds_reported, the_price_at_a_time_is_the_last_one_before_it};
use crate::contract::{FrozenPrice, GasRecord, PriceBounds, PriceOracleContract, QueryCount};
use crate::env::Env;
use crate::error::ErrorCode;
use crate::events::Event;
use crate::history_log::{first_from, in_ledger_order};
use crate::price_book::{history_of, AggregationRules, PriceState, RulesInForce};
use crate::types::{
    Address, AggregatePrice, Asset, PriceData, PriceEntry, PriceHistoryEntry, VersionedAggregatePrice,
};
use vstd::prelude::*;

verus! {

/// How many ledgers the standard interface looks back.
pub const LOOKBACK_LEDGERS: u32 = 1000;

/// The longest reason that may be given, in characters.
pub const MAX_TEXT: usize = 256;

/// The smaller of two numbers.
pub open spec fn smaller(a: u32, b: u32) -> u32 {
    if a < b {
        a
    } else {
        b
    }
}

/// Whether `timestamp` is older than `age` seconds at `now`.
pub open spec fn older_than(timestamp: u64, now: u64, age: int) -> bool {
    timestamp + age < now
}

/// Whether `timestamp` is older than `age` seconds at `now`.
pub fn is_older_than(timestamp: u64, now: u64, age: u64) -> (r: bool)
    ensures
        r == older_than(timestamp, now, age as int),
{
    timestamp < now && now - timestamp > age
}

/// A price and its time.
pub open spec fn data_of(a: AggregatePrice) -> PriceData {
    PriceData { price: a.price, timestamp: a.timestamp }
}

/// A recorded price and its time.
pub open spec fn data_of_entry(e: PriceHistoryEntry) -> PriceData {
    PriceData { price: e.price, timestamp: e.timestamp }
}

/// The first ledger that a search back from `ledger` looks at.
pub open spec fn lookback_floor(ledger: u32) -> u32 {
    if ledger > LOOKBACK_LEDGERS {
        (ledger - LOOKBACK_LEDGERS) as u32
    } else {
        0
    }
}

/// The newest entry of ledger `floor` or later that was observed at `timestamp` or before.
pub open spec fn last_observed(s: Seq<PriceHistoryEntry>, floor: u32, timestamp: u64) -> Option<
    PriceHistoryEntry,
>
    decreases s.len(),
{
    if s.len() == 0 || s.last().ledger < floor {
        None
    } else if s.last().timestamp <= timestamp {
        Some(s.last())
    } else {
        last_observed(s.drop_last(), floor, timestamp)
    }
}

/// The newest entries of ledger `floor` or later, newest first, at most `records` of them.
pub open spec fn newest_data(s: Seq<PriceHistoryEntry>, floor: u32, records: u32) -> Seq<PriceData> {
    let recent = s.len() - first_from(s, floor);
    let n = if recent < records {
        recent
    } else {
        records as int
    };
    Seq::new(n as nat, |i: int| data_of_entry(s[s.len() - 1 - i]))
}

impl PriceState {
    /// After the prices `items` of one source were stored at the time `now`.
    pub open spec fn stored_all(
        self,
        source: Address,
        ledger: u32,
        now: u64,
        items: Seq<(Address, i128, u64)>,
    ) -> Self
        decreases items.len(),
    {
        if items.len() == 0 {
            self
        } else {
            let (asset, price, timestamp) = items.last();
            self.stored_all(source, ledger, now, items.drop_last()).stored(
                PriceEntry { source, asset, price, timestamp, ledger },
                now,
            )
        }
    }

    /// After each asset of `items` was aggregated, one after the other.
    pub open spec fn aggregated_all(self, rules: AggregationRules, items: Seq<(Address, i128, u64)>) -> Self
        decreases items.len(),
    {
        if items.len() == 0 {
            self
        } else {
            self.aggregated_all(rules, items.drop_last()).aggregated(rules, items.last().0)
        }
    }
}

impl PriceOracleContract {
    /// The prices that the contract holds, and what it announced.
    pub open spec fn price_state(self) -> PriceState {
        self.book.state(self.events@)
    }

    /// Whether `post` differs from `pre` in prices and announcements only.
    pub open spec fn only_prices_differ(pre: Self, post: Self) -> bool {
        post == (PriceOracleContract { book: post.book, events: post.events, ..pre })
    }

    /// What decides how prices are aggregated.
    pub open spec fn rules(self, env: Env) -> AggregationRules {
        AggregationRules {
            ledger: env.ledger,
            now: env.timestamp,
            sources: self.sources.keys(),
            weights: self.weights@,
            min_sources: self.config.min_sources_required,
            max_sources: self.settings.max_aggregation_sources,
            min_interval: self.settings.min_submission_interval,
            round: self.round,
            method: self.settings.aggregation_method,
            compaction_threshold: self.settings.compaction_threshold_bps,
            history_limit: smaller(
                self.config.max_history_length,
                self.settings.max_history_per_asset,
            ),
            event_limit: self.settings.max_events_per_call,
            pools: self.pools,
            decimals: self.config.decimals,
        }
    }

    /// The lowest price that is accepted for `asset`.
    pub open spec fn min_price(self, asset: Address) -> i128 {
        if self.price_bounds@.contains_key(asset) {
            self.price_bounds@[asset].min_price
        } else {
            0
        }
    }

    /// Whether `source` may not submit prices.
    pub open spec fn is_suspended(self, source: Address) -> bool {
        self.suspended@.contains_key(source) && self.suspended@[source]
    }

    /// Why a price is refused, if it is.
    pub open spec fn price_refusal(
        self,
        env: Env,
        source: Address,
        asset: Address,
        price: i128,
        timestamp: u64,
    ) -> Option<ErrorCode> {
        if self.halted(env) {
            Some(ErrorCode::ContractPaused)
        } else if !self.sources@.contains_key(source) {
            Some(ErrorCode::SourceNotFound)
        } else if self.is_suspended(source) {
            Some(ErrorCode::NotAuthorized)
        } else if !self.book.assets@.contains_key(asset) {
            Some(ErrorCode::AssetNotRegistered)
        } else if self.asset_paused(asset) {
            Some(ErrorCode::ContractPaused)
        } else if self.frozen@.contains_key(asset) {
            Some(ErrorCode::PriceFrozen)
        } else if price <= 0 {
            Some(ErrorCode::InvalidPrice)
        } else if price < self.min_price(asset) {
            Some(ErrorCode::PriceBelowMinimum)
        } else if timestamp > env.timestamp + self.config.timestamp_threshold {
            Some(ErrorCode::InvalidTimestamp)
        } else {
            None
        }
    }

    /// Why a price that was not committed before is refused, if it is.
    pub open spec fn direct_refusal(
        self,
        env: Env,
        source: Address,
        asset: Address,
        price: i128,
        timestamp: u64,
    ) -> Option<ErrorCode> {
        match self.price_refusal(env, source, asset, price, timestamp) {
            Some(e) => Some(e),
            None => if self.settings.bft_fault_tolerance > 0 {
                Some(ErrorCode::CommitRevealRequired)
            } else {
                None
            },
        }
    }

    /// Why the first refused price of `items` is refused, if one is.
    pub open spec fn batch_refusal(self, env: Env, source: Address, items: Seq<(Address, i128, u64)>) -> Option<
        ErrorCode,
    >
        decreases items.len(),
    {
        if items.len() == 0 {
            None
        } else {
            match self.batch_refusal(env, source, items.drop_last()) {
                Some(e) => Some(e),
                None => {
                    let (asset, price, timestamp) = items.last();
                    self.direct_refusal(env, source, asset, price, timestamp)
                },
            }
        }
    }

    /// Why a price is refused, if it is.
    pub(crate) fn check_price(
        &self,
        env: &Env,
        source: &Address,
        asset: &Address,
        price: i128,
        timestamp: u64,
    ) -> (r: Option<ErrorCode>)
        ensures
            r == self.price_refusal(*env, *source, *asset, price, timestamp),
    {
        if self.is_halted(env) {
            return Some(ErrorCode::ContractPaused);
        }
        if !self.sources.contains_key(source) {
            return Some(ErrorCode::SourceNotFound);
        }
        if let Some(s) = self.suspended.get(source) {
            if *s {
                return Some(ErrorCode::NotAuthorized);
            }
        }
        if !self.book.assets.contains_key(asset) {
            return Some(ErrorCode::AssetNotRegistered);
        }
        if self.is_asset_paused(*asset) {
            return Some(ErrorCode::ContractPaused);
        }
        if self.frozen.contains_key(asset) {
            return Some(ErrorCode::PriceFrozen);
        }
        if price <= 0 {
            return Some(ErrorCode::InvalidPrice);
        }
        let min: i128 = match self.price_bounds.get(asset) {
            Some(b) => b.min_price,
            None => 0,
        };
        if price < min {
            return Some(ErrorCode::PriceBelowMinimum);
        }
        if timestamp > env.timestamp && timestamp - env.timestamp > self.config.timestamp_threshold {
            return Some(ErrorCode::InvalidTimestamp);
        }
        None
    }

    /// Why a price that was not committed before is refused, if it is.
    pub(crate) fn check_direct(
        &self,
        env: &Env,
        source: &Address,
        asset: &Address,
        price: i128,
        timestamp: u64,
    ) -> (r: Option<ErrorCode>)
        ensures
            r == self.direct_refusal(*env, *source, *asset, price, timestamp),
    {
        if let Some(e) = self.check_price(env, source, asset, price, timestamp) {
            return Some(e);
        }
        if self.settings.bft_fault_tolerance > 0 {
            return Some(ErrorCode::CommitRevealRequired);
        }
        None
    }

    /// Aggregates the prices of `asset`, and tells whether enough sources have priced it.
    pub(crate) fn aggregate_asset(&mut self, env: &Env, asset: &Address) -> (r: bool)
        ensures
            r == old(self).rules(*env).quorum(old(self).book.submissions@, *asset),
            final(self).price_state() == old(self).price_state().aggregated(old(self).rules(*env), *asset),
            PriceOracleContract::only_prices_differ(*old(self), *final(self)),
            !r ==> *final(self) == *old(self),
    {
        let history_limit: u32 = if self.config.max_history_length < self.settings.max_history_per_asset {
            self.config.max_history_length
        } else {
            self.settings.max_history_per_asset
        };
        let rules = RulesInForce {
            ledger: env.ledger,
            now: env.timestamp,
            sources: &self.sources,
            weights: &self.weights,
            min_sources: self.config.min_sources_required,
            max_sources: self.settings.max_aggregation_sources,
            min_interval: self.settings.min_submission_interval,
            round: self.round,
            method: self.settings.aggregation_method,
            compaction_threshold: self.settings.compaction_threshold_bps,
            history_limit,
            event_limit: self.settings.max_events_per_call,
            pools: &self.pools,
            decimals: self.config.decimals,
        };
        assert(rules.rules() == self.rules(*env));
        self.book.aggregate(&rules, asset, &mut self.events)
    }

    /// Stores a price and aggregates its asset.
    pub(crate) fn take_price(&mut self, env: &Env, entry: PriceEntry)
        requires
            entry.price > 0,
        ensures
            final(self).price_state() == old(self).price_state().submitted(old(self).rules(*env), entry),
            PriceOracleContract::only_prices_differ(*old(self), *final(self)),
    {
        self.book.store(entry, env.timestamp);
        let ghost mid = *self;
        assert(mid.price_state() == old(self).price_state().stored(entry, env.timestamp));
        assert(mid.rules(*env) == old(self).rules(*env));
        let _ = self.aggregate_asset(env, &entry.asset);
    }

    /// Submits a price that `source` observed for `asset`.
    ///
    /// The source authorizes the call. The price replaces the source's last one; where enough
    /// sources have priced the asset, the aggregate is renewed and recorded. `nonce` tells
    /// otherwise equal calls apart and is not looked at.
    pub fn submit_price(
        &mut self,
        env: &Env,
        source: Address,
        asset: Address,
        price: i128,
        timestamp: u64,
        nonce: u64,
    ) -> (r: Result<(), ErrorCode>)
        ensures
            r == (if old(self).entered {
                Err(ErrorCode::Reentrancy)
            } else if !env.authorizes(source) {
                Err(ErrorCode::NotAuthorized)
            } else {
                match old(self).direct_refusal(*env, source, asset, price, timestamp) {
                    Some(e) => Err(e),
                    None => Ok(()),
                }
            }),
            r is Ok ==> final(self).price_state() == old(self).price_state().submitted(
                old(self).rules(*env),
                PriceEntry { source, asset, price, timestamp, ledger: env.ledger },
            ),
            PriceOracleContract::only_prices_differ(*old(self), *final(self)),
            r is Err ==> *final(self) == *old(self),
    {
        if self.entered {
            return Err(ErrorCode::Reentrancy);
        }
        if !env.is_authorized_by(&source) {
            return Err(ErrorCode::NotAuthorized);
        }
        if let Some(e) = self.check_direct(env, &source, &asset, price, timestamp) {
            return Err(e);
        }
        self.take_price(env, PriceEntry { source, asset, price, timestamp, ledger: env.ledger });
        Ok(())
    }

    /// Submits prices of one source for several assets, all of them or none. Each asset is
    /// aggregated once all prices are stored.
    pub fn submit_prices(&mut self, env: &Env, source: Address, asset_prices: Vec<(Address, i128, u64)>) -> (r:
        Result<(), ErrorCode>)
        ensures
            r == (if !env.authorizes(source) {
                Err(ErrorCode::NotAuthorized)
            } else {
                match old(self).batch_refusal(*env, source, asset_prices@) {
                    Some(e) => Err(e),
                    None => Ok(()),
                }
            }),
            r is Ok ==> final(self).price_state() == old(self).price_state().stored_all(
                source,
                env.ledger,
                env.timestamp,
                asset_prices@,
            ).aggregated_all(old(self).rules(*env), asset_prices@),
            PriceOracleContract::only_prices_differ(*old(self), *final(self)),
            r is Err ==> *final(self) == *old(self),
    {
        if !env.is_authorized_by(&source) {
            return Err(ErrorCode::NotAuthorized);
        }
        let ghost items = asset_prices@;
        let mut i: usize = 0;
        assert(items.take(0) =~= Seq::<(Address, i128, u64)>::empty());
        while i < asset_prices.len()
            invariant
                i <= items.len(),
                items == asset_prices@,
                *self == *old(self),
                env.authorizes(source),
                self.batch_refusal(*env, source, items.take(i as int)) is None,
                forall|j: int| 0 <= j < i ==> (#[trigger] items[j]).1 > 0,
            decreases items.len() - i,
        {
            let (asset, price, timestamp) = asset_prices[i];
            proof {
                assert(items.take(i + 1).drop_last() =~= items.take(i as int));
                assert(items.take(i + 1).last() == items[i as int]);
            }
            if let Some(e) = self.check_direct(env, &source, &asset, price, timestamp) {
                proof {
                    self.lemma_batch_refusal(*env, source, items, i + 1);
                }
                return Err(e);
            }
            i += 1;
        }
        assert(items.take(items.len() as int) =~= items);
        let mut k: usize = 0;
        while k < asset_prices.len()
            invariant
                k <= items.len(),
                items == asset_prices@,
                forall|j: int| 0 <= j < items.len() ==> (#[trigger] items[j]).1 > 0,
                self.price_state() == old(self).price_state().stored_all(
                    source,
                    env.ledger,
                    env.timestamp,
                    items.take(k as int),
                ),
                self.rules(*env) == old(self).rules(*env),
                PriceOracleContract::only_prices_differ(*old(self), *self),
            decreases items.len() - k,
        {
            let (asset, price, timestamp) = asset_prices[k];
            proof {
                assert(items.take(k + 1).drop_last() =~= items.take(k as int));
                assert(items.take(k + 1).last() == items[k as int]);
                assert(items[k as int].1 > 0);
            }
            self.book.store(
                PriceEntry { source, asset, price, timestamp, ledger: env.ledger },
                env.timestamp,
            );
            k += 1;
        }
        let ghost all_stored = self.price_state();
        let mut m: usize = 0;
        while m < asset_prices.len()
            invariant
                m <= items.len(),
                items == asset_prices@,
                self.price_state() == all_stored.aggregated_all(
                    old(self).rules(*env),
                    items.take(m as int),
                ),
                self.rules(*env) == old(self).rules(*env),
                PriceOracleContract::only_prices_differ(*old(self), *self),
            decreases items.len() - m,
        {
            let (asset, _, _) = asset_prices[m];
            proof {
                assert(items.take(m + 1).drop_last() =~= items.take(m as int));
                assert(items.take(m + 1).last() == items[m as int]);
            }
            let _ = self.aggregate_asset(env, &asset);
            m += 1;
        }
        Ok(())
    }

    proof fn lemma_batch_refusal(self, env: Env, source: Address, items: Seq<(Address, i128, u64)>, n: int)
        requires
            0 <= n <= items.len(),
            self.batch_refusal(env, source, items.take(n)) is Some,
        ensures
            self.batch_refusal(env, source, items) == self.batch_refusal(env, source, items.take(n)),
        decreases items.len() - n,
    {
        if n < items.len() {
            assert(items.take(n + 1).drop_last() =~= items.take(n));
            self.lemma_batch_refusal(env, source, items, n + 1);
        } else {
            assert(items.take(n) =~= items);
        }
    }

    /// Keeps what a submission cost: the difference between two readings of the meters.
    pub fn record_submit_gas(&mut self, before: &Env, after: &Env)
        ensures
            final(self).last_gas matches Some(g) && g.operation@ == "submit_price"@
                && g.cpu_instructions == (if after.cpu_instructions > before.cpu_instructions {
                (after.cpu_instructions - before.cpu_instructions) as u64
            } else {
                0
            }) && g.memory_bytes == (if after.memory_bytes > before.memory_bytes {
                (after.memory_bytes - before.memory_bytes) as u64
            } else {
                0
            }),
            *final(self) == (PriceOracleContract { last_gas: final(self).last_gas, ..*old(self) }),
    {
        let cpu_instructions: u64 = after.cpu_instructions.saturating_sub(before.cpu_instructions);
        let memory_bytes: u64 = after.memory_bytes.saturating_sub(before.memory_bytes);
        self.last_gas = Some(
            GasRecord { operation: "submit_price".to_owned(), cpu_instructions, memory_bytes },
        );
    }

    /// What the meters show, and what the last submission cost.
    pub fn get_gas_stats(&self, env: &Env) -> (r: (u64, u64, Option<&GasRecord>))
        ensures
            r.0 == env.cpu_instructions,
            r.1 == env.memory_bytes,
            r.2 == (match &self.last_gas {
                Some(g) => Some(g),
                None => None,
            }),
    {
        let last = match &self.last_gas {
            Some(g) => Some(g),
            None => None,
        };
        (env.cpu_instructions, env.memory_bytes, last)
    }

    /// The sequence number of the current ledger.
    pub fn get_latest_ledger(&self, env: &Env) -> (r: Result<u32, ErrorCode>)
        ensures
            r == (if self.entered {
                Err(ErrorCode::Reentrancy)
            } else {
                Ok(env.ledger)
            }),
    {
        if self.entered {
            return Err(ErrorCode::Reentrancy);
        }
        Ok(env.ledger)
    }

    /// The sources whose last price for `asset` is recent enough to count.
    pub open spec fn compliant_sources(self, env: Env, asset: Address) -> Seq<Address> {
        AggregationRules { round: None, ..self.rules(env) }.eligible(self.book.submissions@, asset)
    }

    /// The sources whose last price for `asset` is recent enough to count.
    pub fn get_compliant_sources(&self, env: &Env, asset: Address) -> (r: Vec<Address>)
        ensures
            r@ == self.compliant_sources(*env, asset),
    {
        let rules = RulesInForce {
            ledger: env.ledger,
            now: env.timestamp,
            sources: &self.sources,
            weights: &self.weights,
            min_sources: self.config.min_sources_required,
            max_sources: self.settings.max_aggregation_sources,
            min_interval: self.settings.min_submission_interval,
            round: None,
            method: self.settings.aggregation_method,
            compaction_threshold: self.settings.compaction_threshold_bps,
            history_limit: if self.config.max_history_length < self.settings.max_history_per_asset {
                self.config.max_history_length
            } else {
                self.settings.max_history_per_asset
            },
            event_limit: self.settings.max_events_per_call,
            pools: &self.pools,
            decimals: self.config.decimals,
        };
        self.book.eligible(&rules, &asset)
    }

    /// Whether the last triggered aggregation of `asset` is too recent for another.
    pub open spec fn cooling_down(self, env: Env, asset: Address) -> bool {
        self.triggered@.contains_key(asset) && env.ledger - self.triggered@[asset]
            < self.settings.aggregation_cooldown
    }

    /// Aggregates the prices of `asset` again. Anyone may ask for it, but not too often.
    pub fn trigger_aggregation(&mut self, env: &Env, asset: Address) -> (r: Result<(), ErrorCode>)
        ensures
            r == (if !old(self).book.assets@.contains_key(asset) {
                Err(ErrorCode::AssetNotRegistered)
            } else if old(self).cooling_down(*env, asset) {
                Err(ErrorCode::InvalidConfiguration)
            } else if !old(self).rules(*env).quorum(old(self).book.submissions@, asset) {
                Err(ErrorCode::InsufficientSources)
            } else {
                Ok(())
            }),
            r is Ok ==> final(self).price_state() == old(self).price_state().aggregated(
                old(self).rules(*env),
                asset,
            ) && final(self).triggered@ == old(self).triggered@.insert(asset, env.ledger)
                && PriceOracleContract::only_prices_differ(
                PriceOracleContract { triggered: final(self).triggered, ..*old(self) },
                *final(self),
            ),
            r is Err ==> *final(self) == *old(self),
    {
        if !self.book.assets.contains_key(&asset) {
            return Err(ErrorCode::AssetNotRegistered);
        }
        if let Some(last) = self.triggered.get(&asset) {
            let last: u32 = *last;
            if last > env.ledger || env.ledger - last < self.settings.aggregation_cooldown {
                if self.settings.aggregation_cooldown > 0 || last > env.ledger {
                    return Err(ErrorCode::InvalidConfiguration);
                }
            }
        }
        if !self.aggregate_asset(env, &asset) {
            return Err(ErrorCode::InsufficientSources);
        }
        self.triggered.insert(asset, env.ledger);
        Ok(())
    }

    /// The resolution that holds for `asset`.
    pub open spec fn resolution_of(self, asset: Address) -> u32 {
        if self.asset_resolution@.contains_key(asset) {
            self.asset_resolution@[asset]
        } else {
            self.config.resolution
        }
    }

    /// Whether the resolution lets a price of `timestamp` be reported for `asset`.
    pub open spec fn within_resolution(self, env: Env, asset: Address, timestamp: u64) -> bool {
        self.resolution_of(asset) == 0 || !older_than(
            timestamp,
            env.timestamp,
            self.resolution_of(asset) as int,
        )
    }

    /// The resolution in seconds that holds for `asset`.
    pub fn get_asset_resolution(&self, asset: Address) -> (r: u32)
        ensures
            r == self.resolution_of(asset),
    {
        match self.asset_resolution.get(&asset) {
            Some(v) => *v,
            None => self.config.resolution,
        }
    }

    /// Whether the resolution lets a price of `timestamp` be reported for `asset`.
    pub(crate) fn passes_resolution(&self, env: &Env, asset: &Address, timestamp: u64) -> (r: bool)
        ensures
            r == self.within_resolution(*env, *asset, timestamp),
    {
        let resolution: u32 = self.get_asset_resolution(*asset);
        resolution == 0 || !is_older_than(timestamp, env.timestamp, resolution as u64)
    }

    /// How many queries the current ledger has held.
    pub open spec fn queries_in(self, ledger: u32) -> u32 {
        if self.queries.ledger == ledger {
            self.queries.count
        } else {
            0
        }
    }

    /// Why a query for the price of `asset` is refused, if it is.
    pub open spec fn query_refusal(self, env: Env, asset: Address) -> Option<ErrorCode> {
        if self.entered {
            Some(ErrorCode::Reentrancy)
        } else if !self.book.assets@.contains_key(asset) {
            Some(ErrorCode::AssetNotRegistered)
        } else if self.queries_in(env.ledger) >= self.config.query_rate_limit {
            Some(ErrorCode::RateLimitExceeded)
        } else {
            None
        }
    }

    /// The aggregate that is reported for `asset`: the frozen one where it is frozen.
    pub open spec fn reported(self, asset: Address) -> Option<AggregatePrice> {
        if self.frozen@.contains_key(asset) {
            Some(self.frozen@[asset].aggregate)
        } else if self.book.aggregates@.contains_key(asset) {
            Some(self.book.aggregates@[asset].aggregate)
        } else {
            None
        }
    }

    /// Whether the aggregate reported for `asset` is older than the caller accepts.
    pub open spec fn too_old(self, env: Env, asset: Address, max_age: u64) -> bool {
        !self.frozen@.contains_key(asset) && max_age > 0 && (self.reported(asset) matches Some(a)
            && older_than(a.timestamp, env.timestamp, max_age as int))
    }

    /// What a query for the price of `asset` answers.
    pub open spec fn answer(self, env: Env, asset: Address, max_age: u64) -> Option<AggregatePrice> {
        match self.reported(asset) {
            Some(a) => if self.frozen@.contains_key(asset) || (!self.too_old(env, asset, max_age)
                && self.within_resolution(env, asset, a.timestamp)) {
                Some(a)
            } else {
                None
            },
            None => None,
        }
    }

    /// The aggregate of `asset`, unless it is older than `max_age` seconds or than the
    /// resolution allows; a `max_age` of `0` accepts any age. A frozen price is always reported.
    pub fn get_price(&mut self, env: &Env, asset: Address, max_age: u64) -> (r: Result<
        Option<AggregatePrice>,
        ErrorCode,
    >)
        ensures
            r == (match old(self).query_refusal(*env, asset) {
                Some(e) => Err(e),
                None => Ok(old(self).answer(*env, asset, max_age)),
            }),
            r matches Ok(Some(a)) ==> !old(self).frozen@.contains_key(asset) && max_age > 0 ==> a.timestamp
                + max_age >= env.timestamp,
            r is Ok && !old(self).frozen@.contains_key(asset) && old(self).book.aggregates@.contains_key(asset)
                ==> {
                let a = old(self).book.aggregates@[asset].aggregate;
                let seconds = seconds_reported(*old(self), asset);
                (max_age == 0 || a.timestamp + max_age >= env.timestamp) && (seconds == 0 || a.timestamp
                    + seconds >= env.timestamp) ==> r == Ok::<Option<AggregatePrice>, ErrorCode>(Some(a))
            },
            r is Err ==> *final(self) == *old(self),
            r is Ok ==> {
                &&& *final(self) == (PriceOracleContract {
                    queries: QueryCount {
                        ledger: env.ledger,
                        count: (old(self).queries_in(env.ledger) + 1) as u32,
                    },
                    events: final(self).events,
                    ..*old(self)
                })
                &&& final(self).events@ == (if old(self).too_old(*env, asset, max_age) {
                    old(self).events@.push(
                        Event::PriceStale {
                            asset,
                            timestamp: old(self).reported(asset).unwrap().timestamp,
                        },
                    )
                } else {
                    old(self).events@
                })
            },
    {
        if self.entered {
            return Err(ErrorCode::Reentrancy);
        }
        if !self.book.assets.contains_key(&asset) {
            return Err(ErrorCode::AssetNotRegistered);
        }
        let asked: u32 = if self.queries.ledger == env.ledger {
            self.queries.count
        } else {
            0
        };
        if asked >= self.config.query_rate_limit {
            return Err(ErrorCode::RateLimitExceeded);
        }
        self.queries = QueryCount { ledger: env.ledger, count: asked + 1 };
        if let Some(f) = self.frozen.get(&asset) {
            return Ok(Some(f.aggregate));
        }
        let aggregate: AggregatePrice = match self.book.aggregates.get(&asset) {
            Some(v) => v.aggregate,
            None => {
                return Ok(None);
            },
        };
        if max_age > 0 && is_older_than(aggregate.timestamp, env.timestamp, max_age) {
            self.events.push(Event::PriceStale { asset, timestamp: aggregate.timestamp });
            return Ok(None);
        }
        if self.passes_resolution(env, &asset, aggregate.timestamp) {
            Ok(Some(aggregate))
        } else {
            Ok(None)
        }
    }

    /// The aggregate of `asset`, of whatever age; `None` where there is none.
    pub fn get_aggregate_price(&self, asset: Address) -> (r: Option<AggregatePrice>)
        ensures
            r == (if self.book.assets@.contains_key(asset) {
                self.reported(asset)
            } else {
                None
            }),
    {
        if !self.book.assets.contains_key(&asset) {
            return None;
        }
        if let Some(f) = self.frozen.get(&asset) {
            return Some(f.aggregate);
        }
        match self.book.aggregates.get(&asset) {
            Some(v) => Some(v.aggregate),
            None => None,
        }
    }

    /// The aggregate of `asset` together with its version.
    pub fn get_aggregate_with_version(&self, asset: Address) -> (r: Result<
        VersionedAggregatePrice,
        ErrorCode,
    >)
        ensures
            r == (if self.entered {
                Err(ErrorCode::Reentrancy)
            } else if !self.book.assets@.contains_key(asset) {
                Err(ErrorCode::AssetNotRegistered)
            } else if !self.book.aggregates@.contains_key(asset) {
                Err(ErrorCode::NoData)
            } else {
                Ok(self.book.aggregates@[asset])
            }),
    {
        if self.entered {
            return Err(ErrorCode::Reentrancy);
        }
        if !self.book.assets.contains_key(&asset) {
            return Err(ErrorCode::AssetNotRegistered);
        }
        match self.book.aggregates.get(&asset) {
            Some(v) => Ok(*v),
            None => Err(ErrorCode::NoData),
        }
    }

    /// The last price that `source` submitted for `asset`.
    pub fn get_source_price(&self, asset: Address, source: Address) -> (r: Result<PriceEntry, ErrorCode>)
        ensures
            r == (if self.entered {
                Err(ErrorCode::Reentrancy)
            } else if !self.book.assets@.contains_key(asset) {
                Err(ErrorCode::AssetNotRegistered)
            } else if !self.sources@.contains_key(source) {
                Err(ErrorCode::SourceNotFound)
            } else if !self.book.submissions@.contains_key((asset, source)) {
                Err(ErrorCode::NoData)
            } else {
                Ok(self.book.submissions@[(asset, source)])
            }),
    {
        if self.entered {
            return Err(ErrorCode::Reentrancy);
        }
        if !self.book.assets.contains_key(&asset) {
            return Err(ErrorCode::AssetNotRegistered);
        }
        if !self.sources.contains_key(&source) {
            return Err(ErrorCode::SourceNotFound);
        }
        match self.book.submissions.get(&(asset, source)) {
            Some(e) => Ok(*e),
            None => Err(ErrorCode::NoData),
        }
    }

    /// The last price of every registered source that has priced `asset`.
    pub open spec fn submissions_for(self, asset: Address) -> Seq<PriceEntry> {
        self.sources.keys().filter(
            |s: Address| self.book.submissions@.contains_key((asset, s)),
        ).map_values(|s: Address| self.book.submissions@[(asset, s)])
    }

    /// The last price of every registered source that has priced `asset`, in the order of their
    /// registration.
    pub fn get_all_prices(&self, asset: Address) -> (r: Result<Vec<PriceEntry>, ErrorCode>)
        ensures
            match r {
                Err(e) => e == (if self.entered {
                    ErrorCode::Reentrancy
                } else {
                    ErrorCode::AssetNotRegistered
                }) && (self.entered || !self.book.assets@.contains_key(asset)),
                Ok(list) => !self.entered && self.book.assets@.contains_key(asset) && list@
                    == self.submissions_for(asset),
            },
    {
        if self.entered {
            return Err(ErrorCode::Reentrancy);
        }
        if !self.book.assets.contains_key(&asset) {
            return Err(ErrorCode::AssetNotRegistered);
        }
        let ghost keys = self.sources.keys();
        let ghost pred = |s: Address| self.book.submissions@.contains_key((asset, s));
        let ghost entry = |s: Address| self.book.submissions@[(asset, s)];
        let mut list: Vec<PriceEntry> = Vec::new();
        let mut i: usize = 0;
        proof {
            reveal(Seq::filter);
            assert(keys.take(0).filter(pred) =~= Seq::<Address>::empty());
            assert(list@ =~= keys.take(0).filter(pred).map_values(entry));
        }
        while i < self.sources.len()
            invariant
                i <= keys.len(),
                keys == self.sources.keys(),
                pred == (|s: Address| self.book.submissions@.contains_key((asset, s))),
                entry == (|s: Address| self.book.submissions@[(asset, s)]),
                list@ == keys.take(i as int).filter(pred).map_values(entry),
            decreases keys.len() - i,
        {
            let source: Address = self.sources.key_at(i);
            proof {
                reveal(Seq::filter);
                assert(keys.take(i + 1).drop_last() =~= keys.take(i as int));
                let f = keys.take(i as int).filter(pred);
                assert(f.push(source).map_values(entry) =~= f.map_values(entry).push(entry(source)));
            }
            if let Some(e) = self.book.submissions.get(&(asset, source)) {
                list.push(*e);
            }
            i += 1;
        }
        proof {
            assert(keys.take(keys.len() as int) =~= keys);
        }
        Ok(list)
    }

    /// What the standard interface answers for the last price of `asset`.
    pub open spec fn last_answer(self, env: Env, asset: Asset) -> Option<PriceData> {
        match asset {
            Asset::Stellar(a) => if self.book.assets@.contains_key(a)
                && self.book.aggregates@.contains_key(a) && self.within_resolution(
                env,
                a,
                self.book.aggregates@[a].aggregate.timestamp,
            ) {
                Some(data_of(self.book.aggregates@[a].aggregate))
            } else {
                None
            },
            Asset::Other(_) => None,
        }
    }

    fn answer_last(&self, env: &Env, asset: &Asset) -> (r: Option<PriceData>)
        ensures
            r == self.last_answer(*env, *asset),
    {
        match asset {
            Asset::Stellar(a) => {
                if !self.book.assets.contains_key(a) {
                    return None;
                }
                match self.book.aggregates.get(a) {
                    Some(v) => if self.passes_resolution(env, a, v.aggregate.timestamp) {
                        Some(PriceData { price: v.aggregate.price, timestamp: v.aggregate.timestamp })
                    } else {
                        None
                    },
                    None => None,
                }
            },
            Asset::Other(_) => None,
        }
    }

    /// The last price of an asset; `None` for one that is not a registered token, has no price,
    /// or whose price is older than the resolution allows.
    pub fn lastprice(&self, env: &Env, asset: Asset) -> (r: Result<Option<PriceData>, ErrorCode>)
        ensures
            r == (if self.entered {
                Err(ErrorCode::Reentrancy)
            } else {
                Ok(self.last_answer(*env, asset))
            }),
    {
        if self.entered {
            return Err(ErrorCode::Reentrancy);
        }
        Ok(self.answer_last(env, &asset))
    }

    /// What the standard interface answers for the price of `asset` at `timestamp`.
    pub open spec fn answer_at(self, env: Env, asset: Asset, timestamp: u64) -> Option<PriceData> {
        match asset {
            Asset::Stellar(a) => if !self.book.assets@.contains_key(a) {
                None
            } else if self.book.aggregates@.contains_key(a)
                && self.book.aggregates@[a].aggregate.timestamp == timestamp {
                Some(data_of(self.book.aggregates@[a].aggregate))
            } else {
                match last_observed(
                    history_of(self.price_state().histories, a),
                    lookback_floor(env.ledger),
                    timestamp,
                ) {
                    Some(e) => Some(data_of_entry(e)),
                    None => None,
                }
            },
            Asset::Other(_) => None,
        }
    }

    fn find_at(&self, env: &Env, asset: &Asset, timestamp: u64) -> (r: Option<PriceData>)
        ensures
            r == self.answer_at(*env, *asset, timestamp),
    {
        let a: &Address = match asset {
            Asset::Stellar(a) => a,
            Asset::Other(_) => {
                return None;
            },
        };
        if !self.book.assets.contains_key(a) {
            return None;
        }
        if let Some(v) = self.book.aggregates.get(a) {
            if v.aggregate.timestamp == timestamp {
                return Some(PriceData { price: v.aggregate.price, timestamp: v.aggregate.timestamp });
            }
        }
        let floor: u32 = if env.ledger > LOOKBACK_LEDGERS {
            env.ledger - LOOKBACK_LEDGERS
        } else {
            0
        };
        let ghost h = history_of(self.price_state().histories, *a);
        match self.book.histories.get(a) {
            None => None,
            Some(history) => {
                let mut k: usize = history.len();
                assert(h.take(h.len() as int) =~= h);
                while k > 0
                    invariant
                        h == history@,
                        k <= h.len(),
                        floor == lookback_floor(env.ledger),
                        last_observed(h, floor, timestamp) == last_observed(
                            h.take(k as int),
                            floor,
                            timestamp,
                        ),
                        self.answer_at(*env, *asset, timestamp) == (match last_observed(
                            h,
                            floor,
                            timestamp,
                        ) {
                            Some(e) => Some(data_of_entry(e)),
                            None => None,
                        }),
                    decreases k,
                {
                    let e: PriceHistoryEntry = history.at(k - 1);
                    assert(h.take(k as int).last() == e);
                    assert(h.take(k as int).drop_last() =~= h.take(k - 1));
                    if e.ledger < floor {
                        return None;
                    }
                    if e.timestamp <= timestamp {
                        return Some(PriceData { price: e.price, timestamp: e.timestamp });
                    }
                    k -= 1;
                }
                None
            },
        }
    }

    /// The price of an asset at `timestamp`: the aggregate where it is of that very time, else
    /// the newest recorded price that is not later.
    pub fn price(&self, env: &Env, asset: Asset, timestamp: u64) -> (r: Result<
        Option<PriceData>,
        ErrorCode,
    >)
        ensures
            r == (if self.entered {
                Err(ErrorCode::Reentrancy)
            } else {
                Ok(self.answer_at(*env, asset, timestamp))
            }),
            asset matches Asset::Stellar(a) ==> r is Ok && self.book.assets@.contains_key(a)
                && in_ledger_order(self.history(a)) && !(self.book.aggregates@.contains_key(a)
                && self.book.aggregates@[a].aggregate.timestamp == timestamp) ==> {
                let h = self.history(a);
                &&& r->Ok_0 is None ==> forall|i: int|
                    0 <= i < h.len() && (#[trigger] h[i]).ledger + 1000 >= env.ledger ==> h[i].timestamp
                        > timestamp
                &&& r->Ok_0 matches Some(d) ==> exists|i: int|
                    {
                        &&& 0 <= i < h.len()
                        &&& (#[trigger] h[i]).price == d.price
                        &&& h[i].timestamp == d.timestamp
                        &&& h[i].timestamp <= timestamp
                        &&& h[i].ledger + 1000 >= env.ledger
                        &&& forall|j: int| i < j < h.len() ==> (#[trigger] h[j]).timestamp > timestamp
                    }
            },
    {
        proof {
            if let Asset::Stellar(a) = asset {
                if self.book.assets@.contains_key(a) && in_ledger_order(self.history(a)) {
                    the_price_at_a_time_is_the_last_one_before_it(*self, *env, a, timestamp);
                }
            }
        }
        if self.entered {
            return Err(ErrorCode::Reentrancy);
        }
        Ok(self.find_at(env, &asset, timestamp))
    }

    /// The prices that the standard interface lists for a registered token.
    pub open spec fn listed_prices(self, env: Env, a: Address, records: u32) -> Seq<PriceData> {
        let recent = newest_data(
            history_of(self.price_state().histories, a),
            lookback_floor(env.ledger),
            records,
        );
        if records > 0 && recent.len() == 0 && self.book.aggregates@.contains_key(a) {
            seq![data_of(self.book.aggregates@[a].aggregate)]
        } else {
            recent
        }
    }

    /// Whether `r` lists the prices of `asset`: `None` for one that is not a registered token.
    pub open spec fn lists_prices(
        self,
        env: Env,
        asset: Asset,
        records: u32,
        r: Option<Vec<PriceData>>,
    ) -> bool {
        match asset {
            Asset::Stellar(a) => if self.book.assets@.contains_key(a) {
                r matches Some(list) && list@ == self.listed_prices(env, a, records)
            } else {
                r is None
            },
            Asset::Other(_) => r is None,
        }
    }

    fn list_prices(&self, env: &Env, asset: &Asset, records: u32) -> (r: Option<Vec<PriceData>>)
        ensures
            self.lists_prices(*env, *asset, records, r),
    {
        let a: &Address = match asset {
            Asset::Stellar(a) => a,
            Asset::Other(_) => {
                return None;
            },
        };
        if !self.book.assets.contains_key(a) {
            return None;
        }
        let floor: u32 = if env.ledger > LOOKBACK_LEDGERS {
            env.ledger - LOOKBACK_LEDGERS
        } else {
            0
        };
        let ghost h = history_of(self.price_state().histories, *a);
        let mut list: Vec<PriceData> = Vec::new();
        if let Some(history) = self.book.histories.get(a) {
            let start: usize = history.first_at_or_after(floor);
            let mut k: usize = history.len();
            while k > start && list.len() < records as usize
                invariant
                    h == history@,
                    start == first_from(h, floor),
                    start <= k <= h.len(),
                    k + list@.len() == h.len(),
                    list@.len() <= records,
                    forall|i: int|
                        0 <= i < list@.len() ==> #[trigger] list@[i] == data_of_entry(h[h.len() - 1 - i]),
                decreases k,
            {
                let e: PriceHistoryEntry = history.at(k - 1);
                list.push(PriceData { price: e.price, timestamp: e.timestamp });
                k -= 1;
            }
        }
        assert(list@ =~= newest_data(h, floor, records));
        if records > 0 && list.len() == 0 {
            if let Some(v) = self.book.aggregates.get(a) {
                list.push(PriceData { price: v.aggregate.price, timestamp: v.aggregate.timestamp });
                assert(list@ =~= seq![data_of(self.book.aggregates@[*a].aggregate)]);
            }
        }
        Some(list)
    }

    /// The newest recorded prices of an asset, newest first, at most `records` of them; where
    /// none is recorded, the aggregate.
    pub fn prices(&self, env: &Env, asset: Asset, records: u32) -> (r: Result<
        Option<Vec<PriceData>>,
        ErrorCode,
    >)
        ensures
            match r {
                Err(e) => self.entered && e == ErrorCode::Reentrancy,
                Ok(list) => !self.entered && self.lists_prices(*env, asset, records, list),
            },
    {
        if self.entered {
            return Err(ErrorCode::Reentrancy);
        }
        Ok(self.list_prices(env, &asset, records))
    }

    /// Freezes the aggregate of `asset`: it is reported unchanged and no price is accepted for
    /// the asset until it is unfrozen.
    pub fn freeze_price(&mut self, env: &Env, asset: Address, reason: String) -> (r: Result<(), ErrorCode>)
        ensures
            r == (match old(self).admin_refusal(*env) {
                Some(e) => Err(e),
                None => if !old(self).book.assets@.contains_key(asset) {
                    Err(ErrorCode::AssetNotRegistered)
                } else if reason@.len() > MAX_TEXT {
                    Err(ErrorCode::ReasonTooLong)
                } else if old(self).frozen@.contains_key(asset) {
                    Err(ErrorCode::PriceFrozen)
                } else if !old(self).book.aggregates@.contains_key(asset) {
                    Err(ErrorCode::NoData)
                } else {
                    Ok(())
                },
            }),
            r is Ok ==> final(self).frozen@ == old(self).frozen@.insert(
                asset,
                FrozenPrice {
                    aggregate: old(self).book.aggregates@[asset].aggregate,
                    reason,
                    ledger: env.ledger,
                },
            ),
            *final(self) == (PriceOracleContract { frozen: final(self).frozen, ..*old(self) }),
            r is Err ==> *final(self) == *old(self),
    {
        if let Some(e) = self.check_admin(env) {
            return Err(e);
        }
        if !self.book.assets.contains_key(&asset) {
            return Err(ErrorCode::AssetNotRegistered);
        }
        if reason.as_str().unicode_len() > MAX_TEXT {
            return Err(ErrorCode::ReasonTooLong);
        }
        if self.frozen.contains_key(&asset) {
            return Err(ErrorCode::PriceFrozen);
        }
        let aggregate: AggregatePrice = match self.book.aggregates.get(&asset) {
            Some(v) => v.aggregate,
            None => {
                return Err(ErrorCode::NoData);
            },
        };
        self.frozen.insert(asset, FrozenPrice { aggregate, reason, ledger: env.ledger });
        Ok(())
    }

    /// Unfreezes the price of `asset`.
    pub fn unfreeze_price(&mut self, env: &Env, asset: Address) -> (r: Result<(), ErrorCode>)
        ensures
            r == (match old(self).admin_refusal(*env) {
                Some(e) => Err(e),
                None => if old(self).frozen@.contains_key(asset) {
                    Ok(())
                } else {
                    Err(ErrorCode::PriceNotFrozen)
                },
            }),
            r is Ok ==> final(self).frozen@ == old(self).frozen@.remove(asset),
            *final(self) == (PriceOracleContract { frozen: final(self).frozen, ..*old(self) }),
            r is Err ==> *final(self) == *old(self),
    {
        if let Some(e) = self.check_admin(env) {
            return Err(e);
        }
        if !self.frozen.contains_key(&asset) {
            return Err(ErrorCode::PriceNotFrozen);
        }
        let _ = self.frozen.remove(&asset);
        Ok(())
    }

    /// Whether the price of `asset` is frozen.
    pub fn is_price_frozen(&self, asset: Address) -> (r: bool)
        ensures
            r == self.frozen@.contains_key(asset),
    {
        self.frozen.contains_key(&asset)
    }

    /// Sets the prices that are accepted for `asset`.
    pub fn set_price_bounds(
        &mut self,
        env: &Env,
        asset: Address,
        min_price: i128,
        max_price: i128,
        max_change_bps_per_ledger: u32,
    ) -> (r: Result<(), ErrorCode>)
        ensures
            r == (match old(self).guarded_admin_refusal(*env) {
                Some(e) => Err(e),
                None => if old(self).book.assets@.contains_key(asset) {
                    Ok(())
                } else {
                    Err(ErrorCode::AssetNotRegistered)
                },
            }),
            r is Ok ==> final(self).price_bounds@ == old(self).price_bounds@.insert(
                asset,
                PriceBounds { min_price, max_price, max_change_bps_per_ledger },
            ),
            *final(self) == (PriceOracleContract { price_bounds: final(self).price_bounds, ..*old(self) }),
            r is Err ==> *final(self) == *old(self),
    {
        if let Some(e) = self.check_guarded_admin(env) {
            return Err(e);
        }
        if !self.book.assets.contains_key(&asset) {
            return Err(ErrorCode::AssetNotRegistered);
        }
        self.price_bounds.insert(
            asset,
            PriceBounds { min_price, max_price, max_change_bps_per_ledger },
        );
        Ok(())
    }

    /// The prices that are accepted for `asset`.
    pub fn get_price_bounds(&self, asset: Address) -> (r: PriceBounds)
        ensures
            r == (if self.price_bounds@.contains_key(asset) {
                self.price_bounds@[asset]
            } else {
                PriceBounds { min_price: 0, max_price: i128::MAX, max_change_bps_per_ledger: 0 }
            }),
    {
        match self.price_bounds.get(&asset) {
            Some(b) => *b,
            None => PriceBounds { min_price: 0, max_price: i128::MAX, max_change_bps_per_ledger: 0 },
        }
    }
}

} // verus!
