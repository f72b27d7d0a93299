//! What sources submitted, what was agreed from it, and what was recorded of that.

use crate::aggregation::{all_positive, capped_deviation, combine, combined, deviation_bps, AggregationMethod};
use crate::arith::mul_div;
use crate::events::Event;
use crate::history_log::{excess, newest, with_entry, History};
use crate::pools::{blend, blended, market_share, Pools};
use crate::table::{Key, Table};
use crate::types::{
    Address, AggregatePrice, PriceEntry, PriceHistoryEntry, VersionedAggregatePrice,
};
use vstd::prelude::*;

verus! {

/// What is known of the liveness of a source.
#[derive(Clone, Copy, Debug, PartialEq, Eq, Structural)]
pub struct Activity {
    /// When the source was registered, in seconds.
    pub registered_at: u64,
    /// When it last sent a heartbeat, in seconds; `0` for never.
    pub last_heartbeat: u64,
    /// The ledger in which it last sent a heartbeat or a price, or was registered.
    pub last_active_ledger: u32,
    /// The ledger in which it last sent a price; `0` for never.
    pub last_price_ledger: u32,
    /// When it last sent a price, in seconds, if it ever did.
    pub last_price_at: Option<u64>,
    /// Whether it was marked as inactive.
    pub marked_inactive: bool,
}

/// The ledgers whose submissions count.
#[derive(Clone, Copy, Debug, PartialEq, Eq, Structural)]
pub struct AggregationRound {
    pub start_ledger: u32,
    pub end_ledger: u32,
}

/// How many units make a ratio of one.
pub const RATIO_ONE: u128 = 10_000;

/// How the price of one asset may stand to that of another.
#[derive(Clone, Copy, Debug, PartialEq, Eq, Structural)]
pub struct CorrelationPair {
    /// The least and the largest ratio, in ten-thousandths.
    pub min_ratio: u128,
    pub max_ratio: u128,
    pub enabled: bool,
}

/// The prices that the contract holds.
#[derive(Debug)]
pub struct PriceBook {
    /// The last submission by asset and source.
    pub submissions: Table<(Address, Address), PriceEntry>,
    /// The current aggregate by asset.
    pub aggregates: Table<Address, VersionedAggregatePrice>,
    /// The recorded aggregates by asset.
    pub histories: Table<Address, History>,
    /// How far each submission lay from the aggregate of its time, by source and asset.
    pub deviations: Table<(Address, Address), Vec<u32>>,
    /// The pairs of assets whose prices belong together: the first is compared with the second.
    pub pairs: Table<(Address, Address), CorrelationPair>,
    /// The submissions that were out of line with another one, by source and asset.
    pub flags: Table<(Address, Address), bool>,
    /// The liveness of each source.
    pub activity: Table<Address, Activity>,
    /// The registered assets, each with the ledger of its registration or last submission.
    pub assets: Table<Address, u32>,
    /// The ledger of the last aggregation.
    pub last_aggregation_ledger: u32,
}

/// The prices that the contract holds, and what it announced.
#[verifier::ext_equal]
pub struct PriceState {
    pub submissions: Map<(Address, Address), PriceEntry>,
    pub aggregates: Map<Address, VersionedAggregatePrice>,
    pub histories: Map<Address, Seq<PriceHistoryEntry>>,
    pub deviations: Map<(Address, Address), Seq<u32>>,
    pub pairs: Map<(Address, Address), CorrelationPair>,
    pub flags: Map<(Address, Address), bool>,
    pub activity: Map<Address, Activity>,
    pub assets: Map<Address, u32>,
    pub asset_list: Seq<Address>,
    pub last_aggregation_ledger: u32,
    pub events: Seq<Event>,
}

/// What decides how prices are aggregated.
#[verifier::ext_equal]
pub struct AggregationRules {
    pub ledger: u32,
    /// The time of the ledger, in seconds.
    pub now: u64,
    /// The registered sources, in the order of their registration.
    pub sources: Seq<Address>,
    /// The weight of each source.
    pub weights: Map<Address, u32>,
    pub min_sources: u32,
    pub max_sources: u32,
    pub min_interval: u32,
    pub round: Option<AggregationRound>,
    pub method: AggregationMethod,
    /// How close, in ten-thousandths, recorded prices must be to be merged; zero for never.
    pub compaction_threshold: u32,
    pub history_limit: u32,
    pub event_limit: u32,
    /// The pools that count beside the sources.
    pub pools: Pools,
    pub decimals: u32,
}

/// Whether a submission of `ledger` is recent enough.
pub open spec fn within_interval(now: u32, ledger: u32, interval: u32) -> bool {
    interval == 0 || now - ledger <= interval
}

/// Whether a submission of `ledger` lies in the round.
pub open spec fn within_round(ledger: u32, round: Option<AggregationRound>) -> bool {
    round matches Some(r) ==> r.start_ledger <= ledger <= r.end_ledger
}

/// The weight of a source; one where none is assigned.
pub open spec fn weight_of(weights: Map<Address, u32>, source: Address) -> u32 {
    if weights.contains_key(source) {
        weights[source]
    } else {
        1
    }
}

/// The latest timestamp among the submissions of `sources` for `asset`.
pub open spec fn latest_timestamp(
    submissions: Map<(Address, Address), PriceEntry>,
    asset: Address,
    sources: Seq<Address>,
) -> u64
    decreases sources.len(),
{
    if sources.len() == 0 {
        0
    } else {
        let rest = latest_timestamp(submissions, asset, sources.drop_last());
        let t = submissions[(asset, sources.last())].timestamp;
        if t > rest {
            t
        } else {
            rest
        }
    }
}

/// The prices of `sources` for `asset`.
pub open spec fn prices_of(
    submissions: Map<(Address, Address), PriceEntry>,
    asset: Address,
    sources: Seq<Address>,
) -> Seq<i128> {
    sources.map_values(|s: Address| submissions[(asset, s)].price)
}

/// The weights of `sources`.
pub open spec fn weights_of(weights: Map<Address, u32>, sources: Seq<Address>) -> Seq<u32> {
    sources.map_values(|s: Address| weight_of(weights, s))
}

/// The announcements for dropped entries.
pub open spec fn pruned_events(asset: Address, dropped: Seq<PriceHistoryEntry>, limit: u32) -> Seq<Event> {
    let n = if dropped.len() < limit {
        dropped.len()
    } else {
        limit as nat
    };
    Seq::new(n, |i: int| Event::HistoryPruned { asset, ledger: dropped[i].ledger })
}

/// The recorded prices of `asset`.
pub open spec fn history_of(
    histories: Map<Address, Seq<PriceHistoryEntry>>,
    asset: Address,
) -> Seq<PriceHistoryEntry> {
    if histories.contains_key(asset) {
        histories[asset]
    } else {
        Seq::empty()
    }
}

/// The deviations recorded for a source and an asset.
pub open spec fn deviations_of(
    deviations: Map<(Address, Address), Seq<u32>>,
    source: Address,
    asset: Address,
) -> Seq<u32> {
    if deviations.contains_key((source, asset)) {
        deviations[(source, asset)]
    } else {
        Seq::empty()
    }
}

/// The liveness of a source of which nothing is known yet.
pub open spec fn no_activity() -> Activity {
    Activity {
        registered_at: 0,
        last_heartbeat: 0,
        last_active_ledger: 0,
        last_price_ledger: 0,
        last_price_at: None,
        marked_inactive: false,
    }
}

/// The liveness of `source`.
pub open spec fn activity_of(activity: Map<Address, Activity>, source: Address) -> Activity {
    if activity.contains_key(source) {
        activity[source]
    } else {
        no_activity()
    }
}

impl AggregationRules {
    /// Whether the submission of `source` for `asset` counts.
    pub open spec fn counts(
        self,
        submissions: Map<(Address, Address), PriceEntry>,
        asset: Address,
        source: Address,
    ) -> bool {
        &&& submissions.contains_key((asset, source))
        &&& submissions[(asset, source)].price > 0
        &&& within_interval(self.ledger, submissions[(asset, source)].ledger, self.min_interval)
        &&& within_round(submissions[(asset, source)].ledger, self.round)
    }

    /// The sources whose submissions for `asset` count, in the order of their registration.
    pub open spec fn eligible(
        self,
        submissions: Map<(Address, Address), PriceEntry>,
        asset: Address,
    ) -> Seq<Address> {
        self.sources.filter(|s: Address| self.counts(submissions, asset, s))
    }

    /// The sources that go into the aggregate of `asset`: those that count, the first ones
    /// where there are too many.
    pub open spec fn contributors(
        self,
        submissions: Map<(Address, Address), PriceEntry>,
        asset: Address,
    ) -> Seq<Address> {
        let c = self.eligible(submissions, asset);
        if self.max_sources > 0 && c.len() > self.max_sources {
            c.take(self.max_sources as int)
        } else {
            c
        }
    }

    /// Whether enough sources have priced `asset`.
    pub open spec fn quorum(self, submissions: Map<(Address, Address), PriceEntry>, asset: Address) -> bool {
        let c = self.contributors(submissions, asset);
        c.len() > 0 && c.len() >= self.min_sources
    }

    /// What the contributing sources agree on, drawn towards the price of a pool where one counts.
    pub open spec fn agreed(
        self,
        submissions: Map<(Address, Address), PriceEntry>,
        asset: Address,
    ) -> AggregatePrice {
        let c = self.contributors(submissions, asset);
        AggregatePrice {
            price: blended(
                combined(
                    self.method,
                    prices_of(submissions, asset, c),
                    weights_of(self.weights, c),
                ) as i128,
                market_share(self.pools, asset, self.decimals),
            ),
            timestamp: latest_timestamp(submissions, asset, c),
            num_sources: c.len() as u32,
            ledger: self.ledger,
        }
    }
}

/// The aggregate that follows on `old`: the version moves with the price.
pub open spec fn next_versioned(
    old: Option<VersionedAggregatePrice>,
    aggregate: AggregatePrice,
) -> VersionedAggregatePrice {
    VersionedAggregatePrice {
        aggregate,
        version: match old {
            None => 0,
            Some(v) => if v.aggregate.price == aggregate.price || v.version == u32::MAX {
                v.version
            } else {
                (v.version + 1) as u32
            },
        },
    }
}

/// The entry that records an aggregate.
pub open spec fn entry_of(a: AggregatePrice) -> PriceHistoryEntry {
    PriceHistoryEntry {
        price: a.price,
        timestamp: a.timestamp,
        ledger: a.ledger,
        num_sources: a.num_sources,
        is_interpolated: false,
    }
}

/// The ratio of two prices in ten-thousandths, rounded down.
pub open spec fn ratio_of(price: i128, other: i128) -> int {
    price * RATIO_ONE / other as int
}

/// Whether the last prices of `source` for the two assets of `k` stand to each other as they
/// must not.
pub open spec fn out_of_ratio(
    submissions: Map<(Address, Address), PriceEntry>,
    source: Address,
    k: (Address, Address),
    pair: CorrelationPair,
) -> bool {
    let price = submissions[(k.0, source)].price;
    let other = submissions[(k.1, source)].price;
    &&& pair.enabled
    &&& submissions.contains_key((k.0, source))
    &&& submissions.contains_key((k.1, source))
    &&& price > 0
    &&& other > 0
    &&& !(pair.min_ratio <= ratio_of(price, other) <= pair.max_ratio)
}

/// Whether the last price of `source` for `asset` is out of line with its price for another
/// asset.
pub open spec fn out_of_line(
    submissions: Map<(Address, Address), PriceEntry>,
    pairs: Map<(Address, Address), CorrelationPair>,
    source: Address,
    asset: Address,
) -> bool {
    exists|k: (Address, Address)| #[trigger]
        pairs.contains_key(k) && (k.0 == asset || k.1 == asset) && out_of_ratio(
            submissions,
            source,
            k,
            pairs[k],
        )
}

/// What a map holds under a key.
pub open spec fn lookup<K, V>(m: Map<K, V>, k: K) -> Option<V> {
    if m.contains_key(k) {
        Some(m[k])
    } else {
        None
    }
}

impl PriceState {
    /// After `entry` was stored at the time `now`: the source's submission for the asset is replaced, its
    /// distance from the aggregate is noted, it is flagged where it is out of line with the
    /// source's price for another asset, and source and asset count as active.
    pub open spec fn stored(self, entry: PriceEntry, now: u64) -> PriceState {
        let known = self.aggregates.contains_key(entry.asset)
            && self.aggregates[entry.asset].aggregate.price > 0;
        PriceState {
            submissions: self.submissions.insert((entry.asset, entry.source), entry),
            deviations: if known {
                self.deviations.insert(
                    (entry.source, entry.asset),
                    deviations_of(self.deviations, entry.source, entry.asset).push(
                        capped_deviation(entry.price, self.aggregates[entry.asset].aggregate.price),
                    ),
                )
            } else {
                self.deviations
            },
            flags: if out_of_line(
                self.submissions.insert((entry.asset, entry.source), entry),
                self.pairs,
                entry.source,
                entry.asset,
            ) {
                self.flags.insert((entry.source, entry.asset), true)
            } else {
                self.flags
            },
            activity: self.activity.insert(
                entry.source,
                Activity {
                    last_active_ledger: entry.ledger,
                    last_price_ledger: entry.ledger,
                    last_price_at: Some(now),
                    ..activity_of(self.activity, entry.source)
                },
            ),
            assets: if self.assets.contains_key(entry.asset) {
                self.assets.insert(entry.asset, entry.ledger)
            } else {
                self.assets
            },
            ..self
        }
    }

    /// After the prices of `asset` were aggregated: where enough sources have priced it, the
    /// aggregate is replaced and recorded, records that are close together are merged, and the
    /// oldest ones beyond the limit are dropped.
    pub open spec fn aggregated(self, rules: AggregationRules, asset: Address) -> PriceState {
        if rules.quorum(self.submissions, asset) {
            let a = rules.agreed(self.submissions, asset);
            let h = with_entry(
                history_of(self.histories, asset),
                entry_of(a),
                rules.compaction_threshold,
            );
            PriceState {
                aggregates: self.aggregates.insert(
                    asset,
                    next_versioned(lookup(self.aggregates, asset), a),
                ),
                histories: self.histories.insert(asset, newest(h, rules.history_limit)),
                events: self.events + pruned_events(
                    asset,
                    h.take(excess(h.len(), rules.history_limit) as int),
                    rules.event_limit,
                ),
                last_aggregation_ledger: rules.ledger,
                ..self
            }
        } else {
            self
        }
    }

    /// After `entry` was stored and its asset aggregated.
    pub open spec fn submitted(self, rules: AggregationRules, entry: PriceEntry) -> PriceState {
        self.stored(entry, rules.now).aggregated(rules, entry.asset)
    }
}

impl PriceBook {
    /// The prices, together with `events`.
    pub open spec fn state(self, events: Seq<Event>) -> PriceState {
        PriceState {
            submissions: self.submissions@,
            aggregates: self.aggregates@,
            histories: self.histories@.map_values(|h: History| h@),
            deviations: self.deviations@.map_values(|d: Vec<u32>| d@),
            pairs: self.pairs@,
            flags: self.flags@,
            activity: self.activity@,
            assets: self.assets@,
            asset_list: self.assets.keys(),
            last_aggregation_ledger: self.last_aggregation_ledger,
            events,
        }
    }

    /// No prices.
    pub fn new() -> (b: Self)
        ensures
            b.state(Seq::empty()) == (PriceState {
                submissions: Map::empty(),
                aggregates: Map::empty(),
                histories: Map::empty(),
                deviations: Map::empty(),
                pairs: Map::empty(),
                flags: Map::empty(),
                activity: Map::empty(),
                assets: Map::empty(),
                asset_list: Seq::empty(),
                last_aggregation_ledger: 0,
                events: Seq::empty(),
            }),
    {
        let b = PriceBook {
            submissions: Table::new(),
            aggregates: Table::new(),
            histories: Table::new(),
            deviations: Table::new(),
            pairs: Table::new(),
            flags: Table::new(),
            activity: Table::new(),
            assets: Table::new(),
            last_aggregation_ledger: 0,
        };
        assert(b.state(Seq::empty()).histories =~= Map::empty());
        assert(b.state(Seq::empty()).deviations =~= Map::empty());
        b
    }

    /// The liveness of `source`.
    pub fn activity_of(&self, source: &Address) -> (a: Activity)
        ensures
            a == activity_of(self.activity@, *source),
    {
        match self.activity.get(source) {
            Some(a) => *a,
            None => Activity {
                registered_at: 0,
                last_heartbeat: 0,
                last_active_ledger: 0,
                last_price_ledger: 0,
                last_price_at: None,
                marked_inactive: false,
            },
        }
    }

    /// Stores a submission at the time `now`.
    pub fn store(&mut self, entry: PriceEntry, now: u64)
        requires
            entry.price > 0,
        ensures
            forall|events: Seq<Event>| #[trigger]
                final(self).state(events) == old(self).state(events).stored(entry, now),
    {
        let ghost pre = self.state(Seq::empty());
        let key: (Address, Address) = (entry.source, entry.asset);
        if let Some(v) = self.aggregates.get(&entry.asset) {
            let reference: i128 = v.aggregate.price;
            if reference > 0 {
                let d: u32 = deviation_bps(entry.price, reference);
                let ghost before = self.deviations@;
                let mut list: Vec<u32> = match self.deviations.remove(&key) {
                    Some(l) => l,
                    None => Vec::new(),
                };
                assert(list@ == deviations_of(pre.deviations, entry.source, entry.asset));
                list.push(d);
                self.deviations.insert(key, list);
                assert(self.deviations@.map_values(|d: Vec<u32>| d@) =~= pre.deviations.insert(
                    (entry.source, entry.asset),
                    deviations_of(pre.deviations, entry.source, entry.asset).push(d),
                ));
            }
        }
        let a: Activity = self.activity_of(&entry.source);
        self.activity.insert(
            entry.source,
            Activity {
                last_active_ledger: entry.ledger,
                last_price_ledger: entry.ledger,
                last_price_at: Some(now),
                ..a
            },
        );
        if self.assets.contains_key(&entry.asset) {
            self.assets.insert(entry.asset, entry.ledger);
        }
        self.submissions.insert((entry.asset, entry.source), entry);
        if self.is_out_of_line(&entry.source, &entry.asset) {
            self.flags.insert(key, true);
        }
    }

    fn is_out_of_ratio(&self, source: &Address, k: &(Address, Address), pair: &CorrelationPair) -> (r: bool)
        ensures
            r == out_of_ratio(self.submissions@, *source, *k, *pair),
    {
        if !pair.enabled {
            return false;
        }
        let price: i128 = match self.submissions.get(&(k.0, *source)) {
            Some(e) => e.price,
            None => {
                return false;
            },
        };
        let other: i128 = match self.submissions.get(&(k.1, *source)) {
            Some(e) => e.price,
            None => {
                return false;
            },
        };
        if price <= 0 || other <= 0 {
            return false;
        }
        proof {
            assert(price * RATIO_ONE >= 0) by (nonlinear_arith)
                requires
                    price > 0,
            ;
            vstd::arithmetic::div_mod::lemma_div_pos_is_pos(price * RATIO_ONE, other as int);
        }
        match mul_div(price as u128, RATIO_ONE, other as u128) {
            Some(ratio) => ratio < pair.min_ratio || ratio > pair.max_ratio,
            None => true,
        }
    }

    fn is_out_of_line(&self, source: &Address, asset: &Address) -> (r: bool)
        ensures
            r == out_of_line(self.submissions@, self.pairs@, *source, *asset),
    {
        self.pairs.know_keys();
        let ghost keys = self.pairs.keys();
        let mut i: usize = 0;
        while i < self.pairs.len()
            invariant
                i <= keys.len(),
                keys == self.pairs.keys(),
                forall|k: (Address, Address)| keys.contains(k) <==> #[trigger] self.pairs@.contains_key(k),
                forall|j: int|
                    0 <= j < i ==> !(((#[trigger] keys[j]).0 == *asset || keys[j].1 == *asset) && out_of_ratio(
                        self.submissions@,
                        *source,
                        keys[j],
                        self.pairs@[keys[j]],
                    )),
            decreases keys.len() - i,
        {
            let k: (Address, Address) = self.pairs.key_at(i);
            if k.0.same(asset) || k.1.same(asset) {
                if let Some(pair) = self.pairs.get(&k) {
                    if self.is_out_of_ratio(source, &k, pair) {
                        assert(self.pairs@.contains_key(k));
                        return true;
                    }
                }
            }
            i += 1;
        }
        assert forall|k: (Address, Address)| #[trigger] self.pairs@.contains_key(k) implies !((k.0 == *asset || k.1
            == *asset) && out_of_ratio(self.submissions@, *source, k, self.pairs@[k])) by {
            assert(keys.contains(k));
            let j = choose|j: int| 0 <= j < keys.len() && keys[j] == k;
            assert(keys[j] == k);
        }
        false
    }
}

/// How prices are aggregated.
pub struct RulesInForce<'a> {
    pub ledger: u32,
    pub now: u64,
    pub sources: &'a Table<Address, String>,
    pub weights: &'a Table<Address, u32>,
    pub min_sources: u32,
    pub max_sources: u32,
    pub min_interval: u32,
    pub round: Option<AggregationRound>,
    pub method: AggregationMethod,
    pub compaction_threshold: u32,
    pub history_limit: u32,
    pub event_limit: u32,
    pub pools: &'a Pools,
    pub decimals: u32,
}

impl<'a> RulesInForce<'a> {
    /// The rules as the contracts speak of them.
    pub open spec fn rules(self) -> AggregationRules {
        AggregationRules {
            ledger: self.ledger,
            now: self.now,
            sources: self.sources.keys(),
            weights: self.weights@,
            min_sources: self.min_sources,
            max_sources: self.max_sources,
            min_interval: self.min_interval,
            round: self.round,
            method: self.method,
            compaction_threshold: self.compaction_threshold,
            history_limit: self.history_limit,
            event_limit: self.event_limit,
            pools: *self.pools,
            decimals: self.decimals,
        }
    }
}

proof fn lemma_filter_step(s: Seq<Address>, i: int, pred: spec_fn(Address) -> bool)
    requires
        0 <= i < s.len(),
    ensures
        s.take(i + 1).filter(pred) == (if pred(s[i]) {
            s.take(i).filter(pred).push(s[i])
        } else {
            s.take(i).filter(pred)
        }),
{
    reveal(Seq::filter);
    assert(s.take(i + 1).drop_last() =~= s.take(i));
}

proof fn lemma_filter_all(s: Seq<Address>, pred: spec_fn(Address) -> bool)
    ensures
        forall|i: int| 0 <= i < s.filter(pred).len() ==> pred(#[trigger] s.filter(pred)[i]),
        s.filter(pred).len() <= s.len(),
    decreases s.len(),
{
    reveal(Seq::filter);
    if s.len() > 0 {
        lemma_filter_all(s.drop_last(), pred);
    }
}

impl PriceBook {
    /// The sources whose submissions for `asset` count, in the order of their registration.
    pub fn eligible(&self, rules: &RulesInForce<'_>, asset: &Address) -> (r: Vec<Address>)
        ensures
            r@ == rules.rules().eligible(self.submissions@, *asset),
    {
        let mut r: Vec<Address> = Vec::new();
        let mut i: usize = 0;
        let ghost keys = rules.sources.keys();
        let ghost pred = |s: Address| rules.rules().counts(self.submissions@, *asset, s);
        proof {
            reveal(Seq::filter);
            assert(keys.take(0).filter(pred) =~= Seq::<Address>::empty());
        }
        while i < rules.sources.len()
            invariant
                i <= keys.len(),
                keys == rules.sources.keys(),
                pred == (|s: Address| rules.rules().counts(self.submissions@, *asset, s)),
                r@ == keys.take(i as int).filter(pred),
            decreases keys.len() - i,
        {
            let source: Address = rules.sources.key_at(i);
            proof {
                lemma_filter_step(keys, i as int, pred);
            }
            if let Some(e) = self.submissions.get(&(*asset, source)) {
                let recent: bool = rules.min_interval == 0 || e.ledger >= rules.ledger || rules.ledger
                    - e.ledger <= rules.min_interval;
                let inside: bool = match &rules.round {
                    Some(round) => round.start_ledger <= e.ledger && e.ledger <= round.end_ledger,
                    None => true,
                };
                if e.price > 0 && recent && inside {
                    r.push(source);
                }
            }
            i += 1;
        }
        proof {
            assert(keys.take(keys.len() as int) =~= keys);
        }
        r
    }

    /// The sources that go into the aggregate of `asset`.
    fn contributors(&self, rules: &RulesInForce<'_>, asset: &Address) -> (r: Vec<Address>)
        ensures
            r@ == rules.rules().contributors(self.submissions@, *asset),
            forall|i: int|
                0 <= i < r@.len() ==> rules.rules().counts(self.submissions@, *asset, #[trigger] r@[i]),
    {
        let mut r: Vec<Address> = self.eligible(rules, asset);
        proof {
            lemma_filter_all(
                rules.sources.keys(),
                |s: Address| rules.rules().counts(self.submissions@, *asset, s),
            );
        }
        if rules.max_sources > 0 && r.len() > rules.max_sources as usize {
            r.truncate(rules.max_sources as usize);
            assert(r@ =~= rules.rules().contributors(self.submissions@, *asset));
        }
        r
    }

    /// Aggregates the prices of `asset`, and tells whether enough sources have priced it.
    pub fn aggregate(&mut self, rules: &RulesInForce<'_>, asset: &Address, events: &mut Vec<Event>) -> (r:
        bool)
        ensures
            r == rules.rules().quorum(old(self).submissions@, *asset),
            final(self).state(final(events)@) == old(self).state(old(events)@).aggregated(
                rules.rules(),
                *asset,
            ),
            !r ==> *final(self) == *old(self) && *final(events) == *old(events),
    {
        let ghost pre = self.state(events@);
        let c: Vec<Address> = self.contributors(rules, asset);
        if c.len() == 0 || c.len() < rules.min_sources as usize {
            return false;
        }
        let mut prices: Vec<i128> = Vec::new();
        let mut weights: Vec<u32> = Vec::new();
        let mut latest: u64 = 0;
        let mut i: usize = 0;
        proof {
            assert(c@.take(0) =~= Seq::<Address>::empty());
        }
        while i < c.len()
            invariant
                i <= c@.len(),
                self.state(events@) == pre,
                forall|j: int|
                    0 <= j < c@.len() ==> rules.rules().counts(self.submissions@, *asset, #[trigger] c@[j]),
                prices@.len() == i,
                weights@.len() == i,
                forall|j: int|
                    0 <= j < i ==> #[trigger] prices@[j] == self.submissions@[(*asset, c@[j])].price,
                forall|j: int| 0 <= j < i ==> #[trigger] weights@[j] == weight_of(rules.weights@, c@[j]),
                all_positive(prices@),
                latest == latest_timestamp(self.submissions@, *asset, c@.take(i as int)),
            decreases c@.len() - i,
        {
            let source: Address = c[i];
            assert(rules.rules().counts(self.submissions@, *asset, c@[i as int]));
            proof {
                assert(c@.take(i + 1).drop_last() =~= c@.take(i as int));
                assert(c@.take(i + 1).last() == source);
            }
            if let Some(e) = self.submissions.get(&(*asset, source)) {
                prices.push(e.price);
                if e.timestamp > latest {
                    latest = e.timestamp;
                }
            }
            weights.push(
                match rules.weights.get(&source) {
                    Some(w) => *w,
                    None => 1,
                },
            );
            i += 1;
        }
        proof {
            assert(c@.take(c@.len() as int) =~= c@);
            assert(prices@ =~= prices_of(self.submissions@, *asset, c@));
            assert(weights@ =~= weights_of(rules.weights@, c@));
        }
        let price: i128 = blend(
            combine(rules.method, &prices, &weights),
            rules.pools.share_of(asset, rules.decimals),
        );
        let agreed = AggregatePrice {
            price,
            timestamp: latest,
            num_sources: c.len() as u32,
            ledger: rules.ledger,
        };
        assert(agreed == rules.rules().agreed(pre.submissions, *asset));
        let version: u32 = match self.aggregates.get(asset) {
            None => 0,
            Some(v) => if v.aggregate.price == price || v.version == u32::MAX {
                v.version
            } else {
                v.version + 1
            },
        };
        self.aggregates.insert(*asset, VersionedAggregatePrice { aggregate: agreed, version });
        let mut history: History = match self.histories.remove(asset) {
            Some(h) => h,
            None => History::new(),
        };
        assert(history@ == history_of(pre.histories, *asset));
        let dropped: Vec<PriceHistoryEntry> = history.record(
            PriceHistoryEntry {
                price,
                timestamp: latest,
                ledger: rules.ledger,
                num_sources: agreed.num_sources,
                is_interpolated: false,
            },
            rules.compaction_threshold,
            rules.history_limit,
        );
        let ghost recorded = history@;
        self.histories.insert(*asset, history);
        assert(self.histories@.map_values(|h: History| h@) =~= pre.histories.insert(*asset, recorded));
        self.last_aggregation_ledger = rules.ledger;
        let mut k: usize = 0;
        let ghost announced = events@;
        while k < dropped.len() && k < rules.event_limit as usize
            invariant
                k <= dropped@.len(),
                k <= rules.event_limit,
                events@ == announced + Seq::new(
                    k as nat,
                    |i: int| Event::HistoryPruned { asset: *asset, ledger: dropped@[i].ledger },
                ),
            decreases dropped@.len() - k,
        {
            events.push(Event::HistoryPruned { asset: *asset, ledger: dropped[k].ledger });
            k += 1;
            assert(events@ =~= announced + Seq::new(
                k as nat,
                |i: int| Event::HistoryPruned { asset: *asset, ledger: dropped@[i].ledger },
            ));
        }
        assert(events@ =~= announced + pruned_events(*asset, dropped@, rules.event_limit));
        true
    }
}

} // verus!
