//! Which prices are taken from whom, and what keeping in touch means, told of what is recorded.

use crate::aggregation::capped_deviation;
use crate::commit_reveal::{commit_lifetime, round_of, HashedReveal};
use crate::contract::PriceOracleContract;
use crate::env::Env;
use crate::error::ErrorCode;
use crate::market_laws::{a_deviation_is_in_ten_thousandths, divides_to, lemma_divides_to};
use crate::price_book::{
    deviations_of, out_of_ratio, Activity, CorrelationPair, PriceState,
};
use crate::sources::{
    adaptive_interval, inactive_at, kept_sources, missed_at, removed_count, silent_at, SourceHealthStatus,
};
use crate::submissions::{
    count_above, largest_of, last_rounds, quotient, report_of, slope_of, sum_of, sum_of_places, sum_of_squares,
    weighted_sum_of,
};
use crate::types::{Address, PriceEntry};
use vstd::prelude::*;

verus! {

/// Whether nothing stands against a price: the contract is neither paused nor in an emergency, the
/// source is registered and not suspended, the asset is registered and neither paused nor frozen, and
/// the price is above zero, not below the lowest one set for the asset, and not of too late a time.
pub open spec fn acceptable(
    c: PriceOracleContract,
    env: Env,
    source: Address,
    asset: Address,
    price: i128,
    timestamp: u64,
) -> bool {
    &&& !c.paused
    &&& c.emergency matches Some(p) ==> p.until_ledger <= env.ledger
    &&& c.sources@.contains_key(source)
    &&& c.suspended@.contains_key(source) ==> !c.suspended@[source]
    &&& c.book.assets@.contains_key(asset)
    &&& !c.paused_assets@.contains_key(asset)
    &&& !c.frozen@.contains_key(asset)
    &&& price > 0
    &&& c.price_bounds@.contains_key(asset) ==> price >= c.price_bounds@[asset].min_price
    &&& timestamp <= env.timestamp + c.config.timestamp_threshold
}

/// A price is accepted exactly where nothing stands against it. Where prices have to be committed
/// first, none is accepted that was not.
pub proof fn a_price_is_accepted_where_nothing_stands_against_it(
    c: PriceOracleContract,
    env: Env,
    source: Address,
    asset: Address,
    price: i128,
    timestamp: u64,
)
    ensures
        c.price_refusal(env, source, asset, price, timestamp) is None <==> acceptable(
            c,
            env,
            source,
            asset,
            price,
            timestamp,
        ),
        c.direct_refusal(env, source, asset, price, timestamp) is None <==> acceptable(
            c,
            env,
            source,
            asset,
            price,
            timestamp,
        ) && c.settings.bft_fault_tolerance == 0,
        price <= 0 && acceptable(c, env, source, asset, 1, timestamp) ==> c.price_refusal(
            env,
            source,
            asset,
            price,
            timestamp,
        ) == Some(ErrorCode::InvalidPrice),
{
}

/// A batch of prices is accepted exactly where each of its prices is.
pub proof fn a_batch_is_accepted_as_a_whole(
    c: PriceOracleContract,
    env: Env,
    source: Address,
    items: Seq<(Address, i128, u64)>,
)
    ensures
        c.batch_refusal(env, source, items) is None <==> forall|i: int|
            #![trigger items[i]]
            0 <= i < items.len() ==> acceptable(c, env, source, items[i].0, items[i].1, items[i].2)
                && c.settings.bft_fault_tolerance == 0,
    decreases items.len(),
{
    if items.len() > 0 {
        let d = items.drop_last();
        a_batch_is_accepted_as_a_whole(c, env, source, d);
        let (asset, price, timestamp) = items.last();
        a_price_is_accepted_where_nothing_stands_against_it(c, env, source, asset, price, timestamp);
        assert(forall|i: int| 0 <= i < d.len() ==> #[trigger] d[i] == items[i]);
        if c.batch_refusal(env, source, items) is None {
            assert forall|i: int| #![trigger items[i]] 0 <= i < items.len() implies acceptable(
                c,
                env,
                source,
                items[i].0,
                items[i].1,
                items[i].2,
            ) && c.settings.bft_fault_tolerance == 0 by {
                if i < d.len() {
                    assert(d[i] == items[i]);
                }
            }
        } else if c.batch_refusal(env, source, d) is None {
            assert(items[items.len() - 1] == items.last());
        } else {
            let i = choose|i: int|
                #![trigger d[i]]
                0 <= i < d.len() && !(acceptable(c, env, source, d[i].0, d[i].1, d[i].2)
                    && c.settings.bft_fault_tolerance == 0);
            assert(items[i] == d[i]);
        }
    }
}

/// A price that is stored replaces the last one of its source for its asset and no other, and makes
/// its source and its asset active. Where an aggregate is known, its distance from it is noted behind
/// those noted before; no aggregate and no record changes.
pub proof fn a_stored_price_is_noted(s: PriceState, e: PriceEntry, now: u64)
    ensures
        ({
            let t = s.stored(e, now);
            let known = s.aggregates.contains_key(e.asset) && s.aggregates[e.asset].aggregate.price > 0;
            &&& t.submissions == s.submissions.insert((e.asset, e.source), e)
            &&& t.aggregates == s.aggregates
            &&& t.histories == s.histories
            &&& t.activity[e.source].last_active_ledger == e.ledger
            &&& t.activity[e.source].last_price_ledger == e.ledger
            &&& t.activity[e.source].last_price_at == Some(now)
            &&& forall|o: Address|
                o != e.source && s.activity.contains_key(o) ==> #[trigger] t.activity[o] == s.activity[o]
            &&& s.activity.contains_key(e.source) ==> {
                &&& t.activity[e.source].last_heartbeat == s.activity[e.source].last_heartbeat
                &&& t.activity[e.source].registered_at == s.activity[e.source].registered_at
                &&& t.activity[e.source].marked_inactive == s.activity[e.source].marked_inactive
            }
            &&& s.assets.contains_key(e.asset) ==> t.assets[e.asset] == e.ledger
            &&& !known ==> t.deviations == s.deviations
            &&& known ==> {
                let before = deviations_of(s.deviations, e.source, e.asset);
                let after = deviations_of(t.deviations, e.source, e.asset);
                let reference = s.aggregates[e.asset].aggregate.price;
                let apart = if e.price >= reference {
                    e.price - reference
                } else {
                    reference - e.price
                };
                &&& after.len() == before.len() + 1
                &&& after.drop_last() == before
                &&& after.last() < u32::MAX ==> divides_to(
                    apart * 10_000,
                    reference as int,
                    after.last() as int,
                )
                &&& after.last() == u32::MAX ==> apart * 10_000 >= u32::MAX * reference
            }
        }),
{
    if s.aggregates.contains_key(e.asset) && s.aggregates[e.asset].aggregate.price > 0 {
        a_deviation_is_in_ten_thousandths(e.price, s.aggregates[e.asset].aggregate.price);
        let before = deviations_of(s.deviations, e.source, e.asset);
        let after = deviations_of(s.stored(e, now).deviations, e.source, e.asset);
        assert(after == before.push(capped_deviation(e.price, s.aggregates[e.asset].aggregate.price)));
        assert(after.drop_last() =~= before);
    }
}

/// A batch of prices of one source changes none of the prices of other sources or for other assets,
/// and no aggregate.
pub proof fn a_batch_concerns_its_source_and_assets_only(
    s: PriceState,
    source: Address,
    ledger: u32,
    now: u64,
    items: Seq<(Address, i128, u64)>,
    k: (Address, Address),
)
    requires
        k.1 != source || forall|i: int| 0 <= i < items.len() ==> (#[trigger] items[i]).0 != k.0,
    ensures
        ({
            let t = s.stored_all(source, ledger, now, items);
            &&& t.aggregates == s.aggregates
            &&& t.histories == s.histories
            &&& t.submissions.contains_key(k) == s.submissions.contains_key(k)
            &&& t.submissions[k] == s.submissions[k]
        }),
    decreases items.len(),
{
    if items.len() > 0 {
        let d = items.drop_last();
        assert(items[items.len() - 1] == items.last());
        assert(forall|i: int| 0 <= i < d.len() ==> #[trigger] d[i] == items[i]);
        a_batch_concerns_its_source_and_assets_only(s, source, ledger, now, d, k);
    }
}

/// Of a batch of prices of one source the last one for each asset is kept.
pub proof fn the_last_price_of_a_batch_is_kept(
    s: PriceState,
    source: Address,
    ledger: u32,
    now: u64,
    items: Seq<(Address, i128, u64)>,
    i: int,
)
    requires
        0 <= i < items.len(),
        forall|j: int| i < j < items.len() ==> (#[trigger] items[j]).0 != items[i].0,
    ensures
        s.stored_all(source, ledger, now, items).submissions.contains_key((items[i].0, source)),
        s.stored_all(source, ledger, now, items).submissions[(items[i].0, source)] == (PriceEntry {
            source,
            asset: items[i].0,
            price: items[i].1,
            timestamp: items[i].2,
            ledger,
        }),
    decreases items.len(),
{
    let d = items.drop_last();
    assert(items[items.len() - 1] == items.last());
    if i < d.len() {
        assert(forall|j: int| 0 <= j < d.len() ==> #[trigger] d[j] == items[j]);
        assert forall|j: int| i < j < d.len() implies (#[trigger] d[j]).0 != d[i].0 by {
            assert(items[j].0 != items[i].0);
        }
        the_last_price_of_a_batch_is_kept(s, source, ledger, now, d, i);
    }
}

/// Two prices of a source are out of line where a pair is watched and their ratio, in
/// ten-thousandths, lies below its lowest or above its highest.
pub proof fn a_ratio_has_bounds(
    submissions: Map<(Address, Address), PriceEntry>,
    source: Address,
    k: (Address, Address),
    pair: CorrelationPair,
)
    requires
        submissions.contains_key((k.0, source)),
        submissions.contains_key((k.1, source)),
        submissions[(k.0, source)].price > 0,
        submissions[(k.1, source)].price > 0,
    ensures
        ({
            let price = submissions[(k.0, source)].price;
            let other = submissions[(k.1, source)].price;
            out_of_ratio(submissions, source, k, pair) <==> pair.enabled && (price * 10_000
                < pair.min_ratio * other || price * 10_000 >= (pair.max_ratio + 1) * other)
        }),
{
    let price = submissions[(k.0, source)].price as int;
    let other = submissions[(k.1, source)].price as int;
    let (low, high) = (pair.min_ratio as int, pair.max_ratio as int);
    lemma_divides_to(price * 10_000, other);
    let r = price * 10_000 / other;
    assert((low <= r <= high) == (price * 10_000 >= low * other && price * 10_000 < (high + 1) * other))
        by (nonlinear_arith)
        requires
            r * other <= price * 10_000,
            price * 10_000 < (r + 1) * other,
            other > 0,
    ;
}

/// An aggregation that was set off keeps the next one waiting for as many ledgers as are set.
pub proof fn an_aggregation_is_followed_by_a_pause(c: PriceOracleContract, env: Env, asset: Address)
    ensures
        !c.triggered@.contains_key(asset) ==> !c.cooling_down(env, asset),
        c.triggered@.contains_key(asset) ==> (c.cooling_down(env, asset) <==> env.ledger < c.triggered@[asset]
            + c.settings.aggregation_cooldown),
{
}

/// A source has missed as many heartbeats as whole intervals have passed since its last one, or since
/// its registration where it sent none.
pub proof fn every_interval_misses_a_heartbeat(a: Activity, now: u64, interval: u64)
    requires
        interval > 0,
    ensures
        ({
            let heard = if a.last_heartbeat > 0 {
                a.last_heartbeat
            } else {
                a.registered_at
            };
            let missed = missed_at(a, now, interval);
            &&& now <= heard ==> missed == 0
            &&& now > heard && missed < u32::MAX ==> divides_to(now - heard, interval as int, missed as int)
            &&& missed == u32::MAX ==> now - heard >= u32::MAX * interval
            &&& inactive_at(a, now, interval) <==> a.marked_inactive || now > heard + interval
        }),
{
    let heard = if a.last_heartbeat > 0 {
        a.last_heartbeat
    } else {
        a.registered_at
    };
    if now > heard {
        lemma_divides_to(now - heard, interval as int);
        let q = (now - heard) / interval as int;
        assert(q >= 0) by (nonlinear_arith)
            requires
                now - heard < (q + 1) * interval,
                now > heard,
                interval > 0,
        ;
        if q >= u32::MAX {
            assert(now - heard >= u32::MAX * interval) by (nonlinear_arith)
                requires
                    q * interval <= now - heard,
                    q >= u32::MAX,
                    interval > 0,
            ;
        }
    }
}

/// A source is silent once more ledgers than the limit have passed since it was last active.
pub proof fn silence_is_counted_in_ledgers(a: Activity, now: u32, limit: u32)
    ensures
        silent_at(a, now, limit) <==> now > a.last_active_ledger + limit,
{
}

/// The time for the next heartbeat is the interval, longer by as much of it as the heartbeats missed
/// are of the window, and never more than three intervals.
pub proof fn the_interval_grows_with_what_was_missed(base: u64, missed: u32, window: u32)
    requires
        3 * base <= u64::MAX,
        window > 0,
    ensures
        missed == 0 ==> adaptive_interval(base, missed, window) == base,
        missed <= 2 * window ==> divides_to(
            base * (window + missed),
            window as int,
            adaptive_interval(base, missed, window) as int,
        ),
        missed >= 2 * window ==> adaptive_interval(base, missed, window) == 3 * base,
{
    let g = base * (window + missed);
    lemma_divides_to(g, window as int);
    let r = g / window as int;
    assert(r >= 0) by (nonlinear_arith)
        requires
            g < (r + 1) * window,
            g == base * (window + missed),
            window > 0,
    ;
    if missed <= 2 * window {
        assert(r <= 3 * base) by (nonlinear_arith)
            requires
                r * window <= g,
                g == base * (window + missed),
                missed <= 2 * window,
                window > 0,
        ;
    }
    if missed >= 2 * window {
        assert(r >= 3 * base) by (nonlinear_arith)
            requires
                g < (r + 1) * window,
                g == base * (window + missed),
                missed >= 2 * window,
                window > 0,
        ;
    }
    if missed == 0 {
        assert(r == base) by (nonlinear_arith)
            requires
                r * window <= g,
                g < (r + 1) * window,
                g == base * window,
                window > 0,
        ;
    }
}

/// A registered source is healthy where less than an interval has passed since it was heard of and it
/// sent a price in the same time; it is inactive where it was marked so or three intervals have
/// passed; and it is degraded otherwise. A source that is not registered is inactive, or removed.
pub proof fn health_is_keeping_in_touch(c: PriceOracleContract, env: Env, source: Address)
    requires
        c.book.activity@.contains_key(source),
        c.config.heartbeat_interval > 0,
        3 * c.config.heartbeat_interval <= u64::MAX,
        c.settings.heartbeat_window > 0,
    ensures
        ({
            let a = c.book.activity@[source];
            let interval = c.config.heartbeat_interval;
            let heard = if a.last_heartbeat > 0 {
                a.last_heartbeat
            } else {
                a.registered_at
            };
            let h = c.health_of(env, source);
            if c.sources@.contains_key(source) {
                &&& h == SourceHealthStatus::Healthy <==> {
                    &&& !a.marked_inactive
                    &&& env.timestamp < heard + interval
                    &&& a.last_price_at matches Some(at) && env.timestamp <= at + interval
                }
                &&& h == SourceHealthStatus::Inactive <==> a.marked_inactive || env.timestamp >= heard + 3
                    * interval
                &&& h != SourceHealthStatus::AutoRemoved
            } else if c.auto_removed@.contains_key(source) {
                h == SourceHealthStatus::AutoRemoved
            } else {
                h == SourceHealthStatus::Inactive
            }
        }),
{
    let a = c.book.activity@[source];
    let interval = c.config.heartbeat_interval;
    let heard = if a.last_heartbeat > 0 {
        a.last_heartbeat
    } else {
        a.registered_at
    };
    every_interval_misses_a_heartbeat(a, env.timestamp, interval);
    let missed = missed_at(a, env.timestamp, interval);
    the_interval_grows_with_what_was_missed(interval, 0, c.settings.heartbeat_window);
    let gone = env.timestamp - heard;
    assert(3 * interval <= u32::MAX * interval) by (nonlinear_arith)
        requires
            interval > 0,
    ;
    if gone > 0 && missed < u32::MAX {
        assert((missed == 0) == (gone < interval) && (missed >= 3) == (gone >= 3 * interval))
            by (nonlinear_arith)
            requires
                missed * interval <= gone,
                gone < (missed + 1) * interval,
                interval > 0,
                missed >= 0,
        ;
    }
}

/// Removing silent sources leaves every source that is not silent, and no source twice that was not.
/// A silent source stays only where no more than the needed number would be left without it.
pub proof fn only_silent_sources_are_removed(sources: Seq<Address>, silent: spec_fn(Address) -> bool, min: u32)
    ensures
        ({
            let k = kept_sources(sources, silent, min as int, sources.len() as int);
            &&& forall|i: int| 0 <= i < sources.len() && !silent(#[trigger] sources[i]) ==> k.contains(sources[i])
            &&& forall|j: int| 0 <= j < k.len() ==> sources.contains(#[trigger] k[j])
            &&& k.len() <= sources.len()
            &&& (exists|j: int| 0 <= j < k.len() && silent(#[trigger] k[j])) ==> k.len() <= min
        }),
{
    lemma_kept_members(sources, silent, min as int, sources.len() as int);
}

proof fn lemma_kept_members(sources: Seq<Address>, silent: spec_fn(Address) -> bool, min: int, n: int)
    requires
        0 <= n <= sources.len(),
        0 <= min,
    ensures
        ({
            let k = kept_sources(sources, silent, min, n);
            &&& forall|i: int| 0 <= i < n && !silent(#[trigger] sources[i]) ==> k.contains(sources[i])
            &&& forall|j: int| 0 <= j < k.len() ==> sources.contains(#[trigger] k[j])
            &&& k.len() == n - removed_count(sources, silent, min, n)
            &&& removed_count(sources, silent, min, n) >= 0
            &&& (exists|j: int| 0 <= j < k.len() && silent(#[trigger] k[j])) ==> sources.len() - removed_count(
                sources,
                silent,
                min,
                n,
            ) <= min
        }),
    decreases n,
{
    if n > 0 {
        lemma_kept_members(sources, silent, min, n - 1);
        let b = kept_sources(sources, silent, min, n - 1);
        let k = kept_sources(sources, silent, min, n);
        let r = removed_count(sources, silent, min, n - 1);
        assert forall|i: int| 0 <= i < n && !silent(#[trigger] sources[i]) implies k.contains(sources[i]) by {
            if i < n - 1 {
                let j = choose|j: int| 0 <= j < b.len() && b[j] == sources[i];
                assert(k[j] == sources[i]);
            } else {
                assert(k[k.len() - 1] == sources[i]);
            }
        }
        assert forall|j: int| 0 <= j < k.len() implies sources.contains(#[trigger] k[j]) by {
            if j < b.len() {
                assert(k[j] == b[j]);
            } else {
                assert(k[j] == sources[n - 1]);
            }
        }
        if exists|j: int| 0 <= j < k.len() && silent(#[trigger] k[j]) {
            let j = choose|j: int| 0 <= j < k.len() && silent(#[trigger] k[j]);
            if j < b.len() {
                assert(b[j] == k[j]);
            }
        }
    }
}

/// An operation is refused on a day that has seen as many of its kind as are allowed. A day has
/// eighty-six thousand four hundred seconds.
pub proof fn operations_are_counted_by_the_day(c: PriceOracleContract, env: Env, op_type: u32)
    ensures
        ({
            let seen = if c.op_counts@.contains_key(op_type) && c.op_counts@[op_type].day * 86_400
                <= env.timestamp && env.timestamp < (c.op_counts@[op_type].day + 1) * 86_400 {
                c.op_counts@[op_type].count as int
            } else {
                0
            };
            let after = c.counts_with(env, op_type);
            &&& c.ops_exhausted(env, op_type) <==> c.op_limits@.contains_key(op_type) && seen
                >= c.op_limits@[op_type]
            &&& after[op_type].day * 86_400 <= env.timestamp
            &&& env.timestamp < (after[op_type].day + 1) * 86_400
            &&& seen < u32::MAX ==> after[op_type].count == seen + 1
            &&& forall|o: u32|
                o != op_type ==> #[trigger] after.contains_key(o) == c.op_counts@.contains_key(o) && after[o]
                    == c.op_counts@[o]
        }),
{
    let d = env.timestamp / 86_400;
    assert(d * 86_400 <= env.timestamp && env.timestamp < (d + 1) * 86_400);
}

/// A signed price is taken only of a source with a key, in time, with a number above every one used
/// before, with a valid signature, and where nothing stands against the price.
pub proof fn a_signed_price_is_taken_once(
    c: PriceOracleContract,
    env: Env,
    source: Address,
    asset: Address,
    price: i128,
    timestamp: u64,
    nonce: u64,
    expiration_ledger: u32,
    signature_valid: bool,
)
    ensures
        c.signed_refusal(env, source, asset, price, timestamp, nonce, expiration_ledger, signature_valid) is None
            <==> {
            &&& acceptable(c, env, source, asset, price, timestamp)
            &&& c.settings.bft_fault_tolerance == 0
            &&& c.submissions.keys@.contains_key(source)
            &&& env.ledger <= expiration_ledger
            &&& nonce > 0
            &&& c.submissions.nonces@.contains_key(source) ==> nonce > c.submissions.nonces@[source]
            &&& signature_valid
        },
{
    a_price_is_accepted_where_nothing_stands_against_it(c, env, source, asset, price, timestamp);
}

/// An aggregation is due by its time where an interval is set and that many seconds have passed since
/// the last one.
pub proof fn an_aggregation_is_due_by_the_clock(c: PriceOracleContract, env: Env, asset: Address)
    ensures
        !c.submissions.triggers@.contains_key(asset) ==> !c.time_is_up(env, asset),
        c.submissions.triggers@.contains_key(asset) ==> {
            let t = c.submissions.triggers@[asset];
            c.time_is_up(env, asset) <==> t.interval_seconds > 0 && env.timestamp >= t.last_run
                + t.interval_seconds
        },
{
}

/// Rounds start at multiples of their length, and every ledger belongs to one.
pub proof fn a_ledger_belongs_to_one_round(ledger: u32, window: u32)
    requires
        window > 0,
    ensures
        round_of(ledger, window) <= ledger < round_of(ledger, window) + window,
        round_of(ledger, window) % window == 0,
        forall|other: u32|
            round_of(ledger, window) <= other < round_of(ledger, window) + window ==> #[trigger] round_of(
                other,
                window,
            ) == round_of(ledger, window),
{
    let w = window as int;
    let q = ledger as int / w;
    lemma_divides_to(ledger as int, w);
    assert(q >= 0) by (nonlinear_arith)
        requires
            (ledger as int) < (q + 1) * w,
            w > 0,
            ledger >= 0,
    ;
    assert(q * w >= 0) by (nonlinear_arith)
        requires
            q >= 0,
            w > 0,
    ;
    assert((q + 1) * w == q * w + w) by (nonlinear_arith);
    vstd::arithmetic::div_mod::lemma_mod_multiples_basic(q, w);
    assert forall|other: u32| q * w <= other < q * w + w implies #[trigger] round_of(other, window) == q * w by {
        crate::market_laws::lemma_one_quotient(other as int, w, q);
    }
}

/// A committed price can be revealed in its reveal window alone, with what it was committed as, while
/// the commitment is kept, and where nothing stands against the price.
pub proof fn a_reveal_matches_its_commitment(c: PriceOracleContract, env: Env, source: Address, x: HashedReveal)
    ensures
        ({
            let key = (source, (x.asset, x.round_ledger));
            let m = c.commit_reveal.commits@[key];
            let opens = x.round_ledger + c.commit_reveal.commit_window;
            c.reveal_refusal(env, source, x) is None <==> {
                &&& c.commit_reveal.commits@.contains_key(key)
                &&& env.ledger <= m.ledger + m.lifetime
                &&& opens <= env.ledger
                &&& env.ledger < opens + c.commit_reveal.reveal_window
                &&& m.hash == x.digest
                &&& acceptable(c, env, source, x.asset, x.price, env.timestamp)
            }
        }),
{
    a_price_is_accepted_where_nothing_stands_against_it(c, env, source, x.asset, x.price, env.timestamp);
}

/// A commitment made in its round lasts to the end of its reveal window.
pub proof fn a_commitment_lasts_to_the_end_of_its_window(
    ledger: u32,
    now: u32,
    commit_window: u32,
    reveal_window: u32,
)
    requires
        commit_window > 0,
        now < round_of(ledger, commit_window) + commit_window + reveal_window,
    ensures
        now - ledger <= commit_lifetime(commit_window, reveal_window),
{
    a_ledger_belongs_to_one_round(ledger, commit_window);
}

/// Several prices are revealed where each of them could be revealed alone, and no commitment is used
/// twice.
pub proof fn reveals_are_taken_as_a_whole(c: PriceOracleContract, env: Env, source: Address, s: Seq<HashedReveal>)
    ensures
        c.reveals_refusal(env, source, s) is None <==> {
            &&& forall|i: int| 0 <= i < s.len() ==> c.reveal_refusal(env, source, #[trigger] s[i]) is None
            &&& forall|i: int, j: int|
                0 <= i < j < s.len() ==> !((#[trigger] s[i]).asset == (#[trigger] s[j]).asset
                    && s[i].round_ledger == s[j].round_ledger)
        },
    decreases s.len(),
{
    if s.len() > 0 {
        let d = s.drop_last();
        let n = s.len() - 1;
        reveals_are_taken_as_a_whole(c, env, source, d);
        assert(forall|i: int| 0 <= i < d.len() ==> #[trigger] d[i] == s[i]);
        if c.reveals_refusal(env, source, s) is None {
            assert forall|i: int| 0 <= i < s.len() implies c.reveal_refusal(env, source, #[trigger] s[i]) is None by {
                if i < n {
                    assert(d[i] == s[i]);
                }
            }
            assert forall|i: int, j: int| 0 <= i < j < s.len() implies !((#[trigger] s[i]).asset == (
            #[trigger] s[j]).asset && s[i].round_ledger == s[j].round_ledger) by {
                if j < n {
                    assert(d[i] == s[i] && d[j] == s[j]);
                }
            }
        } else if c.reveals_refusal(env, source, d) is None {
            assert(s[n] == s.last());
            if c.reveal_refusal(env, source, s[n]) is None {
                let j = choose|j: int|
                    0 <= j < n && (#[trigger] s[j]).asset == s[n].asset && s[j].round_ledger == s[n].round_ledger;
                assert(s[j].asset == s[n].asset);
            }
        } else if forall|i: int| 0 <= i < d.len() ==> c.reveal_refusal(env, source, #[trigger] d[i]) is None {
            let (i, j) = choose|i: int, j: int|
                0 <= i < j < d.len() && (#[trigger] d[i]).asset == (#[trigger] d[j]).asset && d[i].round_ledger
                    == d[j].round_ledger;
            assert(s[i] == d[i] && s[j] == d[j]);
        } else {
            let i = choose|i: int| 0 <= i < d.len() && c.reveal_refusal(env, source, #[trigger] d[i]) is Some;
            assert(s[i] == d[i]);
        }
    }
}

proof fn lemma_sums(n: nat)
    ensures
        2 * sum_of_places(n) == n * (n - 1),
        6 * sum_of_squares(n) == n * (n - 1) * (2 * n - 1),
    decreases n,
{
    if n > 0 {
        let m = n - 1;
        lemma_sums(m as nat);
        assert(m * (m - 1) + 2 * m == n * (n - 1)) by (nonlinear_arith)
            requires
                m == n - 1,
        ;
        assert(m * (m - 1) * (2 * m - 1) + 6 * (m * m) == n * (n - 1) * (2 * n - 1)) by (nonlinear_arith)
            requires
                m == n - 1,
        ;
    }
}

proof fn lemma_sum_is_a_total(s: Seq<u32>)
    ensures
        sum_of(s) == s.fold_left(0int, |acc: int, x: u32| acc + x),
        sum_of(s) >= 0,
    decreases s.len(),
{
    reveal_with_fuel(Seq::fold_left, 2);
    if s.len() > 0 {
        lemma_sum_is_a_total(s.drop_last());
    }
}

proof fn lemma_sum_bound(s: Seq<u32>)
    ensures
        0 <= sum_of(s) <= s.len() * u32::MAX,
    decreases s.len(),
{
    if s.len() > 0 {
        lemma_sum_bound(s.drop_last());
        let m = (s.len() - 1) as int;
        assert((m + 1) * u32::MAX == m * u32::MAX + u32::MAX) by (nonlinear_arith);
    }
}

proof fn lemma_largest(s: Seq<u32>)
    ensures
        forall|i: int| 0 <= i < s.len() ==> #[trigger] s[i] <= largest_of(s),
        s.len() > 0 ==> s.contains(largest_of(s)),
    decreases s.len(),
{
    if s.len() > 0 {
        let d = s.drop_last();
        lemma_largest(d);
        assert(s[s.len() - 1] == s.last());
        assert forall|i: int| 0 <= i < s.len() implies #[trigger] s[i] <= largest_of(s) by {
            if i < d.len() {
                assert(d[i] == s[i]);
            }
        }
        if largest_of(s) != s.last() {
            if d.len() > 0 {
                let j = choose|j: int| 0 <= j < d.len() && d[j] == largest_of(d);
                assert(s[j] == largest_of(s));
            }
        }
    }
}

proof fn lemma_count_above(s: Seq<u32>, limit: u32)
    ensures
        count_above(s, limit) == s.filter(|x: u32| x > limit).len(),
        count_above(s, limit) <= s.len(),
    decreases s.len(),
{
    reveal(Seq::filter);
    if s.len() > 0 {
        lemma_count_above(s.drop_last(), limit);
    }
}

/// A report tells the mean of the deviations, rounded down, the largest of them, and how many of them
/// are above the limit.
pub proof fn a_report_tells_of_all_deviations(s: Seq<u32>, limit: u32)
    requires
        0 < s.len() <= u32::MAX,
    ensures
        ({
            let r = report_of(s, limit);
            &&& r.num_rounds == s.len()
            &&& divides_to(
                s.fold_left(0int, |acc: int, x: u32| acc + x),
                s.len() as int,
                r.avg_deviation_bps as int,
            )
            &&& s.contains(r.max_deviation_bps)
            &&& forall|i: int| 0 <= i < s.len() ==> #[trigger] s[i] <= r.max_deviation_bps
            &&& r.outlier_count == s.filter(|x: u32| x > limit).len()
        }),
{
    lemma_sum_is_a_total(s);
    lemma_sum_bound(s);
    lemma_largest(s);
    lemma_count_above(s, limit);
    let n = s.len() as int;
    lemma_divides_to(sum_of(s), n);
    let q = sum_of(s) / n;
    assert(0 <= q <= u32::MAX) by (nonlinear_arith)
        requires
            q * n <= sum_of(s),
            sum_of(s) < (q + 1) * n,
            0 <= sum_of(s) <= n * u32::MAX,
            n > 0,
    ;
}

/// Reports look at the last deviations, as many as are asked for, up to a thousand.
pub proof fn a_report_is_of_the_last_rounds(d: Seq<u32>, n: u32)
    ensures
        ({
            let l = last_rounds(d, n);
            &&& l.len() <= d.len() && l.len() <= n && l.len() <= 1000
            &&& l.len() == d.len() || l.len() == n || l.len() == 1000
            &&& l == d.subrange(d.len() - l.len(), d.len() as int)
        }),
{
}

/// The sum of the deviations, each times how many came before it.
pub open spec fn weighted_by_age(s: Seq<u32>) -> int
    decreases s.len(),
{
    if s.len() == 0 {
        0
    } else {
        (s.len() - 1) * s.last() + weighted_by_age(s.drop_last())
    }
}

proof fn lemma_weighted(s: Seq<u32>)
    ensures
        weighted_sum_of(s) == weighted_by_age(s),
    decreases s.len(),
{
    if s.len() > 0 {
        lemma_weighted(s.drop_last());
    }
}

/// The trend of deviations is the slope of the line that fits them best, rounded towards zero.
pub proof fn a_trend_is_the_slope_of_the_best_line(s: Seq<u32>)
    requires
        s.len() >= 2,
    ensures
        ({
            let n = s.len() as int;
            let total = s.fold_left(0int, |acc: int, x: u32| acc + x);
            let rise = 6 * (2 * weighted_by_age(s) - (n - 1) * total);
            let run = n * (n * n - 1);
            if rise >= 0 {
                divides_to(rise, run, slope_of(s))
            } else {
                divides_to(-rise, run, -slope_of(s))
            }
        }),
{
    let n = s.len() as int;
    lemma_sum_is_a_total(s);
    lemma_weighted(s);
    lemma_sums(s.len());
    let (w, t) = (weighted_sum_of(s), sum_of(s));
    let (p, q) = (sum_of_places(s.len()), sum_of_squares(s.len()));
    let num = n * w - p * t;
    let den = n * q - p * p;
    let rise = 6 * (2 * w - (n - 1) * t);
    let run = n * (n * n - 1);
    assert(12 * num == n * rise) by (nonlinear_arith)
        requires
            num == n * w - p * t,
            2 * p == n * (n - 1),
            rise == 6 * (2 * w - (n - 1) * t),
    ;
    assert(12 * den == n * run) by (nonlinear_arith)
        requires
            den == n * q - p * p,
            2 * p == n * (n - 1),
            6 * q == n * (n - 1) * (2 * n - 1),
            run == n * (n * n - 1),
    ;
    assert(run > 0) by (nonlinear_arith)
        requires
            n >= 2,
            run == n * (n * n - 1),
    ;
    assert(den > 0) by (nonlinear_arith)
        requires
            12 * den == n * run,
            n >= 2,
            run > 0,
    ;
    assert((num >= 0) == (rise >= 0)) by (nonlinear_arith)
        requires
            12 * num == n * rise,
            n >= 2,
    ;
    let (a, b) = if num >= 0 {
        (num, rise)
    } else {
        (-num, -rise)
    };
    lemma_divides_to(a, den);
    let r = a / den;
    assert(12 * a == n * b) by (nonlinear_arith)
        requires
            12 * num == n * rise,
            (a == num && b == rise) || (a == -num && b == -rise),
    ;
    assert(r * run <= b && b < (r + 1) * run) by (nonlinear_arith)
        requires
            r * den <= a,
            a < (r + 1) * den,
            12 * a == n * b,
            12 * den == n * run,
            n >= 2,
    ;
    assert(slope_of(s) == quotient(num, den));
}

} // verus!
