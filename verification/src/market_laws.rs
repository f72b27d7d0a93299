//! What pools, fees and other amounts come to, told of what they are taken of.

use crate::aggregation::{capped_deviation, deviation_of};
use crate::answer_laws::on_the_line;
use crate::bridges::rescaled;
use crate::consumers::{refund_of, Subscription};
use crate::contract::PriceOracleContract;
use crate::dashboard::share;
use crate::env::Env;
use crate::error::ErrorCode;
use crate::exotic::{part_of, AssetPricingConfig};
use crate::fee_market::{enqueued, in_service_order, source_share, treasury_share, QueuedSubmission};
use crate::pools::{market_price, market_share, spot_price, swap_output, ten_to, AmmPool};
use crate::price_book::{AggregationRules, PriceState};
use crate::pricing_laws::aggregate_price;
use crate::relayers::{
    accuracy_of, balance_of, counted_times, credited, credited_times, reward_for, rewards_after, slashed_part,
    RelayedSubmission,
};
use crate::types::{Address, Symbol, VersionedAggregatePrice};
use vstd::arithmetic::power::pow;
use vstd::prelude::*;

verus! {

/// Whether `r` is `a` divided by `b`, rounded down.
pub open spec fn divides_to(a: int, b: int, r: int) -> bool {
    r * b <= a && a < (r + 1) * b
}

pub(crate) proof fn lemma_divides_to(a: int, b: int)
    requires
        b > 0,
    ensures
        divides_to(a, b, a / b),
{
    let r = a / b;
    vstd::arithmetic::div_mod::lemma_fundamental_div_mod(a, b);
    assert(r * b <= a && a < (r + 1) * b) by (nonlinear_arith)
        requires
            a == b * r + a % b,
            0 <= a % b < b,
    ;
}

pub(crate) proof fn lemma_one_quotient(a: int, b: int, r: int)
    requires
        b > 0,
        divides_to(a, b, r),
    ensures
        a / b == r,
{
    lemma_divides_to(a, b);
    let q = a / b;
    assert(q == r) by (nonlinear_arith)
        requires
            q * b <= a,
            a < (q + 1) * b,
            r * b <= a,
            a < (r + 1) * b,
            b > 0,
    ;
}

pub(crate) proof fn lemma_ten_to_is_a_power(n: nat)
    ensures
        ten_to(n) == pow(10, n),
        ten_to(n) > 0,
    decreases n,
{
    reveal(pow);
    if n > 0 {
        lemma_ten_to_is_a_power((n - 1) as nat);
    }
}

/// The price of the first token of a pair in the second is the ratio of their reserves, with as many
/// decimals as are asked for and rounded down. There is none of an empty reserve.
pub proof fn a_spot_price_is_the_ratio_of_the_reserves(reserve: i128, paired_reserve: i128, decimals: u32)
    ensures
        spot_price(reserve, paired_reserve, decimals) matches Some(s) ==> reserve > 0 && paired_reserve > 0
            && s >= 0 && divides_to(paired_reserve * pow(10, decimals as nat), reserve as int, s as int),
        reserve > 0 && paired_reserve > 0 && decimals <= 38 && paired_reserve * pow(10, decimals as nat)
            < (i128::MAX + 1) * reserve ==> spot_price(reserve, paired_reserve, decimals) is Some,
{
    let scale = pow(10, decimals as nat);
    lemma_ten_to_is_a_power(decimals as nat);
    if reserve > 0 && paired_reserve > 0 {
        let a = paired_reserve * scale;
        assert(a >= 0) by (nonlinear_arith)
            requires
                a == paired_reserve * scale,
                paired_reserve > 0,
                scale > 0,
        ;
        lemma_divides_to(a, reserve as int);
        vstd::arithmetic::div_mod::lemma_div_pos_is_pos(a, reserve as int);
        let p = a / reserve as int;
        if a < (i128::MAX + 1) * reserve {
            assert(p <= i128::MAX) by (nonlinear_arith)
                requires
                    p * reserve <= a,
                    a < (i128::MAX + 1) * reserve,
                    reserve > 0,
            ;
        }
    }
}

/// A swap pays the largest amount that keeps the product of the reserves once the fee of three in a
/// thousand is taken off what is paid in: what is paid in is added to its reserve as a whole, what
/// is paid out is taken from the other, and nothing else of the pool changes but their product.
pub proof fn a_swap_pays_what_the_product_allows(
    c: PriceOracleContract,
    env: Env,
    caller: Address,
    asset: Symbol,
    from_asset: Address,
    to_asset: Address,
    amount_in: i128,
    min_return: i128,
)
    requires
        c.swap_refusal(env, caller, asset, from_asset, to_asset, amount_in, min_return) is None,
    ensures
        ({
            let p = c.pools.amm@[asset];
            let forward = from_asset == p.asset_x && to_asset == p.asset_y;
            let q = PriceOracleContract::swapped(p, forward, amount_in as int);
            let (x, y) = if forward {
                (p.reserve_x as int, p.reserve_y as int)
            } else {
                (p.reserve_y as int, p.reserve_x as int)
            };
            let (nx, ny) = if forward {
                (q.reserve_x as int, q.reserve_y as int)
            } else {
                (q.reserve_y as int, q.reserve_x as int)
            };
            let out = swap_output(x, y, amount_in as int);
            &&& env.authorized@.contains(caller)
            &&& p.enabled
            &&& forward || (from_asset == p.asset_y && to_asset == p.asset_x)
            &&& amount_in > 0
            &&& nx == x + amount_in
            &&& ny == y - out
            &&& 0 <= out < y
            &&& out >= min_return
            &&& (1000 * x + 997 * amount_in) * (y - out) >= 1000 * x * y
            &&& (1000 * x + 997 * amount_in) * (y - out - 1) < 1000 * x * y
            &&& q.k == q.reserve_x * q.reserve_y
            &&& q == (AmmPool { reserve_x: q.reserve_x, reserve_y: q.reserve_y, k: q.k, ..p })
        }),
{
    let p = c.pools.amm@[asset];
    let forward = from_asset == p.asset_x && to_asset == p.asset_y;
    let (x, y) = if forward {
        (p.reserve_x as int, p.reserve_y as int)
    } else {
        (p.reserve_y as int, p.reserve_x as int)
    };
    let i = amount_in as int;
    let out = swap_output(x, y, i);
    crate::pools::a_swap_keeps_the_product(x, y, i);
    crate::pools::a_swap_pays_all_it_may(x, y, i);
    let (a, b) = (x + i, y - out);
    assert(a * b > 0) by (nonlinear_arith)
        requires
            a > 0,
            b > 0,
    ;
    assert(a * b == b * a) by (nonlinear_arith);
}

/// What a swap leaves of a pool implies a price that is near the aggregate of its first token, where
/// there is one.
pub proof fn a_swap_stays_near_the_aggregate(
    c: PriceOracleContract,
    env: Env,
    caller: Address,
    asset: Symbol,
    from_asset: Address,
    to_asset: Address,
    amount_in: i128,
    min_return: i128,
)
    requires
        c.swap_refusal(env, caller, asset, from_asset, to_asset, amount_in, min_return) is None,
        c.book.aggregates@.contains_key(c.pools.amm@[asset].asset_x),
        c.book.aggregates@[c.pools.amm@[asset].asset_x].aggregate.price > 0,
        c.pools.max_deviation_bps < u32::MAX,
    ensures
        ({
            let p = c.pools.amm@[asset];
            let forward = from_asset == p.asset_x && to_asset == p.asset_y;
            let q = PriceOracleContract::swapped(p, forward, amount_in as int);
            let reference = c.book.aggregates@[p.asset_x].aggregate.price as int;
            spot_price(q.reserve_x, q.reserve_y, c.config.decimals) matches Some(s) && {
                &&& divides_to(q.reserve_y * pow(10, c.config.decimals as nat), q.reserve_x as int, s as int)
                &&& (s - reference) * 10_000 < (c.pools.max_deviation_bps + 1) * reference
                &&& (reference - s) * 10_000 < (c.pools.max_deviation_bps + 1) * reference
            }
        }),
{
    let p = c.pools.amm@[asset];
    let forward = from_asset == p.asset_x && to_asset == p.asset_y;
    let q = PriceOracleContract::swapped(p, forward, amount_in as int);
    let reference = c.book.aggregates@[p.asset_x].aggregate.price;
    a_spot_price_is_the_ratio_of_the_reserves(q.reserve_x, q.reserve_y, c.config.decimals);
    let s = spot_price(q.reserve_x, q.reserve_y, c.config.decimals).unwrap();
    a_deviation_is_in_ten_thousandths(s, reference);
    let d = capped_deviation(s, reference);
    let most = c.pools.max_deviation_bps;
    let apart = if s >= reference {
        s - reference
    } else {
        reference - s
    };
    assert(apart * 10_000 < (most + 1) * reference) by (nonlinear_arith)
        requires
            apart * 10_000 < (d + 1) * reference,
            d <= most,
            reference > 0,
    ;
    assert((s - reference) * 10_000 < (most + 1) * reference && (reference - s) * 10_000 < (most + 1)
        * reference) by (nonlinear_arith)
        requires
            apart * 10_000 < (most + 1) * reference,
            apart == s - reference || apart == reference - s,
            apart >= 0,
            reference > 0,
    ;
    assert(divides_to(q.reserve_y * pow(10, c.config.decimals as nat), q.reserve_x as int, s as int));
}

/// A deviation is the distance between two prices in ten-thousandths of the second, rounded down, as
/// far as it can be told.
pub proof fn a_deviation_is_in_ten_thousandths(price: i128, reference: i128)
    requires
        reference > 0,
    ensures
        ({
            let d = capped_deviation(price, reference);
            let apart = if price >= reference {
                price - reference
            } else {
                reference - price
            };
            if d < u32::MAX {
                divides_to(apart * 10_000, reference as int, d as int)
            } else {
                apart * 10_000 >= u32::MAX * reference
            }
        }),
{
    let apart = if price >= reference {
        price - reference
    } else {
        reference - price
    };
    lemma_divides_to(apart * 10_000, reference as int);
    let d = deviation_of(price, reference);
    if d >= u32::MAX {
        assert(apart * 10_000 >= u32::MAX * reference) by (nonlinear_arith)
            requires
                d * reference <= apart * 10_000,
                d >= u32::MAX,
                reference > 0,
        ;
    }
}

proof fn lemma_no_market_price(c: PriceOracleContract, asset: Address, n: int)
    requires
        forall|j: int|
            0 <= j < n ==> !(c.pools.amm@[#[trigger] c.pools.amm.keys()[j]].enabled
                && c.pools.amm@[c.pools.amm.keys()[j]].asset_x == asset),
    ensures
        market_price(c.pools.amm, asset, c.config.decimals, n) is None,
    decreases n,
{
    if n > 0 {
        lemma_no_market_price(c, asset, n - 1);
        assert(!(c.pools.amm@[c.pools.amm.keys()[n - 1]].enabled && c.pools.amm@[c.pools.amm.keys()[n
            - 1]].asset_x == asset));
    }
}

proof fn lemma_market_price_stays(c: PriceOracleContract, asset: Address, n: int, m: int)
    requires
        0 <= n <= m,
        market_price(c.pools.amm, asset, c.config.decimals, n) is Some,
    ensures
        market_price(c.pools.amm, asset, c.config.decimals, m) == market_price(
            c.pools.amm,
            asset,
            c.config.decimals,
            n,
        ),
    decreases m - n,
{
    if n < m {
        lemma_market_price_stays(c, asset, n, m - 1);
    }
}

/// A pool that counts draws the aggregate from what the sources alone would make it towards its own
/// price, by as much of the way as its weight says. The pool is the oldest open one that trades the
/// asset as its first token.
pub proof fn a_pool_draws_the_aggregate(
    c: PriceOracleContract,
    without: PriceOracleContract,
    env: Env,
    asset: Address,
    i: int,
    price: i128,
)
    requires
        without == (PriceOracleContract { pools: without.pools, ..c }),
        !without.pools.weights@.contains_key(asset),
        c.pools.weights@.contains_key(asset),
        c.pools.weights@[asset].enabled,
        0 < c.pools.weights@[asset].weight_bps <= 10_000,
        0 <= i < c.pools.amm.keys().len(),
        forall|j: int|
            0 <= j < i ==> !(c.pools.amm@[#[trigger] c.pools.amm.keys()[j]].enabled
                && c.pools.amm@[c.pools.amm.keys()[j]].asset_x == asset),
        c.config.decimals <= 38,
        price > 0,
        ({
            let p = c.pools.amm@[c.pools.amm.keys()[i]];
            &&& p.enabled
            &&& p.asset_x == asset
            &&& p.reserve_x > 0
            &&& p.reserve_y > 0
            &&& divides_to(p.reserve_y * pow(10, c.config.decimals as nat), p.reserve_x as int, price as int)
        }),
    ensures
        on_the_line(
            aggregate_price(without, env, asset) as int,
            price as int,
            c.pools.weights@[asset].weight_bps as int,
            10_000,
            aggregate_price(c, env, asset) as int,
        ),
{
    let p = c.pools.amm@[c.pools.amm.keys()[i]];
    lemma_ten_to_is_a_power(c.config.decimals as nat);
    lemma_one_quotient(p.reserve_y * pow(10, c.config.decimals as nat), p.reserve_x as int, price as int);
    assert(spot_price(p.reserve_x, p.reserve_y, c.config.decimals) == Some(price));
    lemma_no_market_price(c, asset, i);
    assert(market_price(c.pools.amm, asset, c.config.decimals, i + 1) == Some(price));
    lemma_market_price_stays(c, asset, i + 1, c.pools.amm.keys().len() as int);
    let w = c.pools.weights@[asset].weight_bps;
    let m = crate::pools::MarketShare { price, weight_bps: w };
    assert(market_share(c.pools, asset, c.config.decimals) == Some(m));
    let base = aggregate_price(without, env, asset);
    lemma_pools_change_no_contributors(c, without, env, asset);
    assert(market_share(without.pools, asset, c.config.decimals) is None);
    assert(aggregate_price(c, env, asset) == crate::pools::blended(base, Some(m)));
    crate::pools::a_blended_price_lies_between(base, m);
    let d = if base <= price {
        price - base
    } else {
        base - price
    };
    lemma_divides_to(d * w, 10_000);
    let part = d * w / 10_000;
    assert(part <= d) by (nonlinear_arith)
        requires
            part * 10_000 <= d * w,
            d >= 0,
            0 < w <= 10_000,
    ;
    assert(part >= 0) by (nonlinear_arith)
        requires
            d * w < (part + 1) * 10_000,
            d >= 0,
            w > 0,
    ;
}

proof fn lemma_pools_change_no_contributors(
    c: PriceOracleContract,
    without: PriceOracleContract,
    env: Env,
    asset: Address,
)
    requires
        without == (PriceOracleContract { pools: without.pools, ..c }),
    ensures
        c.rules(env).contributors(c.book.submissions@, asset) == without.rules(env).contributors(
            c.book.submissions@,
            asset,
        ),
{
    let f = |s: Address| c.rules(env).counts(c.book.submissions@, asset, s);
    let g = |s: Address| without.rules(env).counts(c.book.submissions@, asset, s);
    assert(f =~= g);
}

/// A pool without a weight counts for nothing.
pub proof fn a_pool_without_a_weight_counts_for_nothing(
    c: PriceOracleContract,
    without: PriceOracleContract,
    env: Env,
    asset: Address,
)
    requires
        without == (PriceOracleContract { pools: without.pools, ..c }),
        !without.pools.weights@.contains_key(asset),
        c.pools.weights@.contains_key(asset) ==> !c.pools.weights@[asset].enabled
            || c.pools.weights@[asset].weight_bps == 0,
    ensures
        aggregate_price(c, env, asset) == aggregate_price(without, env, asset),
{
    lemma_pools_change_no_contributors(c, without, env, asset);
}

/// A price with more decimals is the same number of smaller units; with fewer decimals it is rounded
/// towards zero.
pub proof fn decimals_change_the_unit_only(price: int, from: u32, to: u32)
    ensures
        to >= from ==> rescaled(price, from, to) == price * pow(10, (to - from) as nat),
        to < from && price >= 0 ==> divides_to(price, pow(10, (from - to) as nat), rescaled(price, from, to)),
        to < from && price < 0 ==> divides_to(-price, pow(10, (from - to) as nat), -rescaled(price, from, to)),
{
    if to >= from {
        lemma_ten_to_is_a_power((to - from) as nat);
    } else {
        lemma_ten_to_is_a_power((from - to) as nat);
        lemma_divides_to(price, pow(10, (from - to) as nat));
        lemma_divides_to(-price, pow(10, (from - to) as nat));
    }
}

/// Of a fee the source gets as many hundredths as the ratio says, rounded down, and the treasury the
/// rest.
pub proof fn a_fee_is_shared_by_the_ratio(fee: u128, ratio: u32)
    requires
        ratio <= 100,
    ensures
        divides_to(fee * ratio, 100, source_share(fee, ratio) as int),
        source_share(fee, ratio) + treasury_share(fee, ratio) == fee,
{
    lemma_divides_to(fee * ratio, 100);
    let s = fee * ratio / 100;
    assert(0 <= s <= fee) by (nonlinear_arith)
        requires
            s * 100 <= fee * ratio,
            fee * ratio < (s + 1) * 100,
            0 <= fee,
            0 <= ratio <= 100,
    ;
}

/// The queue keeps everyone who waits, and who joins it. Nobody waits behind one who pays less, nor
/// behind one who pays as much for a later observation.
pub proof fn the_queue_serves_the_best_payers_first(s: Seq<QueuedSubmission>, x: QueuedSubmission)
    requires
        forall|i: int, j: int|
            0 <= i < j < s.len() ==> (#[trigger] s[i]).priority_fee > (#[trigger] s[j]).priority_fee || (
            s[i].priority_fee == s[j].priority_fee && s[i].timestamp <= s[j].timestamp),
    ensures
        enqueued(s, x).to_multiset() == s.to_multiset().insert(x),
        forall|i: int, j: int|
            0 <= i < j < enqueued(s, x).len() ==> (#[trigger] enqueued(s, x)[i]).priority_fee > (
            #[trigger] enqueued(s, x)[j]).priority_fee || (enqueued(s, x)[i].priority_fee == enqueued(
                s,
                x,
            )[j].priority_fee && enqueued(s, x)[i].timestamp <= enqueued(s, x)[j].timestamp),
{
    lemma_enqueued_members(s, x);
    assert(in_service_order(s)) by {
        assert forall|i: int, j: int| 0 <= i < j < s.len() implies !crate::fee_market::served_before(
            #[trigger] s[j],
            #[trigger] s[i],
        ) by {}
    }
    crate::fee_market::adding_keeps_the_order_of_service(s, x);
    let t = enqueued(s, x);
    assert forall|i: int, j: int| 0 <= i < j < t.len() implies (#[trigger] t[i]).priority_fee > (
    #[trigger] t[j]).priority_fee || (t[i].priority_fee == t[j].priority_fee && t[i].timestamp
        <= t[j].timestamp) by {
        assert(!crate::fee_market::served_before(t[j], t[i]));
    }
}

proof fn lemma_enqueued_members(s: Seq<QueuedSubmission>, x: QueuedSubmission)
    ensures
        enqueued(s, x).to_multiset() == s.to_multiset().insert(x),
    decreases s.len(),
{
    broadcast use vstd::seq_lib::group_to_multiset_ensures;

    if s.len() > 0 && crate::fee_market::served_before(x, s.last()) {
        let d = s.drop_last();
        lemma_enqueued_members(d, x);
        assert(d.push(s.last()) =~= s);
        assert(enqueued(s, x).to_multiset() =~= s.to_multiset().insert(x));
    }
}

/// A slash takes as many hundredths of a bond as it is said to, rounded down, and nothing of no bond.
pub proof fn a_slash_takes_its_part(bond: i128, percent: u32)
    ensures
        bond > 0 ==> divides_to(bond * percent, 100, slashed_part(bond, percent)),
        bond <= 0 ==> slashed_part(bond, percent) == 0,
{
    lemma_divides_to(bond * percent, 100);
}

/// The reward of a price is as many ten-thousandths of the rate as it is accurate, rounded down.
/// Without a rate there is no reward.
pub proof fn a_reward_follows_the_accuracy(rate: i128, accuracy_bps: u32)
    requires
        accuracy_bps <= 10_000,
    ensures
        rate > 0 ==> divides_to(rate * accuracy_bps, 10_000, reward_for(rate, accuracy_bps) as int),
        rate <= 0 ==> reward_for(rate, accuracy_bps) == 0,
{
    if rate > 0 {
        lemma_divides_to(rate * accuracy_bps, 10_000);
        let r = rate * accuracy_bps / 10_000;
        assert(0 <= r <= rate) by (nonlinear_arith)
            requires
                r * 10_000 <= rate * accuracy_bps,
                rate * accuracy_bps < (r + 1) * 10_000,
                0 < rate,
                0 <= accuracy_bps <= 10_000,
        ;
    }
}

/// A price is as inaccurate as it is far from the aggregate, in ten-thousandths of it, and no more
/// than wholly. Where there is no aggregate, it is accurate.
pub proof fn accuracy_falls_with_the_distance(
    aggregates: Map<Address, VersionedAggregatePrice>,
    asset: Address,
    price: i128,
)
    ensures
        accuracy_of(aggregates, asset, price) <= 10_000,
        !aggregates.contains_key(asset) ==> accuracy_of(aggregates, asset, price) == 10_000,
        aggregates.contains_key(asset) && aggregates[asset].aggregate.price > 0 ==> {
            let reference = aggregates[asset].aggregate.price;
            let lost = 10_000 - accuracy_of(aggregates, asset, price);
            let apart = if price >= reference {
                price - reference
            } else {
                reference - price
            };
            if lost < 10_000 {
                divides_to(apart * 10_000, reference as int, lost)
            } else {
                apart >= reference
            }
        },
{
    if aggregates.contains_key(asset) && aggregates[asset].aggregate.price > 0 {
        let reference = aggregates[asset].aggregate.price;
        a_deviation_is_in_ten_thousandths(price, reference);
        let apart = if price >= reference {
            price - reference
        } else {
            reference - price
        };
        let d = capped_deviation(price, reference);
        if d >= 10_000 {
            assert(apart * 10_000 >= d * reference);
            assert(apart >= reference) by (nonlinear_arith)
                requires
                    apart * 10_000 >= d * reference,
                    d >= 10_000,
                    reference > 0,
            ;
        }
    }
}

/// Many equal fees add up, as far as the largest balance that there is.
pub proof fn fees_add_up(b: i128, fee: i128, n: int)
    requires
        n >= 0,
        fee > 0,
    ensures
        credited_times(b, fee, n) == (if b + fee * n > i128::MAX {
            i128::MAX as int
        } else {
            b + fee * n
        }),
        credited(b, fee) >= b,
    decreases n,
{
    if n > 0 {
        fees_add_up(b, fee, n - 1);
        assert(fee * n == fee * (n - 1) + fee) by (nonlinear_arith);
        assert(fee * (n - 1) >= 0) by (nonlinear_arith)
            requires
                fee > 0,
                n >= 1,
        ;
    } else {
        assert(fee * n == 0) by (nonlinear_arith)
            requires
                n == 0,
        ;
    }
}

/// A count goes up by one for each of `n`, as far as it goes.
pub proof fn counts_go_up_by_one(c: u64, n: int)
    requires
        n >= 0,
    ensures
        counted_times(c, n) == (if c + n > u64::MAX {
            u64::MAX as int
        } else {
            c + n
        }),
    decreases n,
{
    if n > 0 {
        counts_go_up_by_one(c, n - 1);
    }
}

/// Who cancels a subscription gets back what the time that is left is of the whole, rounded down.
pub proof fn a_refund_is_for_the_time_left(s: Subscription, now: u64)
    requires
        s.amount > 0,
        s.started < s.expiry,
    ensures
        s.started <= now < s.expiry ==> divides_to(
            s.amount * (s.expiry - now),
            s.expiry - s.started,
            refund_of(s, now),
        ),
        now >= s.expiry ==> refund_of(s, now) == 0,
        now <= s.started ==> refund_of(s, now) == s.amount,
{
    if s.started <= now < s.expiry {
        lemma_divides_to(s.amount * (s.expiry - now), s.expiry - s.started);
        if now == s.started {
            let w = s.expiry - s.started;
            assert(s.amount * w <= s.amount * w && s.amount * w < (s.amount + 1) * w) by (nonlinear_arith)
                requires
                    w > 0,
            ;
        }
    }
}

/// A share is the part of the whole in the units asked for, rounded down.
pub proof fn a_share_is_a_part_of_the_whole(part: int, whole: int, scale: int)
    ensures
        whole > 0 ==> divides_to(part * scale, whole, share(part, whole, scale)),
        whole <= 0 ==> share(part, whole, scale) == 0,
{
    if whole > 0 {
        lemma_divides_to(part * scale, whole);
    }
}

/// An option is worth what its underlying is worth above its strike, or below it where it is one to
/// sell, and nothing otherwise.
pub proof fn an_option_is_worth_what_it_is_in_the_money(
    c: PriceOracleContract,
    asset: Address,
    underlying: Address,
    strike: u128,
    is_call: bool,
    path: Seq<Address>,
    v: u128,
)
    requires
        c.exotics@.contains_key(asset),
        c.exotics@[asset] == (AssetPricingConfig::OptionOn { underlying, strike, is_call }),
        !path.contains(asset),
        path.len() <= 3,
        c.fair_value(underlying, path.push(asset)) == Ok::<u128, crate::error::ErrorCode>(v),
    ensures
        c.fair_value(asset, path) matches Ok(worth) && (if is_call {
            if v >= strike {
                worth + strike == v
            } else {
                worth == 0
            }
        } else {
            if strike >= v {
                worth + v == strike
            } else {
                worth == 0
            }
        }),
{
}

/// A part of a value is as much of it as the part is of the whole, rounded down.
pub proof fn a_part_is_worth_its_share(v: u128, amount: u128, whole: u128)
    requires
        whole > 0,
    ensures
        part_of(Ok(v), amount, whole) matches Ok(r) ==> divides_to(amount * v, whole as int, r as int),
        amount * v < (u128::MAX + 1) * whole ==> part_of(Ok(v), amount, whole) is Ok,
{
    lemma_divides_to(amount * v, whole as int);
    let r = (amount * v) / whole as int;
    if amount * v < (u128::MAX + 1) * whole {
        assert(r <= u128::MAX) by (nonlinear_arith)
            requires
                r * whole <= amount * v,
                amount * v < (u128::MAX + 1) * whole,
                whole > 0,
        ;
    }
    assert(amount * v >= 0) by (nonlinear_arith)
        requires
            amount >= 0,
            v >= 0,
    ;
    vstd::arithmetic::div_mod::lemma_div_pos_is_pos(amount * v, whole as int);
}

/// A token of a pool is worth its part of both reserves, each rounded down.
pub proof fn a_pool_token_is_worth_its_part_of_the_reserves(
    c: PriceOracleContract,
    asset: Address,
    asset_a: Address,
    reserve_a: u128,
    asset_b: Address,
    reserve_b: u128,
    supply: u128,
    path: Seq<Address>,
    a: u128,
    b: u128,
    r: u128,
)
    requires
        c.exotics@.contains_key(asset),
        c.exotics@[asset] == (AssetPricingConfig::LPToken { asset_a, reserve_a, asset_b, reserve_b, supply }),
        !path.contains(asset),
        path.len() <= 3,
        c.fair_value(asset_a, path.push(asset)) == Ok::<u128, ErrorCode>(a),
        c.fair_value(asset_b, path.push(asset)) == Ok::<u128, ErrorCode>(b),
        c.fair_value(asset, path) == Ok::<u128, ErrorCode>(r),
    ensures
        supply > 0,
        divides_to(reserve_a * a, supply as int, reserve_a * a / supply as int),
        divides_to(reserve_b * b, supply as int, reserve_b * b / supply as int),
        r == reserve_a * a / supply as int + reserve_b * b / supply as int,
        r * supply <= reserve_a * a + reserve_b * b,
        reserve_a * a + reserve_b * b < (r + 2) * supply,
{
    a_part_is_worth_its_share(a, reserve_a, supply);
    a_part_is_worth_its_share(b, reserve_b, supply);
    let x = reserve_a * a / supply as int;
    let y = reserve_b * b / supply as int;
    lemma_divides_to(reserve_a * a, supply as int);
    lemma_divides_to(reserve_b * b, supply as int);
    vstd::arithmetic::mul::lemma_mul_nonnegative(reserve_a as int, a as int);
    vstd::arithmetic::mul::lemma_mul_nonnegative(reserve_b as int, b as int);
    vstd::arithmetic::div_mod::lemma_div_pos_is_pos(reserve_a * a, supply as int);
    vstd::arithmetic::div_mod::lemma_div_pos_is_pos(reserve_b * b, supply as int);
    let (u, v, w) = (reserve_a * a, reserve_b * b, supply as int);
    assert((x + y) * w <= u + v && u + v < (x + y + 2) * w) by (nonlinear_arith)
        requires
            x * w <= u,
            u < (x + 1) * w,
            y * w <= v,
            v < (y + 1) * w,
    ;
}

/// Another component adds as many ten-thousandths of its value to a basket as it weighs, rounded down.
/// An empty basket is worth nothing.
pub proof fn a_component_adds_its_weight(
    c: PriceOracleContract,
    components: Seq<(Address, u32)>,
    asset: Address,
    weight_bps: u32,
    path: Seq<Address>,
    before: u128,
    v: u128,
    after: u128,
)
    requires
        path.len() <= 4,
        c.basket_value(components, path) == Ok::<u128, ErrorCode>(before),
        c.fair_value(asset, path) == Ok::<u128, ErrorCode>(v),
        c.basket_value(components.push((asset, weight_bps)), path) == Ok::<u128, ErrorCode>(after),
    ensures
        divides_to(weight_bps * v, 10_000, after - before),
        c.basket_value(Seq::empty(), path) == Ok::<u128, ErrorCode>(0),
{
    assert(components.push((asset, weight_bps)).drop_last() =~= components);
    a_part_is_worth_its_share(v, weight_bps as u128, 10_000);
    vstd::arithmetic::mul::lemma_mul_nonnegative(weight_bps as int, v as int);
    vstd::arithmetic::div_mod::lemma_div_pos_is_pos(weight_bps * v, 10_000);
}

/// What is quoted is worth its reported price, with eighteen decimals.
pub proof fn a_value_has_eighteen_decimals(c: PriceOracleContract, asset: Address, v: u128)
    requires
        c.market_value(asset) == Ok::<u128, ErrorCode>(v),
    ensures
        ({
            let decimals = if c.references.asset_decimals@.contains_key(asset) {
                c.references.asset_decimals@[asset]
            } else {
                c.config.decimals
            };
            let price = if c.frozen@.contains_key(asset) {
                c.frozen@[asset].aggregate.price
            } else {
                c.book.aggregates@[asset].aggregate.price
            };
            &&& c.book.assets@.contains_key(asset)
            &&& decimals <= 18 ==> v == price * pow(10, (18 - decimals) as nat)
            &&& decimals > 18 && price >= 0 ==> divides_to(
                price as int,
                pow(10, (decimals - 18) as nat),
                v as int,
            )
        }),
{
    decimals_change_the_unit_only(c.reported(asset).unwrap().price as int, c.decimals_of(asset), 18);
}

/// A relayed price is rewarded by how close it lies to the aggregate that it met.
pub proof fn a_relayed_price_is_rewarded(
    m: Map<Address, i128>,
    relayer: Address,
    rate: i128,
    state: PriceState,
    rules: AggregationRules,
    ledger: u32,
    s: Seq<RelayedSubmission>,
    x: RelayedSubmission,
)
    requires
        rate > 0,
    ensures
        ({
            let before = rewards_after(m, relayer, rate, state, rules, ledger, s);
            let after = rewards_after(m, relayer, rate, state, rules, ledger, s.push(x));
            let met = state.relayed_all(rules, ledger, s).aggregates;
            let earned = balance_of(after, relayer) - balance_of(before, relayer);
            &&& balance_of(before, relayer) + rate <= i128::MAX ==> divides_to(
                rate * accuracy_of(met, x.asset, x.price),
                10_000,
                earned,
            )
            &&& forall|o: Address|
                o != relayer ==> #[trigger] balance_of(after, o) == balance_of(before, o)
        }),
        rewards_after(m, relayer, rate, state, rules, ledger, Seq::empty()) == m,
{
    assert(s.push(x).drop_last() =~= s);
    let met = state.relayed_all(rules, ledger, s).aggregates;
    accuracy_falls_with_the_distance(met, x.asset, x.price);
    let accuracy = accuracy_of(met, x.asset, x.price);
    a_reward_follows_the_accuracy(rate, accuracy);
    let r = reward_for(rate, accuracy) as int;
    assert(0 <= r <= rate) by (nonlinear_arith)
        requires
            r * 10_000 <= rate * accuracy,
            rate * accuracy < (r + 1) * 10_000,
            0 <= accuracy <= 10_000,
            rate > 0,
    ;
}

} // verus!
