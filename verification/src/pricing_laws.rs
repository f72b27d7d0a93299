//! What an aggregate is, told of the prices and reputations that go into it.

use crate::aggregation::{
    a_weighted_median_exists, ascending, ascending_orders_the_prices, count_within, lemma_count_above,
    lemma_count_ascending, lemma_count_below, mean_of, median_of, sum, total_weight, trimmed_mean_of,
    weight_up_to, weighted_median_of, AggregationMethod,
};
use crate::contract::PriceOracleContract;
use crate::env::Env;
use crate::price_book::{latest_timestamp, prices_of, weights_of};
use crate::types::{Address, PriceEntry};
use vstd::prelude::*;

verus! {

/// The reputation of a source: what is recorded for it, or one.
pub open spec fn reputation(c: PriceOracleContract, source: Address) -> int {
    if c.weights@.contains_key(source) {
        c.weights@[source] as int
    } else {
        1
    }
}

/// What a source last asked for `asset`.
pub open spec fn asked(c: PriceOracleContract, asset: Address, source: Address) -> i128 {
    c.book.submissions@[(asset, source)].price
}

/// The joint reputation of those of `sources` that ask at most `p`.
pub open spec fn reputation_up_to(c: PriceOracleContract, asset: Address, sources: Seq<Address>, p: int) -> int
    decreases sources.len(),
{
    if sources.len() == 0 {
        0
    } else {
        reputation_up_to(c, asset, sources.drop_last(), p) + if asked(c, asset, sources.last()) <= p {
            reputation(c, sources.last())
        } else {
            0
        }
    }
}

/// The joint reputation of `sources`.
pub open spec fn joint_reputation(c: PriceOracleContract, sources: Seq<Address>) -> int
    decreases sources.len(),
{
    if sources.len() == 0 {
        0
    } else {
        joint_reputation(c, sources.drop_last()) + reputation(c, sources.last())
    }
}

/// How many of `sources` ask less than `p`.
pub open spec fn asking_less(c: PriceOracleContract, asset: Address, sources: Seq<Address>, p: int) -> int
    decreases sources.len(),
{
    if sources.len() == 0 {
        0
    } else {
        asking_less(c, asset, sources.drop_last(), p) + if asked(c, asset, sources.last()) < p {
            1int
        } else {
            0
        }
    }
}

/// How many of `sources` ask more than `p`.
pub open spec fn asking_more(c: PriceOracleContract, asset: Address, sources: Seq<Address>, p: int) -> int
    decreases sources.len(),
{
    if sources.len() == 0 {
        0
    } else {
        asking_more(c, asset, sources.drop_last(), p) + if asked(c, asset, sources.last()) > p {
            1int
        } else {
            0
        }
    }
}

/// What `sources` ask, all together.
pub open spec fn asked_in_all(c: PriceOracleContract, asset: Address, sources: Seq<Address>) -> int
    decreases sources.len(),
{
    if sources.len() == 0 {
        0
    } else {
        asked_in_all(c, asset, sources.drop_last()) + asked(c, asset, sources.last())
    }
}

/// The sources that go into the aggregate of `asset`.
pub open spec fn contributors(c: PriceOracleContract, env: Env, asset: Address) -> Seq<Address> {
    c.rules(env).contributors(c.book.submissions@, asset)
}

/// The price that aggregating `asset` reports.
pub open spec fn aggregate_price(c: PriceOracleContract, env: Env, asset: Address) -> i128 {
    c.rules(env).agreed(c.book.submissions@, asset).price
}

/// Whether the last price of `source` for `asset` is one that counts: above zero, recent enough
/// where an interval is set, and of the round where one is.
pub open spec fn price_counts(c: PriceOracleContract, env: Env, asset: Address, source: Address) -> bool {
    let e = c.book.submissions@[(asset, source)];
    &&& c.book.submissions@.contains_key((asset, source))
    &&& e.price > 0
    &&& c.settings.min_submission_interval == 0 || env.ledger <= e.ledger
        + c.settings.min_submission_interval
    &&& c.round matches Some(r) ==> r.start_ledger <= e.ledger && e.ledger <= r.end_ledger
}

proof fn lemma_filter_prefix(s: Seq<Address>, pred: spec_fn(Address) -> bool, m: int) -> (n: int)
    requires
        0 <= m <= s.filter(pred).len(),
    ensures
        0 <= n <= s.len(),
        s.filter(pred).take(m) == s.take(n).filter(pred),
    decreases s.len(),
{
    reveal(Seq::filter);
    if m == s.filter(pred).len() {
        assert(s.filter(pred).take(m) =~= s.filter(pred));
        assert(s.take(s.len() as int) =~= s);
        s.len() as int
    } else {
        let d = s.drop_last();
        let n = lemma_filter_prefix(d, pred, m);
        assert(s.filter(pred).take(m) =~= d.filter(pred).take(m));
        assert(d.take(n) =~= s.take(n));
        n
    }
}

pub(crate) proof fn lemma_filter_members<A>(s: Seq<A>, pred: spec_fn(A) -> bool)
    ensures
        s.filter(pred).len() <= s.len(),
        forall|i: int|
            0 <= i < s.filter(pred).len() ==> pred(#[trigger] s.filter(pred)[i]) && s.contains(
                s.filter(pred)[i],
            ),
        forall|j: int| 0 <= j < s.len() && pred(#[trigger] s[j]) ==> s.filter(pred).contains(s[j]),
        s.no_duplicates() ==> s.filter(pred).no_duplicates(),
    decreases s.len(),
{
    reveal(Seq::filter);
    if s.len() > 0 {
        let d = s.drop_last();
        let f = d.filter(pred);
        let r = s.filter(pred);
        lemma_filter_members(d, pred);
        assert forall|i: int| 0 <= i < r.len() implies pred(#[trigger] r[i]) && s.contains(r[i]) by {
            if i < f.len() {
                assert(r[i] == f[i]);
                let j = choose|j: int| 0 <= j < d.len() && d[j] == f[i];
                assert(s[j] == r[i]);
            } else {
                assert(s[s.len() - 1] == r[i]);
            }
        }
        assert forall|j: int| 0 <= j < s.len() && pred(#[trigger] s[j]) implies r.contains(s[j]) by {
            if j < d.len() {
                assert(d[j] == s[j]);
                let i = choose|i: int| 0 <= i < f.len() && f[i] == s[j];
                assert(r[i] == s[j]);
            } else {
                assert(r[r.len() - 1] == s[j]);
            }
        }
        if s.no_duplicates() {
            assert(d.no_duplicates());
            assert forall|i: int, j: int| 0 <= i < r.len() && 0 <= j < r.len() && i != j implies r[i] != r[j] by {
                if i < f.len() {
                    assert(r[i] == f[i]);
                    let k = choose|k: int| 0 <= k < d.len() && d[k] == f[i];
                    assert(s[k] == r[i]);
                }
                if j < f.len() {
                    assert(r[j] == f[j]);
                    let k = choose|k: int| 0 <= k < d.len() && d[k] == f[j];
                    assert(s[k] == r[j]);
                }
            }
        }
    }
}

/// Exactly the registered sources whose last price counts go into an aggregate, each of them once;
/// where they are more than are allowed, those that were registered first.
pub proof fn the_sources_that_count_contribute(c: PriceOracleContract, env: Env, asset: Address)
    requires
        c.sources.keys().no_duplicates(),
    ensures
        contributors(c, env, asset).no_duplicates(),
        forall|i: int|
            0 <= i < contributors(c, env, asset).len() ==> price_counts(
                c,
                env,
                asset,
                #[trigger] contributors(c, env, asset)[i],
            ) && c.sources.keys().contains(contributors(c, env, asset)[i]),
        c.settings.max_aggregation_sources > 0 ==> contributors(c, env, asset).len()
            <= c.settings.max_aggregation_sources,
        c.settings.max_aggregation_sources == 0 || contributors(c, env, asset).len()
            < c.settings.max_aggregation_sources ==> forall|i: int|
            0 <= i < c.sources.keys().len() && price_counts(c, env, asset, #[trigger] c.sources.keys()[i])
                ==> contributors(c, env, asset).contains(c.sources.keys()[i]),
        forall|i: int, j: int|
            0 <= i < j < c.sources.keys().len() && price_counts(
                c,
                env,
                asset,
                #[trigger] c.sources.keys()[i],
            ) && contributors(c, env, asset).contains(#[trigger] c.sources.keys()[j])
                ==> contributors(c, env, asset).contains(c.sources.keys()[i]),
{
    let keys = c.sources.keys();
    let rules = c.rules(env);
    let pred = |s: Address| rules.counts(c.book.submissions@, asset, s);
    assert forall|s: Address| #[trigger] pred(s) == price_counts(c, env, asset, s) by {}
    let all = rules.eligible(c.book.submissions@, asset);
    assert(all == keys.filter(pred));
    let k = contributors(c, env, asset);
    let m = k.len() as int;
    assert(k =~= all.take(m));
    let n = lemma_filter_prefix(keys, pred, m);
    let front = keys.take(n);
    assert(front.no_duplicates());
    lemma_filter_members(front, pred);
    lemma_filter_members(keys, pred);
    assert forall|i: int| 0 <= i < k.len() implies price_counts(c, env, asset, #[trigger] k[i])
        && keys.contains(k[i]) by {
        assert(pred(k[i]));
        let z = choose|z: int| 0 <= z < front.len() && front[z] == k[i];
        assert(keys[z] == k[i]);
    }
    assert forall|i: int, j: int|
        0 <= i < j < keys.len() && price_counts(c, env, asset, #[trigger] keys[i]) && k.contains(
            #[trigger] keys[j],
        ) implies k.contains(keys[i]) by {
        let z = choose|z: int| 0 <= z < k.len() && k[z] == keys[j];
        assert(front.contains(k[z]));
        let y = choose|y: int| 0 <= y < front.len() && front[y] == keys[j];
        assert(keys[y] == keys[j]);
        assert(front[i] == keys[i]);
        assert(pred(front[i]));
    }
    if c.settings.max_aggregation_sources == 0 || k.len() < c.settings.max_aggregation_sources {
        assert(k =~= all);
        assert forall|i: int| 0 <= i < keys.len() && price_counts(c, env, asset, #[trigger] keys[i]) implies k.contains(
            keys[i],
        ) by {
            assert(pred(keys[i]));
        }
    }
}

/// An asset is aggregated where at least one source contributes, and as many as are required.
pub proof fn enough_sources_make_a_quorum(c: PriceOracleContract, env: Env, asset: Address)
    ensures
        c.rules(env).quorum(c.book.submissions@, asset) <==> contributors(c, env, asset).len() >= 1
            && contributors(c, env, asset).len() >= c.config.min_sources_required,
{
}

proof fn lemma_contributors_positive(c: PriceOracleContract, env: Env, asset: Address)
    ensures
        forall|i: int|
            0 <= i < contributors(c, env, asset).len() ==> asked(
                c,
                asset,
                #[trigger] contributors(c, env, asset)[i],
            ) > 0,
{
    let pred = |s: Address| c.rules(env).counts(c.book.submissions@, asset, s);
    lemma_filter_members(c.sources.keys(), pred);
    let k = contributors(c, env, asset);
    assert forall|i: int| 0 <= i < k.len() implies asked(c, asset, #[trigger] k[i]) > 0 by {
        assert(k[i] == c.rules(env).eligible(c.book.submissions@, asset)[i]);
        assert(pred(k[i]));
    }
}

proof fn lemma_prices(c: PriceOracleContract, asset: Address, k: Seq<Address>)
    ensures
        prices_of(c.book.submissions@, asset, k).len() == k.len(),
        forall|i: int|
            0 <= i < k.len() ==> #[trigger] prices_of(c.book.submissions@, asset, k)[i] == asked(c, asset, k[i]),
        k.len() > 0 ==> prices_of(c.book.submissions@, asset, k).drop_last() == prices_of(
            c.book.submissions@,
            asset,
            k.drop_last(),
        ),
{
    if k.len() > 0 {
        assert(prices_of(c.book.submissions@, asset, k).drop_last() =~= prices_of(
            c.book.submissions@,
            asset,
            k.drop_last(),
        ));
    }
}

proof fn lemma_reputations(c: PriceOracleContract, asset: Address, k: Seq<Address>, w: Seq<u32>, p: i128)
    requires
        k.len() <= w.len(),
        forall|i: int| 0 <= i < k.len() ==> #[trigger] w[i] == reputation(c, k[i]),
    ensures
        weight_up_to(prices_of(c.book.submissions@, asset, k), w, p) == reputation_up_to(
            c,
            asset,
            k,
            p as int,
        ),
        total_weight(prices_of(c.book.submissions@, asset, k), w) == joint_reputation(c, k),
    decreases k.len(),
{
    lemma_prices(c, asset, k);
    if k.len() > 0 {
        assert forall|i: int| 0 <= i < k.drop_last().len() implies #[trigger] w[i] == reputation(
            c,
            k.drop_last()[i],
        ) by {
            assert(w[i] == reputation(c, k[i]));
        }
        lemma_reputations(c, asset, k.drop_last(), w, p);
        assert(w[k.len() - 1] == reputation(c, k[k.len() - 1]));
    }
}

proof fn lemma_reputation_bounds(c: PriceOracleContract, asset: Address, k: Seq<Address>, p: int, q: int)
    requires
        p <= q,
    ensures
        0 <= reputation_up_to(c, asset, k, p) <= reputation_up_to(c, asset, k, q) <= joint_reputation(c, k),
    decreases k.len(),
{
    if k.len() > 0 {
        lemma_reputation_bounds(c, asset, k.drop_last(), p, q);
    }
}

/// The share of one member in the joint reputation: it is in what lies up to its price, and not in
/// what lies below it.
proof fn lemma_own_reputation(c: PriceOracleContract, asset: Address, k: Seq<Address>, i: int, p: int)
    requires
        0 <= i < k.len(),
    ensures
        asked(c, asset, k[i]) <= p ==> reputation_up_to(c, asset, k, p) >= reputation(c, k[i]),
        asked(c, asset, k[i]) > p ==> reputation_up_to(c, asset, k, p) <= joint_reputation(c, k)
            - reputation(c, k[i]),
    decreases k.len(),
{
    let d = k.drop_last();
    lemma_reputation_bounds(c, asset, d, p, p);
    if i < d.len() {
        assert(d[i] == k[i]);
        lemma_own_reputation(c, asset, d, i, p);
    }
}

proof fn lemma_no_reputation_between(
    c: PriceOracleContract,
    asset: Address,
    k: Seq<Address>,
    q: int,
    n: int,
) -> (best: Option<int>)
    requires
        0 <= n <= k.len(),
    ensures
        best matches Some(m) ==> 0 <= m < n && asked(c, asset, k[m]) <= q,
        best matches Some(m) ==> forall|i: int|
            0 <= i < n && asked(c, asset, #[trigger] k[i]) <= q ==> asked(c, asset, k[i]) <= asked(
                c,
                asset,
                k[m],
            ),
        best is None ==> forall|i: int| 0 <= i < n ==> asked(c, asset, #[trigger] k[i]) > q,
    decreases n,
{
    if n == 0 {
        None
    } else {
        let before = lemma_no_reputation_between(c, asset, k, q, n - 1);
        if asked(c, asset, k[n - 1]) > q {
            before
        } else {
            match before {
                Some(m) => if asked(c, asset, k[m]) >= asked(c, asset, k[n - 1]) {
                    Some(m)
                } else {
                    Some(n - 1)
                },
                None => Some(n - 1),
            }
        }
    }
}

proof fn lemma_same_reputation(c: PriceOracleContract, asset: Address, k: Seq<Address>, p: int, q: int)
    requires
        p <= q,
        forall|i: int| 0 <= i < k.len() ==> !(p < asked(c, asset, #[trigger] k[i]) <= q),
    ensures
        reputation_up_to(c, asset, k, p) == reputation_up_to(c, asset, k, q),
    decreases k.len(),
{
    if k.len() > 0 {
        let d = k.drop_last();
        assert forall|i: int| 0 <= i < d.len() implies !(p < asked(c, asset, #[trigger] d[i]) <= q) by {
            assert(d[i] == k[i]);
        }
        lemma_same_reputation(c, asset, d, p, q);
        assert(k[k.len() - 1] == k.last());
    }
}

/// By the weighted median, the aggregate is the price of a contributor up to which at least half of
/// the joint reputation lies, and below which less than half does. Each contributor carries the
/// reputation recorded for it, so that one whose reputation exceeds that of all the others together
/// decides.
pub proof fn reputation_decides_the_weighted_median(c: PriceOracleContract, env: Env, asset: Address)
    requires
        c.settings.aggregation_method == AggregationMethod::WeightedMedian,
        c.rules(env).quorum(c.book.submissions@, asset),
        !c.pools.weights@.contains_key(asset),
    ensures
        ({
            let k = contributors(c, env, asset);
            let p = aggregate_price(c, env, asset);
            &&& exists|i: int| 0 <= i < k.len() && asked(c, asset, #[trigger] k[i]) == p
            &&& 2 * reputation_up_to(c, asset, k, p as int) >= joint_reputation(c, k)
            &&& forall|q: int|
                q < p && joint_reputation(c, k) > 0 ==> 2 * #[trigger] reputation_up_to(c, asset, k, q)
                    < joint_reputation(c, k)
            &&& joint_reputation(c, k) == 0 ==> forall|i: int|
                0 <= i < k.len() ==> asked(c, asset, #[trigger] k[i]) >= p
            &&& forall|i: int|
                0 <= i < k.len() && 2 * reputation(c, #[trigger] k[i]) > joint_reputation(c, k) ==> p == asked(
                    c,
                    asset,
                    k[i],
                )
        }),
{
    let k = contributors(c, env, asset);
    let subs = c.book.submissions@;
    let s = prices_of(subs, asset, k);
    let w = weights_of(c.weights@, k);
    lemma_prices(c, asset, k);
    a_weighted_median_exists(s, w);
    let p = weighted_median_of(s, w);
    assert(aggregate_price(c, env, asset) == p);
    lemma_reputations(c, asset, k, w, p);
    let z = choose|z: int| 0 <= z < s.len() && s[z] == p;
    assert(asked(c, asset, k[z]) == p);
    let total = joint_reputation(c, k);
    assert forall|i: int| 0 <= i < k.len() && 2 * reputation_up_to(
        c,
        asset,
        k,
        asked(c, asset, #[trigger] k[i]) as int,
    ) >= total implies p <= asked(c, asset, k[i]) by {
        assert(s[i] == asked(c, asset, k[i]));
        lemma_reputations(c, asset, k, w, s[i]);
    }
    assert forall|q: int| q < p && total > 0 implies 2 * #[trigger] reputation_up_to(c, asset, k, q) < total by {
        match lemma_no_reputation_between(c, asset, k, q, k.len() as int) {
            Some(m) => {
                lemma_same_reputation(c, asset, k, asked(c, asset, k[m]) as int, q);
                if 2 * reputation_up_to(c, asset, k, asked(c, asset, k[m]) as int) >= total {
                    assert(p <= asked(c, asset, k[m]));
                }
            },
            None => {
                lemma_none_up_to(c, asset, k, q);
            },
        }
    }
    if total == 0 {
        assert forall|i: int| 0 <= i < k.len() implies asked(c, asset, #[trigger] k[i]) >= p by {
            lemma_reputation_bounds(c, asset, k, asked(c, asset, k[i]) as int, asked(c, asset, k[i]) as int);
        }
    }
    assert forall|i: int| 0 <= i < k.len() && 2 * reputation(c, #[trigger] k[i]) > total implies p == asked(
        c,
        asset,
        k[i],
    ) by {
        let q = asked(c, asset, k[i]);
        lemma_own_reputation(c, asset, k, i, q as int);
        lemma_own_reputation(c, asset, k, i, p as int);
    }
}

proof fn lemma_none_up_to(c: PriceOracleContract, asset: Address, k: Seq<Address>, q: int)
    requires
        forall|i: int| 0 <= i < k.len() ==> asked(c, asset, #[trigger] k[i]) > q,
    ensures
        reputation_up_to(c, asset, k, q) == 0,
    decreases k.len(),
{
    if k.len() > 0 {
        let d = k.drop_last();
        assert forall|i: int| 0 <= i < d.len() implies asked(c, asset, #[trigger] d[i]) > q by {
            assert(d[i] == k[i]);
        }
        lemma_none_up_to(c, asset, d, q);
        assert(k[k.len() - 1] == k.last());
    }
}

proof fn lemma_counts(c: PriceOracleContract, asset: Address, k: Seq<Address>, p: i128)
    requires
        i128::MIN < p < i128::MAX,
    ensures
        count_within(prices_of(c.book.submissions@, asset, k), i128::MIN, (p - 1) as i128) == asking_less(
            c,
            asset,
            k,
            p as int,
        ),
        count_within(prices_of(c.book.submissions@, asset, k), (p + 1) as i128, i128::MAX) == asking_more(
            c,
            asset,
            k,
            p as int,
        ),
    decreases k.len(),
{
    lemma_prices(c, asset, k);
    if k.len() > 0 {
        lemma_counts(c, asset, k.drop_last(), p);
    }
}

proof fn lemma_none_more(c: PriceOracleContract, asset: Address, k: Seq<Address>)
    ensures
        asking_more(c, asset, k, i128::MAX as int) == 0,
    decreases k.len(),
{
    if k.len() > 0 {
        lemma_none_more(c, asset, k.drop_last());
    }
}

proof fn lemma_less_of_max(c: PriceOracleContract, asset: Address, k: Seq<Address>)
    ensures
        count_within(prices_of(c.book.submissions@, asset, k), i128::MIN, (i128::MAX - 1) as i128)
            == asking_less(c, asset, k, i128::MAX as int),
    decreases k.len(),
{
    lemma_prices(c, asset, k);
    if k.len() > 0 {
        lemma_less_of_max(c, asset, k.drop_last());
    }
}

/// At the place `m` of the prices in order, no more than `m` are smaller and no more than those
/// behind it are larger.
proof fn lemma_rank(c: PriceOracleContract, asset: Address, k: Seq<Address>, m: int)
    requires
        0 <= m < k.len(),
        forall|i: int| 0 <= i < k.len() ==> asked(c, asset, #[trigger] k[i]) > 0,
    ensures
        ({
            let t = ascending(prices_of(c.book.submissions@, asset, k));
            &&& t.len() == k.len()
            &&& t[m] > 0
            &&& asking_less(c, asset, k, t[m] as int) <= m
            &&& asking_more(c, asset, k, t[m] as int) <= k.len() - 1 - m
        }),
{
    let s = prices_of(c.book.submissions@, asset, k);
    let t = ascending(s);
    let n = k.len() as int;
    lemma_prices(c, asset, k);
    ascending_orders_the_prices(s);
    assert(t.contains(t[m]));
    let z = choose|z: int| 0 <= z < s.len() && s[z] == t[m];
    assert(s[z] == asked(c, asset, k[z]));
    let p = t[m];
    assert(t.take(n) =~= t);
    lemma_count_ascending(s, i128::MIN, (p - 1) as i128);
    lemma_count_below(t, i128::MIN, (p - 1) as i128, m, n);
    if p < i128::MAX {
        lemma_counts(c, asset, k, p);
        lemma_count_ascending(s, (p + 1) as i128, i128::MAX);
        lemma_count_above(t, (p + 1) as i128, i128::MAX, m, n);
    } else {
        lemma_none_more(c, asset, k);
        lemma_less_of_max(c, asset, k);
    }
}

/// By the median, the aggregate is the middle between two of the prices, rounded down: fewer than
/// half of the contributors ask less than the lower and at most half ask more, at most half ask less
/// than the upper and fewer than half ask more.
pub proof fn the_median_is_in_the_middle(c: PriceOracleContract, env: Env, asset: Address) -> (r: (i128, i128))
    requires
        c.settings.aggregation_method == AggregationMethod::Median,
        c.rules(env).quorum(c.book.submissions@, asset),
        !c.pools.weights@.contains_key(asset),
    ensures
        ({
            let k = contributors(c, env, asset);
            let p = aggregate_price(c, env, asset);
            let n = k.len() as int;
            let (lo, hi) = r;
            &&& lo <= hi
            &&& 2 * p <= lo + hi < 2 * p + 2
            &&& 2 * asking_less(c, asset, k, lo as int) < n
            &&& 2 * asking_more(c, asset, k, lo as int) <= n
            &&& 2 * asking_less(c, asset, k, hi as int) <= n
            &&& 2 * asking_more(c, asset, k, hi as int) < n
        }),
{
    let k = contributors(c, env, asset);
    let n = k.len() as int;
    let s = prices_of(c.book.submissions@, asset, k);
    let t = ascending(s);
    lemma_prices(c, asset, k);
    lemma_contributors_positive(c, env, asset);
    ascending_orders_the_prices(s);
    lemma_rank(c, asset, k, (n - 1) / 2);
    lemma_rank(c, asset, k, n / 2);
    let lo = t[(n - 1) / 2];
    let hi = t[n / 2];
    assert(lo <= hi);
    assert(aggregate_price(c, env, asset) == median_of(s) as i128);
    assert(0 < median_of(s) <= hi);
    (lo, hi)
}

/// By the mean, the aggregate is what the contributors ask all together, divided by their number
/// and rounded down.
pub proof fn the_mean_divides_the_total(c: PriceOracleContract, env: Env, asset: Address)
    requires
        c.settings.aggregation_method == AggregationMethod::Mean,
        c.rules(env).quorum(c.book.submissions@, asset),
        !c.pools.weights@.contains_key(asset),
    ensures
        ({
            let k = contributors(c, env, asset);
            let p = aggregate_price(c, env, asset);
            k.len() * p <= asked_in_all(c, asset, k) < k.len() * (p + 1)
        }),
{
    let k = contributors(c, env, asset);
    let s = prices_of(c.book.submissions@, asset, k);
    lemma_prices(c, asset, k);
    lemma_total(c, asset, k);
    lemma_contributors_positive(c, env, asset);
    assert forall|i: int| 0 <= i < s.len() implies 0 <= #[trigger] s[i] <= i128::MAX by {
        assert(s[i] == asked(c, asset, k[i]));
    }
    lemma_mean(s);
    assert(aggregate_price(c, env, asset) == mean_of(s) as i128);
}

proof fn lemma_total(c: PriceOracleContract, asset: Address, k: Seq<Address>)
    ensures
        sum(prices_of(c.book.submissions@, asset, k)) == asked_in_all(c, asset, k),
    decreases k.len(),
{
    lemma_prices(c, asset, k);
    if k.len() > 0 {
        lemma_total(c, asset, k.drop_last());
    }
}

proof fn lemma_sum_bound(s: Seq<i128>)
    requires
        forall|i: int| 0 <= i < s.len() ==> 0 <= #[trigger] s[i],
    ensures
        0 <= sum(s) <= s.len() * i128::MAX,
    decreases s.len(),
{
    if s.len() > 0 {
        let d = s.drop_last();
        assert forall|i: int| 0 <= i < d.len() implies 0 <= #[trigger] d[i] by {
            assert(d[i] == s[i]);
        }
        lemma_sum_bound(d);
        assert(0 <= s[s.len() - 1]);
        assert((s.len() - 1) * i128::MAX + i128::MAX == s.len() * i128::MAX) by (nonlinear_arith);
    }
}

pub(crate) proof fn lemma_mean(s: Seq<i128>)
    requires
        s.len() > 0,
        forall|i: int| 0 <= i < s.len() ==> 0 <= #[trigger] s[i],
    ensures
        0 <= mean_of(s) <= i128::MAX,
        s.len() * mean_of(s) <= sum(s) < s.len() * (mean_of(s) + 1),
{
    lemma_sum_bound(s);
    let n = s.len() as int;
    let total = sum(s);
    let m = mean_of(s);
    vstd::arithmetic::div_mod::lemma_fundamental_div_mod(total, n);
    assert(n * m <= total < n * (m + 1)) by (nonlinear_arith)
        requires
            total == n * m + total % n,
            0 <= total % n < n,
    ;
    assert(0 <= m <= i128::MAX) by (nonlinear_arith)
        requires
            n * m <= total < n * (m + 1),
            0 <= total <= n * i128::MAX,
            n > 0,
    ;
}

/// The sum of numbers.
pub open spec fn total_of(s: Seq<i128>) -> int {
    s.fold_left(0int, |acc: int, x: i128| acc + x)
}

pub(crate) proof fn lemma_total_of(s: Seq<i128>)
    ensures
        total_of(s) == sum(s),
    decreases s.len(),
{
    if s.len() > 0 {
        lemma_total_of(s.drop_last());
    }
}

/// What the contributors ask, in their order.
pub open spec fn asked_prices(c: PriceOracleContract, env: Env, asset: Address) -> Seq<i128> {
    Seq::new(
        contributors(c, env, asset).len(),
        |i: int| asked(c, asset, contributors(c, env, asset)[i]),
    )
}

/// By the trimmed mean, however the prices are put in ascending order, the aggregate is what those
/// between the first and the last tenth are all together, divided by their number and rounded
/// down.
pub proof fn the_trimmed_mean_leaves_out_both_tenths(
    c: PriceOracleContract,
    env: Env,
    asset: Address,
    ordered: Seq<i128>,
)
    requires
        c.settings.aggregation_method == AggregationMethod::TrimmedMean,
        c.rules(env).quorum(c.book.submissions@, asset),
        !c.pools.weights@.contains_key(asset),
        ordered.to_multiset() == asked_prices(c, env, asset).to_multiset(),
        forall|i: int, j: int| 0 <= i <= j < ordered.len() ==> ordered[i] <= ordered[j],
    ensures
        ({
            let p = aggregate_price(c, env, asset);
            let n = ordered.len() as int;
            let cut = n / 10;
            let kept = ordered.subrange(cut, n - cut);
            &&& n == contributors(c, env, asset).len()
            &&& (n - 2 * cut) * p <= total_of(kept) < (n - 2 * cut) * (p + 1)
        }),
{
    let k = contributors(c, env, asset);
    let s = prices_of(c.book.submissions@, asset, k);
    lemma_prices(c, asset, k);
    assert(s =~= asked_prices(c, env, asset));
    ascending_orders_the_prices(s);
    let t = ascending(s);
    let leq = |x: i128, y: i128| x <= y;
    assert(vstd::relations::sorted_by(t, leq));
    assert(vstd::relations::sorted_by(ordered, leq));
    assert(vstd::relations::total_ordering(leq));
    vstd::seq_lib::lemma_sorted_unique(t, ordered, leq);
    let n = s.len() as int;
    let kept = t.subrange(n / 10, n - n / 10);
    lemma_contributors_positive(c, env, asset);
    assert forall|i: int| 0 <= i < kept.len() implies 0 <= #[trigger] kept[i] by {
        assert(kept[i] == t[i + n / 10]);
        assert(t.contains(t[i + n / 10]));
        let z = choose|z: int| 0 <= z < s.len() && s[z] == kept[i];
        assert(s[z] == asked(c, asset, k[z]));
    }
    lemma_mean(kept);
    lemma_total_of(kept);
    assert(aggregate_price(c, env, asset) == trimmed_mean_of(s) as i128);
}

/// An aggregate is of the latest time that a contributor has observed, tells how many contributed,
/// and is of the present ledger.
pub proof fn an_aggregate_tells_its_time_and_its_sources(c: PriceOracleContract, env: Env, asset: Address)
    requires
        c.rules(env).quorum(c.book.submissions@, asset),
        contributors(c, env, asset).len() <= u32::MAX,
    ensures
        ({
            let k = contributors(c, env, asset);
            let a = c.rules(env).agreed(c.book.submissions@, asset);
            &&& a.num_sources == k.len()
            &&& a.ledger == env.ledger
            &&& forall|i: int|
                0 <= i < k.len() ==> c.book.submissions@[(asset, #[trigger] k[i])].timestamp <= a.timestamp
            &&& exists|i: int|
                0 <= i < k.len() && c.book.submissions@[(asset, #[trigger] k[i])].timestamp == a.timestamp
        }),
{
    lemma_latest(c.book.submissions@, asset, contributors(c, env, asset));
}

proof fn lemma_latest(subs: Map<(Address, Address), PriceEntry>, asset: Address, k: Seq<Address>)
    ensures
        forall|i: int|
            0 <= i < k.len() ==> subs[(asset, #[trigger] k[i])].timestamp <= latest_timestamp(subs, asset, k),
        k.len() > 0 ==> exists|i: int|
            0 <= i < k.len() && subs[(asset, #[trigger] k[i])].timestamp == latest_timestamp(subs, asset, k),
    decreases k.len(),
{
    if k.len() > 0 {
        let d = k.drop_last();
        lemma_latest(subs, asset, d);
        let now = latest_timestamp(subs, asset, k);
        assert forall|i: int| 0 <= i < k.len() implies subs[(asset, #[trigger] k[i])].timestamp <= now by {
            if i < d.len() {
                assert(d[i] == k[i]);
            }
        }
        if subs[(asset, k.last())].timestamp == now {
            assert(subs[(asset, k[k.len() - 1])].timestamp == now);
        } else {
            let i = choose|i: int|
                0 <= i < d.len() && subs[(asset, #[trigger] d[i])].timestamp == latest_timestamp(subs, asset, d);
            assert(subs[(asset, k[i])].timestamp == now);
        }
    }
}

/// The methods are chosen by the numbers from zero to three: the median, the mean, the trimmed mean
/// and the weighted median.
pub proof fn a_number_chooses_one_method(m: AggregationMethod)
    ensures
        m.number() == 0 <==> m is Median,
        m.number() == 1 <==> m is Mean,
        m.number() == 2 <==> m is TrimmedMean,
        m.number() == 3 <==> m is WeightedMedian,
        m.number() <= 3,
{
}

} // verus!
