//! What questions about prices are answered, told of what is recorded and reported.

use crate::aggregation::{capped_deviation, deviation_of, mean_of};
use crate::contract::PriceOracleContract;
use crate::env::Env;
use crate::history::{bucket_end, bucket_start, entry_at, lemma_first_from, page};
use crate::history_log::{
    before_ledger, in_ledger_order, in_range, lemma_before_ledger, lemma_thinned_part, newest, prices_positive,
    thinned, thinned_part, with_entry,
};
use crate::price_book::history_of;
use crate::prices::last_observed;
use crate::pricing_laws::{lemma_filter_members, lemma_mean, lemma_total_of, total_of};
use crate::twap::{a_geometric_mean_exists, averaged, price_in, prices_held, product, TwapMethod};
use crate::types::{Address, Asset, PriceHistoryEntry};
use vstd::arithmetic::power::pow;
use vstd::prelude::*;

verus! {

/// What the books hold of `asset` is its history.
pub proof fn a_history_is_what_was_recorded(c: PriceOracleContract, asset: Address)
    ensures
        c.book.histories@.contains_key(asset) ==> c.history(asset) == c.book.histories@[asset]@,
        !c.book.histories@.contains_key(asset) ==> c.history(asset).len() == 0,
        history_of(c.price_state().histories, asset) == c.history(asset),
{
}

/// What was recorded for a ledger is found there, whether estimates are allowed or not.
pub proof fn a_record_is_found_at_its_ledger(s: Seq<PriceHistoryEntry>, i: int, interpolate: bool)
    requires
        in_ledger_order(s),
        0 <= i < s.len(),
    ensures
        entry_at(s, s[i].ledger, interpolate) == Some(s[i]),
{
    let l = s[i].ledger;
    lemma_first_from(s, l);
    let k = crate::history_log::first_from(s, l);
    if k < i {
        assert(s[k].ledger < s[i].ledger);
    }
    if k > i {
        assert(s[i].ledger < l);
    }
}

/// Whether `y` lies on the line from `a` to `b`, `num` of `den` steps along it, rounded towards
/// `a`.
pub open spec fn on_the_line(a: int, b: int, num: int, den: int, y: int) -> bool {
    if a <= b {
        a <= y && (y - a) * den <= (b - a) * num && (b - a) * num < (y - a + 1) * den
    } else {
        y <= a && (a - y) * den <= (a - b) * num && (a - b) * num < (a - y + 1) * den
    }
}

proof fn lemma_on_the_line(a: int, b: int, num: int, den: int)
    requires
        0 <= num <= den,
        0 < den,
    ensures
        on_the_line(a, b, num, den, crate::history::between(a, b, num, den)),
{
    let d = if a <= b {
        b - a
    } else {
        a - b
    };
    let part = d * num / den;
    assert(0 <= d * num) by (nonlinear_arith)
        requires
            0 <= d,
            0 <= num,
    ;
    vstd::arithmetic::div_mod::lemma_fundamental_div_mod(d * num, den);
    vstd::arithmetic::div_mod::lemma_div_pos_is_pos(d * num, den);
    assert(part * den <= d * num < (part + 1) * den) by (nonlinear_arith)
        requires
            d * num == den * part + (d * num) % den,
            0 <= (d * num) % den < den,
    ;
}

/// Between two records that follow on each other nothing is recorded. Where estimates are allowed,
/// one is given, marked as such: its price and its time lie on the lines from the earlier record to
/// the later.
pub proof fn an_estimate_lies_on_the_line(s: Seq<PriceHistoryEntry>, i: int, ledger: u32)
    requires
        in_ledger_order(s),
        prices_positive(s),
        0 <= i < s.len() - 1,
        s[i].ledger < ledger < s[i + 1].ledger,
    ensures
        entry_at(s, ledger, false) is None,
        entry_at(s, ledger, true) matches Some(e) && {
            let den = s[i + 1].ledger - s[i].ledger;
            let num = ledger - s[i].ledger;
            &&& e.ledger == ledger
            &&& e.is_interpolated
            &&& e.price > 0
            &&& on_the_line(s[i].price as int, s[i + 1].price as int, num, den, e.price as int)
            &&& on_the_line(s[i].timestamp as int, s[i + 1].timestamp as int, num, den, e.timestamp as int)
        },
{
    lemma_first_from(s, ledger);
    let k = crate::history_log::first_from(s, ledger);
    if k <= i {
        assert(s[i].ledger >= ledger);
    }
    if k > i + 1 {
        assert(s[i + 1].ledger < ledger);
    }
    let (a, b) = (s[i], s[i + 1]);
    let den = b.ledger - a.ledger;
    let num = ledger - a.ledger;
    lemma_on_the_line(a.price as int, b.price as int, num, den);
    lemma_on_the_line(a.timestamp as int, b.timestamp as int, num, den);
    assert(a.price > 0 && b.price > 0);
    lemma_line_bounds(a.price as int, b.price as int, num, den, crate::history::between(a.price as int, b.price as int, num, den));
    lemma_line_bounds(a.timestamp as int, b.timestamp as int, num, den, crate::history::between(a.timestamp as int, b.timestamp as int, num, den));
}

proof fn lemma_line_bounds(a: int, b: int, num: int, den: int, y: int)
    requires
        0 <= num <= den,
        0 < den,
        on_the_line(a, b, num, den, y),
    ensures
        a <= b ==> a <= y <= b,
        b <= a ==> b <= y <= a,
{
    if a <= b {
        assert(y - a <= b - a) by (nonlinear_arith)
            requires
                (y - a) * den <= (b - a) * num,
                0 <= b - a,
                0 <= num <= den,
                0 < den,
        ;
    } else {
        assert(a - y <= a - b) by (nonlinear_arith)
            requires
                (a - y) * den <= (a - b) * num,
                0 <= a - b,
                0 <= num <= den,
                0 < den,
        ;
    }
}

/// An estimate moves steadily from the earlier record to the later: a later ledger is estimated no
/// farther from the later record than an earlier one.
pub proof fn estimates_move_one_way(s: Seq<PriceHistoryEntry>, i: int, ledger: u32, later: u32)
    requires
        in_ledger_order(s),
        prices_positive(s),
        0 <= i < s.len() - 1,
        s[i].ledger < ledger <= later < s[i + 1].ledger,
    ensures
        s[i].price <= s[i + 1].price ==> entry_at(s, ledger, true).unwrap().price <= entry_at(
            s,
            later,
            true,
        ).unwrap().price,
        s[i].price >= s[i + 1].price ==> entry_at(s, ledger, true).unwrap().price >= entry_at(
            s,
            later,
            true,
        ).unwrap().price,
{
    an_estimate_lies_on_the_line(s, i, ledger);
    an_estimate_lies_on_the_line(s, i, later);
    let x = entry_at(s, ledger, true).unwrap().price as int;
    let y = entry_at(s, later, true).unwrap().price as int;
    let (a, b) = (s[i].price as int, s[i + 1].price as int);
    let den = s[i + 1].ledger - s[i].ledger;
    let (n, m) = (ledger - s[i].ledger, later - s[i].ledger);
    if a <= b {
        assert(x <= y) by (nonlinear_arith)
            requires
                (x - a) * den <= (b - a) * n,
                (b - a) * m < (y - a + 1) * den,
                0 <= b - a,
                n <= m,
                0 < den,
        ;
    }
    if b < a {
        assert(y <= x) by (nonlinear_arith)
            requires
                (a - x) * den <= (a - b) * n,
                (a - b) * m < (a - y + 1) * den,
                0 <= a - b,
                n <= m,
                0 < den,
        ;
    }
    if a == b {
        assert(x == a && y == a) by (nonlinear_arith)
            requires
                a <= x,
                a <= y,
                (x - a) * den <= (b - a) * n,
                (y - a) * den <= (b - a) * m,
                a == b,
                0 < den,
        ;
    }
}

/// Nothing is found before the first or after the last record.
pub proof fn nothing_is_estimated_beyond_the_records(s: Seq<PriceHistoryEntry>, ledger: u32, interpolate: bool)
    requires
        in_ledger_order(s),
        s.len() == 0 || ledger < s[0].ledger || ledger > s.last().ledger,
    ensures
        entry_at(s, ledger, interpolate) is None,
{
    lemma_first_from(s, ledger);
    let k = crate::history_log::first_from(s, ledger);
    if s.len() > 0 {
        if ledger < s[0].ledger {
            if k > 0 {
                assert(s[0].ledger < ledger);
            }
        } else if k < s.len() {
            assert(s[k].ledger >= ledger);
            if k < s.len() - 1 {
                assert(s[k].ledger < s[s.len() - 1].ledger);
            }
        }
    }
}

/// A range holds exactly the records whose ledgers lie in it, in the order of their ledgers.
pub proof fn a_range_holds_what_lies_in_it(s: Seq<PriceHistoryEntry>, from: u32, to: u32)
    requires
        in_ledger_order(s),
    ensures
        in_ledger_order(in_range(s, from, to)),
        forall|i: int|
            0 <= i < in_range(s, from, to).len() ==> from <= (#[trigger] in_range(s, from, to)[i]).ledger
                && in_range(s, from, to)[i].ledger <= to && s.contains(in_range(s, from, to)[i]),
        forall|j: int|
            0 <= j < s.len() && from <= (#[trigger] s[j]).ledger && s[j].ledger <= to ==> in_range(
                s,
                from,
                to,
            ).contains(s[j]),
{
    lemma_filter_members(s, |e: PriceHistoryEntry| from <= e.ledger <= to);
    lemma_range_order(s, from, to);
}

proof fn lemma_range_order(s: Seq<PriceHistoryEntry>, from: u32, to: u32)
    requires
        in_ledger_order(s),
    ensures
        in_ledger_order(in_range(s, from, to)),
    decreases s.len(),
{
    reveal(Seq::filter);
    let pred = |e: PriceHistoryEntry| from <= e.ledger <= to;
    if s.len() > 0 {
        let d = s.drop_last();
        assert(in_ledger_order(d));
        lemma_range_order(d, from, to);
        lemma_filter_members(d, pred);
        let f = in_range(d, from, to);
        let r = in_range(s, from, to);
        assert forall|i: int, j: int| 0 <= i < j < r.len() implies (#[trigger] r[i]).ledger < (
        #[trigger] r[j]).ledger by {
            assert(r[i] == f[i]);
            if j < f.len() {
                assert(r[j] == f[j]);
            } else {
                let z = choose|z: int| 0 <= z < d.len() && d[z] == f[i];
                assert(s[z].ledger < s[s.len() - 1].ledger);
            }
        }
    }
}

/// A page starts with the first record at or after its cursor, goes on record by record, and ends
/// after `limit` of them or with the last record.
pub proof fn a_page_runs_from_its_cursor(s: Seq<PriceHistoryEntry>, cursor: u32, limit: u32) -> (start: int)
    requires
        in_ledger_order(s),
    ensures
        0 <= start <= s.len(),
        forall|i: int| 0 <= i < start ==> (#[trigger] s[i]).ledger < cursor,
        forall|i: int| start <= i < s.len() ==> (#[trigger] s[i]).ledger >= cursor,
        page(s, cursor, limit).len() <= limit,
        start + page(s, cursor, limit).len() <= s.len(),
        page(s, cursor, limit).len() < limit ==> start + page(s, cursor, limit).len() == s.len(),
        forall|i: int|
            0 <= i < page(s, cursor, limit).len() ==> #[trigger] page(s, cursor, limit)[i] == s[start + i],
{
    lemma_first_from(s, cursor);
    crate::history_log::first_from(s, cursor)
}

/// A week of ledgers is one of those that follow on each other from the first ledger on, each of
/// a hundred and twenty thousand nine hundred and sixty ledgers; the last one may be cut off.
pub proof fn a_bucket_is_a_week(ledger: u32)
    ensures
        bucket_start(ledger) <= ledger <= bucket_end(ledger),
        bucket_start(ledger) as int % 120_960 == 0,
        bucket_end(ledger) - bucket_start(ledger) == 120_959 || bucket_end(ledger) == u32::MAX
            && bucket_end(ledger) - bucket_start(ledger) < 120_959,
{
}

/// Asked for the price at a time, the standard interface gives the aggregate where it is of that very
/// time. Else it gives a record of the last thousand ledgers that is not later than the time asked
/// for, while all records after it are later; it has no answer only where every record of the last
/// thousand ledgers is later.
pub proof fn the_price_at_a_time_is_the_last_one_before_it(
    c: PriceOracleContract,
    env: Env,
    a: Address,
    timestamp: u64,
)
    requires
        c.book.assets@.contains_key(a),
        in_ledger_order(c.history(a)),
    ensures
        ({
            let h = c.history(a);
            let r = c.answer_at(env, Asset::Stellar(a), timestamp);
            if c.book.aggregates@.contains_key(a) && c.book.aggregates@[a].aggregate.timestamp == timestamp {
                r matches Some(d) && d.price == c.book.aggregates@[a].aggregate.price && d.timestamp
                    == timestamp
            } else {
                &&& r is None ==> forall|i: int|
                    0 <= i < h.len() && (#[trigger] h[i]).ledger + 1000 >= env.ledger ==> h[i].timestamp
                        > timestamp
                &&& r matches Some(d) ==> exists|i: int|
                    {
                        &&& 0 <= i < h.len()
                        &&& (#[trigger] h[i]).price == d.price
                        &&& h[i].timestamp == d.timestamp
                        &&& h[i].timestamp <= timestamp
                        &&& h[i].ledger + 1000 >= env.ledger
                        &&& forall|j: int| i < j < h.len() ==> (#[trigger] h[j]).timestamp > timestamp
                    }
            }
        }),
{
    let h = c.history(a);
    lemma_last_observed(h, crate::prices::lookback_floor(env.ledger), timestamp);
}

proof fn lemma_last_observed(h: Seq<PriceHistoryEntry>, floor: u32, timestamp: u64)
    requires
        in_ledger_order(h),
    ensures
        last_observed(h, floor, timestamp) is None ==> forall|i: int|
            0 <= i < h.len() && (#[trigger] h[i]).ledger >= floor ==> h[i].timestamp > timestamp,
        last_observed(h, floor, timestamp) matches Some(e) ==> exists|i: int|
            0 <= i < h.len() && #[trigger] h[i] == e && e.timestamp <= timestamp && e.ledger >= floor && (
            forall|j: int| i < j < h.len() ==> (#[trigger] h[j]).timestamp > timestamp),
    decreases h.len(),
{
    if h.len() == 0 {
    } else if h.last().ledger < floor {
        assert forall|i: int| 0 <= i < h.len() && (#[trigger] h[i]).ledger >= floor implies h[i].timestamp
            > timestamp by {
            if i < h.len() - 1 {
                assert(h[i].ledger < h[h.len() - 1].ledger);
            }
        }
    } else if h.last().timestamp <= timestamp {
        assert(h[h.len() - 1] == h.last());
    } else {
        let d = h.drop_last();
        assert(in_ledger_order(d));
        lemma_last_observed(d, floor, timestamp);
        if let Some(e) = last_observed(d, floor, timestamp) {
            let i = choose|i: int|
                0 <= i < d.len() && #[trigger] d[i] == e && e.timestamp <= timestamp && e.ledger >= floor && (
                forall|j: int| i < j < d.len() ==> (#[trigger] d[j]).timestamp > timestamp);
            assert(h[i] == e);
            assert forall|j: int| i < j < h.len() implies (#[trigger] h[j]).timestamp > timestamp by {
                if j < d.len() {
                    assert(d[j] == h[j]);
                }
            }
        } else {
            assert forall|i: int| 0 <= i < h.len() && (#[trigger] h[i]).ledger >= floor implies h[i].timestamp
                > timestamp by {
                if i < d.len() {
                    assert(d[i] == h[i]);
                }
            }
        }
    }
}

/// Nothing is answered for what is no registered token.
pub proof fn only_registered_tokens_have_prices(
    c: PriceOracleContract,
    env: Env,
    asset: Asset,
    timestamp: u64,
)
    requires
        asset matches Asset::Stellar(a) ==> !c.book.assets@.contains_key(a),
    ensures
        c.answer_at(env, asset, timestamp) is None,
        c.last_answer(env, asset) is None,
{
}

/// The standard interface lists the newest records of the last thousand ledgers, newest first, as
/// many as were asked for or as there are; where there is none, the aggregate stands in for them.
pub proof fn the_newest_prices_are_listed(c: PriceOracleContract, env: Env, a: Address, records: u32)
    requires
        in_ledger_order(c.history(a)),
        c.history(a).len() > 0,
        c.history(a).last().ledger + 1000 >= env.ledger,
    ensures
        ({
            let h = c.history(a);
            let l = c.listed_prices(env, a, records);
            &&& l.len() <= records
            &&& l.len() <= h.len()
            &&& forall|i: int|
                0 <= i < l.len() ==> (#[trigger] l[i]).price == h[h.len() - 1 - i].price && l[i].timestamp
                    == h[h.len() - 1 - i].timestamp && h[h.len() - 1 - i].ledger + 1000 >= env.ledger
            &&& l.len() < records && l.len() < h.len() ==> h[h.len() - 1 - l.len()].ledger + 1000
                < env.ledger
        }),
{
    let h = c.history(a);
    let floor = crate::prices::lookback_floor(env.ledger);
    lemma_first_from(h, floor);
    let k = crate::history_log::first_from(h, floor);
    if k == h.len() {
        assert(h[h.len() - 1].ledger < floor);
    }
    let l = c.listed_prices(env, a, records);
    assert forall|i: int| 0 <= i < l.len() implies (#[trigger] l[i]).price == h[h.len() - 1 - i].price
        && l[i].timestamp == h[h.len() - 1 - i].timestamp && h[h.len() - 1 - i].ledger + 1000
        >= env.ledger by {
        assert(h[h.len() - 1 - i].ledger >= floor);
    }
    if l.len() < records && l.len() < h.len() {
        assert(h[h.len() - 1 - l.len()].ledger < floor);
    }
}

/// Where the last thousand ledgers hold no record, the aggregate alone is listed, if there is one and
/// anything was asked for.
pub proof fn the_aggregate_stands_in_for_records(c: PriceOracleContract, env: Env, a: Address, records: u32)
    requires
        in_ledger_order(c.history(a)),
        c.history(a).len() == 0 || c.history(a).last().ledger + 1000 < env.ledger,
    ensures
        ({
            let l = c.listed_prices(env, a, records);
            if records > 0 && c.book.aggregates@.contains_key(a) {
                &&& l.len() == 1
                &&& l[0].price == c.book.aggregates@[a].aggregate.price
                &&& l[0].timestamp == c.book.aggregates@[a].aggregate.timestamp
            } else {
                l.len() == 0
            }
        }),
{
}

/// For how many seconds a price of `asset` is reported; zero for any time.
pub open spec fn seconds_reported(c: PriceOracleContract, asset: Address) -> int {
    if c.asset_resolution@.contains_key(asset) {
        c.asset_resolution@[asset] as int
    } else {
        c.config.resolution as int
    }
}

/// A query for the price of an asset that is not frozen answers its aggregate exactly where that is no
/// older than the caller accepts and than the resolution allows. Where it is older than the caller
/// accepts, that is announced.
pub proof fn an_answered_price_is_fresh(c: PriceOracleContract, env: Env, asset: Address, max_age: u64)
    requires
        !c.frozen@.contains_key(asset),
    ensures
        ({
            let known = c.book.aggregates@.contains_key(asset);
            let a = c.book.aggregates@[asset].aggregate;
            let fresh = max_age == 0 || a.timestamp + max_age >= env.timestamp;
            let allowed = seconds_reported(c, asset) == 0 || a.timestamp + seconds_reported(c, asset)
                >= env.timestamp;
            &&& c.answer(env, asset, max_age) is Some <==> known && fresh && allowed
            &&& c.answer(env, asset, max_age) matches Some(r) ==> r == a
            &&& c.too_old(env, asset, max_age) <==> known && !fresh
        }),
{
}

/// A frozen price is answered at any age, and no age of it is announced.
pub proof fn a_frozen_price_is_always_answered(c: PriceOracleContract, env: Env, asset: Address, max_age: u64)
    requires
        c.frozen@.contains_key(asset),
    ensures
        c.answer(env, asset, max_age) == Some(c.frozen@[asset].aggregate),
        !c.too_old(env, asset, max_age),
{
}

/// The last price is the aggregate of a registered token, as long as the resolution allows.
pub proof fn the_last_price_is_the_aggregate(c: PriceOracleContract, env: Env, a: Address)
    requires
        c.book.assets@.contains_key(a),
    ensures
        ({
            let v = c.book.aggregates@[a].aggregate;
            let allowed = seconds_reported(c, a) == 0 || v.timestamp + seconds_reported(c, a)
                >= env.timestamp;
            &&& c.last_answer(env, Asset::Stellar(a)) is Some <==> c.book.aggregates@.contains_key(a) && allowed
            &&& c.last_answer(env, Asset::Stellar(a)) matches Some(d) ==> d.price == v.price && d.timestamp
                == v.timestamp
        }),
{
}

/// A query is served as long as the ledger has seen fewer of them than are allowed.
pub proof fn queries_are_served_up_to_the_limit(c: PriceOracleContract, env: Env, asset: Address)
    ensures
        c.query_refusal(env, asset) is None <==> !c.entered && c.book.assets@.contains_key(asset) && (if c.queries.ledger
            == env.ledger {
            c.queries.count < c.config.query_rate_limit
        } else {
            0 < c.config.query_rate_limit
        }),
{
}

/// Whether a price lies less than `threshold` ten-thousandths of `reference` from it.
pub open spec fn close_to(price: i128, reference: i128, threshold: u32) -> bool {
    let apart = if price >= reference {
        price - reference
    } else {
        reference - price
    };
    apart * 10_000 < threshold * reference
}

pub(crate) proof fn lemma_close(price: i128, reference: i128, threshold: u32)
    requires
        reference > 0,
    ensures
        capped_deviation(price, reference) < threshold <==> close_to(price, reference, threshold),
{
    let apart = if price >= reference {
        price - reference
    } else {
        reference - price
    };
    let x = apart * 10_000;
    let r = reference as int;
    let d = deviation_of(price, reference);
    assert(d == x / r);
    vstd::arithmetic::div_mod::lemma_fundamental_div_mod(x, r);
    vstd::arithmetic::div_mod::lemma_div_pos_is_pos(x, r);
    if d < threshold {
        assert(x < threshold * r) by (nonlinear_arith)
            requires
                x == r * d + x % r,
                x % r < r,
                d + 1 <= threshold,
                r > 0,
        ;
    } else {
        assert(x >= threshold * r) by (nonlinear_arith)
            requires
                x == r * d + x % r,
                0 <= x % r,
                d >= threshold,
                r > 0,
        ;
    }
}

/// After a compaction every record but the first and the last is far enough from the one before it,
/// and each record that was dropped was close to the last one kept before it.
pub proof fn compaction_drops_what_is_close(s: Seq<PriceHistoryEntry>, threshold: u32)
    requires
        in_ledger_order(s),
        prices_positive(s),
    ensures
        ({
            let t = thinned(s, threshold);
            &&& forall|i: int| 0 < i < t.len() - 1 ==> !close_to((#[trigger] t[i]).price, t[i - 1].price, threshold)
            &&& forall|j: int| 0 <= j < s.len() && !t.contains(#[trigger] s[j]) ==> exists|i: int|
                0 <= i < t.len() - 1 && (#[trigger] t[i]).ledger < s[j].ledger && t[i + 1].ledger > s[j].ledger
                    && close_to(s[j].price, t[i].price, threshold)
        }),
{
    let t = thinned(s, threshold);
    let n = s.len() as int;
    if n <= 2 {
        assert forall|j: int| 0 <= j < s.len() implies t.contains(#[trigger] s[j]) by {
            assert(t[j] == s[j]);
        }
    } else {
        let part = thinned_part(s, threshold, n - 1);
        lemma_part_is_spaced(s, threshold, n - 1);
        lemma_thinned_part(s, threshold, n - 1);
        crate::history_log::thinning_keeps_the_ends(s, threshold);
        assert forall|i: int| 0 < i < t.len() - 1 implies !close_to((#[trigger] t[i]).price, t[i - 1].price, threshold) by {
            assert(t[i] == part[i]);
            assert(t[i - 1] == part[i - 1]);
        }
        assert forall|j: int| 0 <= j < s.len() && !t.contains(#[trigger] s[j]) implies exists|i: int|
            0 <= i < t.len() - 1 && (#[trigger] t[i]).ledger < s[j].ledger && t[i + 1].ledger > s[j].ledger
                && close_to(s[j].price, t[i].price, threshold) by {
            if j == n - 1 {
                assert(t[t.len() - 1] == s[j]);
            }
            if part.contains(s[j]) {
                let z = choose|z: int| 0 <= z < part.len() && part[z] == s[j];
                assert(t[z] == s[j]);
            }
            let i = lemma_dropped(s, threshold, n - 1, j);
            assert(t[i] == part[i]);
            if i + 1 < part.len() {
                assert(t[i + 1] == part[i + 1]);
            } else {
                assert(t[i + 1] == s[n - 1]);
                assert(s[j].ledger < s[n - 1].ledger);
            }
        }
    }
}

proof fn lemma_part_is_spaced(s: Seq<PriceHistoryEntry>, threshold: u32, n: int)
    requires
        in_ledger_order(s),
        prices_positive(s),
        0 <= n <= s.len(),
    ensures
        forall|i: int|
            0 < i < thinned_part(s, threshold, n).len() ==> !close_to(
                (#[trigger] thinned_part(s, threshold, n)[i]).price,
                thinned_part(s, threshold, n)[i - 1].price,
                threshold,
            ),
    decreases n,
{
    if n > 0 {
        lemma_part_is_spaced(s, threshold, n - 1);
        lemma_thinned_part(s, threshold, n - 1);
        let kept = thinned_part(s, threshold, n - 1);
        let r = thinned_part(s, threshold, n);
        assert forall|i: int| 0 < i < r.len() implies !close_to((#[trigger] r[i]).price, r[i - 1].price, threshold) by {
            assert(r[i - 1] == kept[i - 1]);
            if i < kept.len() {
                assert(r[i] == kept[i]);
            } else {
                assert(kept[i - 1].price > 0);
                lemma_close(s[n - 1].price, kept[i - 1].price, threshold);
            }
        }
    }
}

proof fn lemma_dropped(s: Seq<PriceHistoryEntry>, threshold: u32, n: int, j: int) -> (i: int)
    requires
        in_ledger_order(s),
        prices_positive(s),
        0 <= j < n <= s.len(),
        !thinned_part(s, threshold, n).contains(s[j]),
    ensures
        ({
            let t = thinned_part(s, threshold, n);
            &&& 0 <= i < t.len()
            &&& t[i].ledger < s[j].ledger
            &&& i + 1 < t.len() ==> t[i + 1].ledger > s[j].ledger
            &&& close_to(s[j].price, t[i].price, threshold)
        }),
    decreases n,
{
    let kept = thinned_part(s, threshold, n - 1);
    let r = thinned_part(s, threshold, n);
    lemma_thinned_part(s, threshold, n - 1);
    if j == n - 1 {
        if r != kept {
            assert(r[r.len() - 1] == s[j]);
        }
        let i = kept.len() - 1;
        assert(kept[i].price > 0);
        lemma_close(s[j].price, kept[i].price, threshold);
        assert(kept[i].ledger <= s[n - 2].ledger);
        assert(s[n - 2].ledger < s[n - 1].ledger);
        i
    } else {
        if kept.contains(s[j]) {
            let z = choose|z: int| 0 <= z < kept.len() && kept[z] == s[j];
            assert(r[z] == s[j]);
        }
        let i = lemma_dropped(s, threshold, n - 1, j);
        assert(r[i] == kept[i]);
        if i + 1 < kept.len() {
            assert(r[i + 1] == kept[i + 1]);
        } else if r.len() > kept.len() {
            assert(r[i + 1] == s[n - 1]);
            assert(s[j].ledger < s[n - 1].ledger);
        }
        i
    }
}

/// Where nothing is to be merged, a record is added to those of earlier ledgers, of which as many of
/// the newest stay as are allowed.
pub proof fn the_newest_records_stay(s: Seq<PriceHistoryEntry>, e: PriceHistoryEntry, limit: u32)
    requires
        in_ledger_order(s),
        s.len() > 0 ==> s.last().ledger < e.ledger,
        limit > 0,
    ensures
        ({
            let t = newest(with_entry(s, e, 0), limit);
            let all = s.push(e);
            &&& t.len() == if all.len() > limit {
                limit as nat
            } else {
                all.len()
            }
            &&& forall|i: int| 0 <= i < t.len() ==> #[trigger] t[i] == all[all.len() - t.len() + i]
        }),
{
    assert(before_ledger(s, e.ledger) == s);
}

/// A record replaces one of the same ledger and leaves those of earlier ledgers.
pub proof fn a_record_replaces_one_of_its_ledger(s: Seq<PriceHistoryEntry>, e: PriceHistoryEntry, k: int)
    requires
        in_ledger_order(s),
        0 <= k <= s.len(),
        forall|i: int| 0 <= i < k ==> (#[trigger] s[i]).ledger < e.ledger,
        forall|i: int| k <= i < s.len() ==> (#[trigger] s[i]).ledger >= e.ledger,
    ensures
        with_entry(s, e, 0) == s.take(k).push(e),
{
    lemma_before_ledger(s, e.ledger);
    let b = before_ledger(s, e.ledger);
    let n = b.len() as int;
    if n < k {
        assert(s[n].ledger < e.ledger);
    }
    if k < n {
        assert(s[k].ledger >= e.ledger);
    }
}

/// On writing, the record before the new one is dropped exactly where it is close to the one before
/// it and is not the first.
pub proof fn writing_merges_what_is_close(s: Seq<PriceHistoryEntry>, e: PriceHistoryEntry, threshold: u32)
    requires
        in_ledger_order(s),
        prices_positive(s),
        s.len() > 0 ==> s.last().ledger < e.ledger,
    ensures
        with_entry(s, e, threshold) == (if s.len() >= 2 && close_to(
            s[s.len() - 1].price,
            s[s.len() - 2].price,
            threshold,
        ) {
            s.take(s.len() - 1).push(e)
        } else {
            s.push(e)
        }),
{
    assert(before_ledger(s, e.ledger) == s);
    if s.len() >= 2 {
        assert(s[s.len() - 2].price > 0);
        lemma_close(s[s.len() - 1].price, s[s.len() - 2].price, threshold);
        assert(s.drop_last() =~= s.take(s.len() - 1));
    }
}

/// The price that holds in a ledger is that of the last record up to it.
pub proof fn a_price_holds_until_the_next(s: Seq<PriceHistoryEntry>, i: int, ledger: int)
    requires
        in_ledger_order(s),
        0 <= i < s.len(),
        s[i].ledger <= ledger,
        i + 1 < s.len() ==> ledger < s[i + 1].ledger,
    ensures
        price_in(s, ledger) == s[i].price,
    decreases s.len(),
{
    if i < s.len() - 1 {
        let d = s.drop_last();
        assert(s[i + 1].ledger <= s[s.len() - 1].ledger);
        assert(in_ledger_order(d));
        assert(d[i] == s[i]);
        if i + 1 < d.len() {
            assert(d[i + 1] == s[i + 1]);
        }
        a_price_holds_until_the_next(d, i, ledger);
    }
}

/// An average over time counts each ledger from the first record of the window up to the present one,
/// with the price that holds in it, and the window reaches back as many ledgers as were asked for, a
/// thousand at most.
pub proof fn an_average_counts_every_ledger(
    c: PriceOracleContract,
    env: Env,
    asset: Address,
    window: u32,
    held: Seq<i128>,
)
    requires
        in_ledger_order(c.history(asset)),
        prices_positive(c.history(asset)),
        held == prices_held(c.window(env, asset, window), env.ledger),
        c.window(env, asset, window).len() > 0,
    ensures
        ({
            let s = c.window(env, asset, window);
            let reach = if window < 1000 {
                window as int
            } else {
                1000
            };
            &&& in_ledger_order(s)
            &&& forall|i: int|
                0 <= i < s.len() ==> (#[trigger] s[i]).ledger + reach >= env.ledger && s[i].ledger <= env.ledger
                    && c.history(asset).contains(s[i])
            &&& forall|j: int|
                0 <= j < c.history(asset).len() && (#[trigger] c.history(asset)[j]).ledger + reach
                    >= env.ledger && c.history(asset)[j].ledger <= env.ledger ==> s.contains(
                    c.history(asset)[j],
                )
            &&& held.len() == env.ledger - s[0].ledger + 1
            &&& forall|i: int, k: int|
                0 <= i < s.len() && s[i].ledger - s[0].ledger <= k < held.len() && (i + 1 < s.len() ==> k
                    < s[i + 1].ledger - s[0].ledger) ==> #[trigger] held[k] == (#[trigger] s[i]).price
        }),
{
    let s = c.window(env, asset, window);
    let start = PriceOracleContract::window_start(env.ledger, window);
    a_range_holds_what_lies_in_it(c.history(asset), start, env.ledger);
    assert(s[0].ledger <= env.ledger);
    assert forall|i: int, k: int|
        0 <= i < s.len() && s[i].ledger - s[0].ledger <= k < held.len() && (i + 1 < s.len() ==> k
            < s[i + 1].ledger - s[0].ledger) implies #[trigger] held[k] == (#[trigger] s[i]).price by {
        if i > 0 {
            assert(s[0].ledger < s[i].ledger);
        }
        a_price_holds_until_the_next(s, i, s[0].ledger + k);
    }
}

/// The product of numbers.
pub open spec fn product_of_all(s: Seq<i128>) -> int {
    s.fold_left(1int, |acc: int, x: i128| acc * x)
}

proof fn lemma_product_of_all(s: Seq<i128>)
    ensures
        product_of_all(s) == product(s),
    decreases s.len(),
{
    if s.len() > 0 {
        lemma_product_of_all(s.drop_last());
    }
}

/// The arithmetic average times the number of prices comes up to their sum, and the geometric average
/// to the power of their number up to their product, each rounded down.
pub proof fn averages_are_what_they_are_called(s: Seq<i128>)
    requires
        s.len() > 0,
        forall|i: int| 0 <= i < s.len() ==> #[trigger] s[i] > 0,
    ensures
        s.len() * averaged(TwapMethod::Arithmetic, s) <= total_of(s) < s.len() * (averaged(
            TwapMethod::Arithmetic,
            s,
        ) + 1),
        0 <= averaged(TwapMethod::Geometric, s),
        pow(averaged(TwapMethod::Geometric, s), s.len()) <= product_of_all(s),
        product_of_all(s) < pow(averaged(TwapMethod::Geometric, s) + 1, s.len()),
{
    lemma_mean(s);
    lemma_total_of(s);
    lemma_product_of_all(s);
    a_geometric_mean_exists(s, 1, i128::MAX);
    assert(mean_of(s) == averaged(TwapMethod::Arithmetic, s));
}

/// An aggregation with enough sources replaces the aggregate of its asset and records the same price,
/// time, ledger and number of sources. It changes neither the submitted prices nor another asset.
pub proof fn what_is_reported_is_what_is_recorded(c: PriceOracleContract, env: Env, asset: Address)
    requires
        c.rules(env).quorum(c.book.submissions@, asset),
        c.config.max_history_length > 0,
        c.settings.max_history_per_asset > 0,
    ensures
        ({
            let s = c.price_state();
            let t = s.aggregated(c.rules(env), asset);
            let a = t.aggregates[asset].aggregate;
            let h = t.histories[asset];
            &&& t.aggregates.contains_key(asset)
            &&& a.price == crate::pricing_laws::aggregate_price(c, env, asset)
            &&& a.ledger == env.ledger
            &&& 0 < h.len() <= c.config.max_history_length
            &&& h.len() <= c.settings.max_history_per_asset
            &&& h.last().price == a.price
            &&& h.last().timestamp == a.timestamp
            &&& h.last().ledger == env.ledger
            &&& h.last().num_sources == a.num_sources
            &&& !h.last().is_interpolated
            &&& t.submissions == s.submissions
            &&& t.last_aggregation_ledger == env.ledger
            &&& forall|o: Address|
                o != asset ==> #[trigger] t.aggregates.contains_key(o) == s.aggregates.contains_key(o)
                    && t.aggregates[o] == s.aggregates[o] && t.histories[o] == s.histories[o]
        }),
{
}

} // verus!
