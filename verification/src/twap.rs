//! Prices averaged over time.

use crate::aggregation::{all_positive, all_within, mean, mean_of};
use crate::contract::PriceOracleContract;
use crate::env::Env;
use crate::history_log::{in_ledger_order, in_range, prices_positive, History};
use crate::prices::LOOKBACK_LEDGERS;
use crate::types::{Address, PriceData, PriceHistoryEntry};
use crate::wide::Wide;
use vstd::arithmetic::power::pow;
use vstd::prelude::*;

verus! {

/// How the prices of several ledgers become one.
#[derive(Clone, Copy, Debug, PartialEq, Eq, Structural)]
pub enum TwapMethod {
    Arithmetic,
    Geometric,
}

/// The price that holds in `ledger`: that of the last entry up to it.
pub open spec fn price_in(s: Seq<PriceHistoryEntry>, ledger: int) -> i128
    decreases s.len(),
{
    if s.len() <= 1 || s.last().ledger <= ledger {
        s.last().price
    } else {
        price_in(s.drop_last(), ledger)
    }
}

/// The prices that hold from the first ledger of `s` to `ledger`, one for each ledger.
pub open spec fn prices_held(s: Seq<PriceHistoryEntry>, ledger: u32) -> Seq<i128> {
    Seq::new((ledger + 1 - s[0].ledger) as nat, |i: int| price_in(s, s[0].ledger + i))
}

/// The product of the members of `s`.
pub open spec fn product(s: Seq<i128>) -> int
    decreases s.len(),
{
    if s.len() == 0 {
        1
    } else {
        product(s.drop_last()) * s.last()
    }
}

/// Whether `g` is the geometric mean of `s`, rounded down.
pub open spec fn is_geometric_mean(s: Seq<i128>, g: i128) -> bool {
    &&& g >= 0
    &&& pow(g as int, s.len()) <= product(s)
    &&& product(s) < pow(g + 1, s.len())
}

/// The geometric mean of `s`, rounded down.
pub open spec fn geometric_mean_of(s: Seq<i128>) -> i128 {
    choose|g: i128| is_geometric_mean(s, g)
}

/// What `method` makes of the prices `s`.
pub open spec fn averaged(method: TwapMethod, s: Seq<i128>) -> int {
    match method {
        TwapMethod::Arithmetic => mean_of(s),
        TwapMethod::Geometric => geometric_mean_of(s) as int,
    }
}

proof fn lemma_pow_ordered(a: int, b: int, n: nat)
    requires
        0 <= a <= b,
    ensures
        0 <= pow(a, n) <= pow(b, n),
    decreases n,
{
    reveal(pow);
    if n > 0 {
        lemma_pow_ordered(a, b, (n - 1) as nat);
        let x = pow(a, (n - 1) as nat);
        let y = pow(b, (n - 1) as nat);
        assert(0 <= a * x <= b * y) by (nonlinear_arith)
            requires
                0 <= a <= b,
                0 <= x <= y,
        ;
    }
}

/// Prices have at most one geometric mean.
pub proof fn geometric_mean_is_unique(s: Seq<i128>, g: i128)
    requires
        is_geometric_mean(s, g),
    ensures
        geometric_mean_of(s) == g,
{
    let h = geometric_mean_of(s);
    assert(is_geometric_mean(s, h));
    if g < h {
        lemma_pow_ordered(g + 1, h as int, s.len());
    }
    if h < g {
        lemma_pow_ordered(h + 1, g as int, s.len());
    }
}

proof fn lemma_product_within(s: Seq<i128>, lo: i128, hi: i128)
    requires
        0 <= lo,
        all_within(s, lo, hi),
    ensures
        pow(lo as int, s.len()) <= product(s) <= pow(hi as int, s.len()),
        0 <= pow(lo as int, s.len()),
    decreases s.len(),
{
    reveal(pow);
    if s.len() > 0 {
        let d = s.drop_last();
        assert forall|i: int| 0 <= i < d.len() implies lo <= #[trigger] d[i] <= hi by {
            assert(d[i] == s[i]);
        }
        lemma_product_within(d, lo, hi);
        assert(lo <= s[s.len() - 1] <= hi);
        let x = pow(lo as int, d.len());
        let y = pow(hi as int, d.len());
        let p = product(d);
        let e = s.last() as int;
        assert(0 <= lo * x <= p * e <= hi * y) by (nonlinear_arith)
            requires
                0 <= lo <= e <= hi,
                0 <= x <= p <= y,
        ;
    }
}

/// The largest number below `h` whose power is at most the product.
proof fn root_below(s: Seq<i128>, h: int) -> (g: int)
    requires
        s.len() > 0,
        0 <= h,
        product(s) > 0,
        product(s) < pow(h, s.len()),
    ensures
        0 <= g < h,
        pow(g, s.len()) <= product(s),
        product(s) < pow(g + 1, s.len()),
    decreases h,
{
    if h == 0 {
        reveal(pow);
        assert(0 * pow(0, (s.len() - 1) as nat) == 0) by (nonlinear_arith);
        0
    } else if pow(h - 1, s.len()) <= product(s) {
        h - 1
    } else {
        root_below(s, h - 1)
    }
}

/// Prices above zero have a geometric mean.
pub proof fn a_geometric_mean_exists(s: Seq<i128>, lo: i128, hi: i128)
    requires
        s.len() > 0,
        0 < lo,
        all_within(s, lo, hi),
    ensures
        is_geometric_mean(s, geometric_mean_of(s)),
{
    lemma_product_within(s, lo, hi);
    lemma_pow_ordered(1, lo as int, s.len());
    vstd::arithmetic::power::lemma1_pow(s.len());
    assert(lo <= s[0] <= hi);
    lemma_pow_strictly_ordered(hi as int, s.len());
    let g = root_below(s, hi + 1);
    assert(is_geometric_mean(s, g as i128));
}

/// An average over time is not below the lowest and not above the highest price of that time.
pub proof fn an_average_lies_between(method: TwapMethod, s: Seq<i128>, lo: i128, hi: i128)
    requires
        s.len() > 0,
        0 < lo,
        all_within(s, lo, hi),
    ensures
        lo <= averaged(method, s) <= hi,
{
    match method {
        TwapMethod::Arithmetic => {
            crate::aggregation::a_combined_price_lies_between(
                crate::aggregation::AggregationMethod::Mean,
                s,
                Seq::new(s.len(), |i: int| 1u32),
                lo,
                hi,
            );
        },
        TwapMethod::Geometric => {
            a_geometric_mean_exists(s, lo, hi);
            let g = geometric_mean_of(s);
            lemma_product_within(s, lo, hi);
            if g < lo {
                lemma_pow_ordered(g + 1, lo as int, s.len());
            }
            if g > hi {
                lemma_pow_ordered(hi + 1, g as int, s.len());
                lemma_pow_strictly_ordered(hi as int, s.len());
            }
        },
    }
}

proof fn lemma_pow_strictly_ordered(a: int, n: nat)
    requires
        0 <= a,
        n > 0,
    ensures
        pow(a, n) < pow(a + 1, n),
    decreases n,
{
    reveal(pow);
    let m = (n - 1) as nat;
    lemma_pow_ordered(a, a + 1, m);
    let x = pow(a, m);
    let y = pow(a + 1, m);
    if m > 0 {
        lemma_pow_strictly_ordered(a, m);
    }
    assert(a * x < (a + 1) * y) by (nonlinear_arith)
        requires
            0 <= a,
            0 <= x <= y,
            y > 0,
    ;
}

/// The product of the prices.
fn product_of(v: &Vec<i128>) -> (r: Wide)
    requires
        all_positive(v@),
    ensures
        r@ == product(v@),
        r@ > 0,
{
    let mut r = Wide::one();
    let mut i: usize = 0;
    assert(v@.take(0) =~= Seq::<i128>::empty());
    while i < v.len()
        invariant
            i <= v@.len(),
            all_positive(v@),
            r@ == product(v@.take(i as int)),
            r@ > 0,
        decreases v@.len() - i,
    {
        let x: i128 = v[i];
        let ghost before = r@;
        proof {
            assert(v@.take(i + 1).drop_last() =~= v@.take(i as int));
            assert(v@.take(i + 1).last() == x);
            assert(before * x > 0) by (nonlinear_arith)
                requires
                    before > 0,
                    x > 0,
            ;
        }
        r = r.times(x as u128);
        i += 1;
    }
    assert(v@.take(v@.len() as int) =~= v@);
    r
}

/// The geometric mean of the prices, rounded down.
pub fn geometric_mean(v: &Vec<i128>) -> (r: i128)
    requires
        v@.len() > 0,
        all_positive(v@),
    ensures
        is_geometric_mean(v@, r),
        r == geometric_mean_of(v@),
{
    let mut top: i128 = 0;
    let mut k: usize = 0;
    while k < v.len()
        invariant
            k <= v@.len(),
            top >= 0,
            forall|j: int| 0 <= j < k ==> v@[j] <= top,
        decreases v@.len() - k,
    {
        if v[k] > top {
            top = v[k];
        }
        k += 1;
    }
    let all: Wide = product_of(v);
    let n: usize = v.len();
    let mut lo: u128 = 0;
    let mut hi: u128 = top as u128 + 1;
    proof {
        assert(all_within(v@, 0, top));
        lemma_product_within(v@, 0, top);
        lemma_pow_strictly_ordered(top as int, n as nat);
        assert(pow(0, n as nat) == 0) by {
            reveal(pow);
            assert(0 * pow(0, (n - 1) as nat) == 0) by (nonlinear_arith);
        }
    }
    while hi - lo > 1
        invariant
            lo < hi <= i128::MAX + 1,
            n == v@.len(),
            all@ == product(v@),
            pow(lo as int, n as nat) <= all@,
            all@ < pow(hi as int, n as nat),
        decreases hi - lo,
    {
        let mid: u128 = lo + (hi - lo) / 2;
        if Wide::power(mid, n).at_most(&all) {
            lo = mid;
        } else {
            hi = mid;
        }
    }
    proof {
        assert(hi == lo + 1);
        geometric_mean_is_unique(v@, lo as i128);
    }
    lo as i128
}

proof fn lemma_range_ordered(s: Seq<PriceHistoryEntry>, from: u32, to: u32)
    requires
        in_ledger_order(s),
        prices_positive(s),
    ensures
        in_ledger_order(in_range(s, from, to)),
        prices_positive(in_range(s, from, to)),
        forall|i: int|
            0 <= i < in_range(s, from, to).len() ==> from <= (#[trigger] in_range(s, from, to)[i]).ledger <= to
                && s.contains(in_range(s, from, to)[i]),
    decreases s.len(),
{
    reveal(Seq::filter);
    if s.len() > 0 {
        let d = s.drop_last();
        lemma_range_ordered(d, from, to);
        let kept = in_range(d, from, to);
        let all = in_range(s, from, to);
        assert forall|i: int| 0 <= i < kept.len() implies (#[trigger] kept[i]).ledger < s.last().ledger
            && s.contains(kept[i]) by {
            assert(d.contains(kept[i]));
            let z = choose|z: int| 0 <= z < d.len() && d[z] == kept[i];
            assert(s[z] == kept[i]);
            assert(s[z].ledger < s[s.len() - 1].ledger);
        }
        assert(s.contains(s.last()));
        assert forall|i: int| 0 <= i < all.len() implies from <= (#[trigger] all[i]).ledger <= to
            && s.contains(all[i]) && all[i].price > 0 by {
            if i < kept.len() {
                assert(all[i] == kept[i]);
            } else {
                assert(all[i] == s[s.len() - 1]);
            }
        }
        assert forall|i: int, j: int| 0 <= i < j < all.len() implies (#[trigger] all[i]).ledger < (
        #[trigger] all[j]).ledger by {
            assert(all[i] == kept[i]);
            if j < kept.len() {
                assert(all[j] == kept[j]);
            }
        }
    }
}

proof fn lemma_price_in(s: Seq<PriceHistoryEntry>, ledger: int, j: int)
    requires
        in_ledger_order(s),
        0 <= j < s.len(),
        s[j].ledger <= ledger,
        j + 1 < s.len() ==> s[j + 1].ledger > ledger,
    ensures
        price_in(s, ledger) == s[j].price,
    decreases s.len(),
{
    if j + 1 < s.len() {
        assert(s[s.len() - 1].ledger > ledger) by {
            if j + 1 < s.len() - 1 {
                assert(s[j + 1].ledger < s[s.len() - 1].ledger);
            }
        }
        let d = s.drop_last();
        assert(d[j] == s[j]);
        lemma_price_in(d, ledger, j);
    }
}

/// The prices that hold from the first ledger of `entries` to `ledger`.
fn list_held(entries: &Vec<PriceHistoryEntry>, ledger: u32) -> (r: Vec<i128>)
    requires
        entries@.len() > 0,
        in_ledger_order(entries@),
        prices_positive(entries@),
        entries@[0].ledger <= ledger,
    ensures
        r@ == prices_held(entries@, ledger),
        r@.len() > 0,
        all_positive(r@),
{
    let ghost s = entries@;
    let first: u32 = entries[0].ledger;
    let n: u64 = ledger as u64 - first as u64 + 1;
    let mut r: Vec<i128> = Vec::new();
    let mut j: usize = 0;
    let mut i: u64 = 0;
    while i < n
        invariant
            s == entries@,
            in_ledger_order(s),
            prices_positive(s),
            first == s[0].ledger,
            first <= ledger,
            n == ledger + 1 - first,
            i <= n,
            j < s.len(),
            s[j as int].ledger <= first + i,
            i > 0 && j + 1 < s.len() ==> s[j + 1].ledger > first + i - 1,
            r@.len() == i,
            forall|k: int| 0 <= k < i ==> #[trigger] r@[k] == price_in(s, first + k) && r@[k] > 0,
        decreases n - i,
    {
        if j < entries.len() - 1 && entries[j + 1].ledger as u64 <= first as u64 + i {
            proof {
                if j + 2 < s.len() {
                    assert(s[j + 1].ledger < s[j + 2].ledger);
                }
                assert(s[0].ledger <= s[j as int].ledger);
                assert(s[j as int].ledger < s[j + 1].ledger);
            }
            j += 1;
        }
        proof {
            lemma_price_in(s, first + i, j as int);
        }
        r.push(entries[j].price);
        i += 1;
    }
    assert(r@ =~= prices_held(s, ledger));
    r
}

impl PriceOracleContract {
    /// The first ledger of a window that ends now: the one `window` ledgers ago.
    pub open spec fn window_start(ledger: u32, window: u32) -> u32 {
        let w = if window < LOOKBACK_LEDGERS {
            window
        } else {
            LOOKBACK_LEDGERS
        };
        if ledger > w {
            (ledger - w) as u32
        } else {
            0
        }
    }

    /// What was recorded for `asset` in a window that ends now.
    pub open spec fn window(self, env: Env, asset: Address, window: u32) -> Seq<PriceHistoryEntry> {
        in_range(
            self.history(asset),
            PriceOracleContract::window_start(env.ledger, window),
            env.ledger,
        )
    }

    /// The price of `asset` averaged over the ledgers from `window_ledgers` ago, at most
    /// [`LOOKBACK_LEDGERS`], up to the present one: each ledger from the first record on counts
    /// with the price that held in it. `None` where nothing was recorded in that time.
    pub fn get_twap(&self, env: &Env, asset: Address, window_ledgers: u32, method: TwapMethod) -> (r: Option<
        PriceData,
    >)
        ensures
            r == ({
                let s = self.window(*env, asset, window_ledgers);
                if self.book.assets@.contains_key(asset) && s.len() > 0 {
                    Some(
                        PriceData {
                            price: averaged(method, prices_held(s, env.ledger)) as i128,
                            timestamp: s.last().timestamp,
                        },
                    )
                } else {
                    None
                }
            }),
    {
        if !self.book.assets.contains_key(&asset) {
            return None;
        }
        let w: u32 = if window_ledgers < LOOKBACK_LEDGERS {
            window_ledgers
        } else {
            LOOKBACK_LEDGERS
        };
        let start: u32 = env.ledger.saturating_sub(w);
        proof {
            reveal(Seq::filter);
        }
        let history: &History = match self.book.histories.get(&asset) {
            Some(h) => h,
            None => {
                return None;
            },
        };
        let _ = history.len();
        proof {
            lemma_range_ordered(history@, start, env.ledger);
        }
        let entries: Vec<PriceHistoryEntry> = history.range(start, env.ledger);
        if entries.len() == 0 {
            return None;
        }
        let held: Vec<i128> = list_held(&entries, env.ledger);
        let price: i128 = match method {
            TwapMethod::Arithmetic => mean(&held),
            TwapMethod::Geometric => geometric_mean(&held),
        };
        Some(PriceData { price, timestamp: entries[entries.len() - 1].timestamp })
    }
}

} // verus!
