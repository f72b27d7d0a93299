//! How several prices become one.

use crate::arith::mul_div;
use vstd::prelude::*;

verus! {

/// The way in which the prices of several sources are combined.
#[derive(Clone, Copy, Debug, PartialEq, Eq, Structural)]
pub enum AggregationMethod {
    /// The middle price, or the midpoint of the two middle ones.
    Median,
    /// The arithmetic average.
    Mean,
    /// The average of what is left without the top and the bottom tenth.
    TrimmedMean,
    /// The lowest price at which half of the weight is reached.
    WeightedMedian,
}

impl AggregationMethod {
    /// The number by which the method is chosen.
    pub open spec fn number(self) -> u32 {
        match self {
            AggregationMethod::Median => 0,
            AggregationMethod::Mean => 1,
            AggregationMethod::TrimmedMean => 2,
            AggregationMethod::WeightedMedian => 3,
        }
    }

    /// The number by which the method is chosen.
    pub fn to_number(&self) -> (n: u32)
        ensures
            n == self.number(),
    {
        match self {
            AggregationMethod::Median => 0,
            AggregationMethod::Mean => 1,
            AggregationMethod::TrimmedMean => 2,
            AggregationMethod::WeightedMedian => 3,
        }
    }

    /// The method that a number chooses, if it chooses one.
    pub fn from_number(n: u32) -> (r: Option<AggregationMethod>)
        ensures
            r is Some <==> n <= 3,
            r matches Some(m) ==> m.number() == n,
    {
        match n {
            0 => Some(AggregationMethod::Median),
            1 => Some(AggregationMethod::Mean),
            2 => Some(AggregationMethod::TrimmedMean),
            3 => Some(AggregationMethod::WeightedMedian),
            _ => None,
        }
    }
}

/// `s`, which ascends, with `x` at the last place that keeps it ascending.
pub open spec fn with_in_order(s: Seq<i128>, x: i128) -> Seq<i128>
    decreases s.len(),
{
    if s.len() == 0 {
        seq![x]
    } else if s.last() <= x {
        s.push(x)
    } else {
        with_in_order(s.drop_last(), x).push(s.last())
    }
}

/// The members of `s` from the smallest to the largest.
pub open spec fn ascending(s: Seq<i128>) -> Seq<i128>
    decreases s.len(),
{
    if s.len() == 0 {
        Seq::empty()
    } else {
        with_in_order(ascending(s.drop_last()), s.last())
    }
}

/// Whether no member of `s` is smaller than one before it.
pub open spec fn ascends(s: Seq<i128>) -> bool {
    forall|i: int, j: int| 0 <= i <= j < s.len() ==> s[i] <= s[j]
}

/// Whether every member of `s` is above zero.
pub open spec fn all_positive(s: Seq<i128>) -> bool {
    forall|i: int| 0 <= i < s.len() ==> s[i] > 0
}

/// The sum of the members of `s`.
pub open spec fn sum(s: Seq<i128>) -> int
    decreases s.len(),
{
    if s.len() == 0 {
        0
    } else {
        sum(s.drop_last()) + s.last()
    }
}

/// The average of the members of `s`, rounded down.
pub open spec fn mean_of(s: Seq<i128>) -> int
    recommends
        s.len() > 0,
{
    sum(s) / s.len() as int
}

/// The middle of the members of `s` in order; where their number is even, the midpoint of the
/// two middle ones, rounded down.
pub open spec fn median_of(s: Seq<i128>) -> int
    recommends
        s.len() > 0,
{
    let t = ascending(s);
    let n = s.len() as int;
    if n % 2 == 1 {
        t[n / 2] as int
    } else {
        (t[n / 2 - 1] + t[n / 2]) / 2
    }
}

/// The average of the members of `s` without the lowest and the highest tenth of them.
pub open spec fn trimmed_mean_of(s: Seq<i128>) -> int
    recommends
        s.len() > 0,
{
    let n = s.len() as int;
    mean_of(ascending(s).subrange(n / 10, n - n / 10))
}

/// The weight of the members of `s` that are at most `p`; `w[i]` is the weight of `s[i]`.
pub open spec fn weight_up_to(s: Seq<i128>, w: Seq<u32>, p: i128) -> int
    decreases s.len(),
{
    if s.len() == 0 {
        0
    } else {
        weight_up_to(s.drop_last(), w, p) + (if s.last() <= p {
            w[s.len() - 1] as int
        } else {
            0
        })
    }
}

/// The weight of all members of `s`.
pub open spec fn total_weight(s: Seq<i128>, w: Seq<u32>) -> int
    decreases s.len(),
{
    if s.len() == 0 {
        0
    } else {
        total_weight(s.drop_last(), w) + w[s.len() - 1]
    }
}

/// Whether `p` is the lowest member of `s` up to which half of the weight, or more, lies.
pub open spec fn is_weighted_median(s: Seq<i128>, w: Seq<u32>, p: i128) -> bool {
    &&& s.contains(p)
    &&& 2 * weight_up_to(s, w, p) >= total_weight(s, w)
    &&& forall|i: int|
        0 <= i < s.len() && 2 * weight_up_to(s, w, s[i]) >= total_weight(s, w) ==> p <= #[trigger] s[i]
}

/// The lowest member of `s` up to which half of the weight, or more, lies.
pub open spec fn weighted_median_of(s: Seq<i128>, w: Seq<u32>) -> i128 {
    choose|p: i128| is_weighted_median(s, w, p)
}

/// The price that `method` makes of the prices `s` with the weights `w`.
pub open spec fn combined(method: AggregationMethod, s: Seq<i128>, w: Seq<u32>) -> int {
    match method {
        AggregationMethod::Median => median_of(s),
        AggregationMethod::Mean => mean_of(s),
        AggregationMethod::TrimmedMean => trimmed_mean_of(s),
        AggregationMethod::WeightedMedian => weighted_median_of(s, w) as int,
    }
}

proof fn lemma_with_in_order(s: Seq<i128>, x: i128)
    requires
        ascends(s),
    ensures
        ascends(with_in_order(s, x)),
        with_in_order(s, x).len() == s.len() + 1,
        with_in_order(s, x).to_multiset() == s.to_multiset().insert(x),
        forall|y: i128| #[trigger] with_in_order(s, x).contains(y) ==> s.contains(y) || y == x,
    decreases s.len(),
{
    broadcast use vstd::seq_lib::group_to_multiset_ensures;

    if s.len() == 0 {
        assert(seq![x] =~= s.push(x));
    } else if s.last() <= x {
    } else {
        let d = s.drop_last();
        let t = with_in_order(d, x);
        lemma_with_in_order(d, x);
        let r = t.push(s.last());
        assert(d.push(s.last()) =~= s);
        assert(r.to_multiset() =~= s.to_multiset().insert(x));
        assert forall|i: int, j: int| 0 <= i <= j < r.len() implies r[i] <= r[j] by {
            if j == t.len() && i < j {
                assert(t.contains(t[i]));
                if d.contains(t[i]) {
                    let q = choose|q: int| 0 <= q < d.len() && d[q] == t[i];
                    assert(s[q] <= s[s.len() - 1]);
                }
            }
        }
        assert forall|y: i128| #[trigger] r.contains(y) implies s.contains(y) || y == x by {
            let q = choose|q: int| 0 <= q < r.len() && r[q] == y;
            if q < t.len() {
                assert(t.contains(y));
                if d.contains(y) {
                    let z = choose|z: int| 0 <= z < d.len() && d[z] == y;
                    assert(s[z] == y);
                }
            } else {
                assert(s[s.len() - 1] == y);
            }
        }
    }
}

/// Putting prices in order keeps every price, as often as it occurs, and leaves none smaller
/// than one before it.
pub proof fn ascending_orders_the_prices(s: Seq<i128>)
    ensures
        ascends(ascending(s)),
        ascending(s).len() == s.len(),
        ascending(s).to_multiset() == s.to_multiset(),
        forall|y: i128| #[trigger] ascending(s).contains(y) ==> s.contains(y),
    decreases s.len(),
{
    broadcast use vstd::seq_lib::group_to_multiset_ensures;

    if s.len() == 0 {
        assert(ascending(s) =~= s);
    } else {
        let d = s.drop_last();
        ascending_orders_the_prices(d);
        lemma_with_in_order(ascending(d), s.last());
        assert(d.push(s.last()) =~= s);
        assert forall|y: i128| #[trigger] ascending(s).contains(y) implies s.contains(y) by {
            if ascending(d).contains(y) {
                assert(d.contains(y));
                let z = choose|z: int| 0 <= z < d.len() && d[z] == y;
                assert(s[z] == y);
            } else {
                assert(s[s.len() - 1] == y);
            }
        }
    }
}

proof fn lemma_ascending_positive(s: Seq<i128>)
    requires
        all_positive(s),
    ensures
        all_positive(ascending(s)),
{
    ascending_orders_the_prices(s);
    let t = ascending(s);
    assert forall|i: int| 0 <= i < t.len() implies t[i] > 0 by {
        assert(t.contains(t[i]));
        let z = choose|z: int| 0 <= z < s.len() && s[z] == t[i];
        assert(s[z] > 0);
    }
}

/// The prices from the smallest to the largest.
fn sorted(v: &Vec<i128>) -> (r: Vec<i128>)
    ensures
        r@ == ascending(v@),
{
    let mut r: Vec<i128> = Vec::new();
    let mut i: usize = 0;
    while i < v.len()
        invariant
            i <= v@.len(),
            r@ == ascending(v@.take(i as int)),
        decreases v@.len() - i,
    {
        let x: i128 = v[i];
        let mut k: usize = r.len();
        let ghost before = r@;
        proof {
            assert(v@.take(i + 1).drop_last() =~= v@.take(i as int));
            assert(before.take(before.len() as int) =~= before);
        }
        while k > 0 && r[k - 1] > x
            invariant
                k <= r@.len(),
                r@ == before,
                with_in_order(before, x) == with_in_order(before.take(k as int), x) + before.skip(
                    k as int,
                ),
            decreases k,
        {
            proof {
                let t = before.take(k as int);
                assert(t.drop_last() =~= before.take(k - 1));
                assert(t.last() == before[k - 1]);
                assert(with_in_order(before.take(k - 1), x).push(before[k - 1]) + before.skip(k as int)
                    =~= with_in_order(before.take(k - 1), x) + before.skip(k - 1));
            }
            k -= 1;
        }
        proof {
            let t = before.take(k as int);
            if k > 0 {
                assert(t.last() == before[k - 1]);
                assert(with_in_order(t, x) == t.push(x));
            } else {
                assert(with_in_order(t, x) =~= t.push(x));
            }
            assert(before.insert(k as int, x) =~= t.push(x) + before.skip(k as int));
        }
        r.insert(k, x);
        i += 1;
    }
    proof {
        assert(v@.take(v@.len() as int) =~= v@);
    }
    r
}

proof fn lemma_sum_bounds(s: Seq<i128>)
    requires
        all_positive(s),
    ensures
        s.len() <= sum(s) <= s.len() * i128::MAX,
    decreases s.len(),
{
    if s.len() > 0 {
        lemma_sum_bounds(s.drop_last());
        assert((s.len() - 1) * i128::MAX + i128::MAX == s.len() * i128::MAX) by (nonlinear_arith);
    }
}

/// The average of the prices from place `from` up to, but without, place `to`.
fn mean_between(v: &Vec<i128>, from: usize, to: usize) -> (r: i128)
    requires
        from < to <= v@.len(),
        all_positive(v@),
    ensures
        r == mean_of(v@.subrange(from as int, to as int)),
        r > 0,
{
    let ghost s = v@.subrange(from as int, to as int);
    let n: i128 = (to - from) as i128;
    // the sum so far is q * n + rem
    let mut q: i128 = 0;
    let mut rem: i128 = 0;
    let mut i: usize = from;
    proof {
        assert(s.take(0) =~= Seq::<i128>::empty());
    }
    while i < to
        invariant
            from <= i <= to <= v@.len(),
            s == v@.subrange(from as int, to as int),
            n == to - from,
            all_positive(v@),
            0 <= rem < n,
            0 <= q,
            q * n + rem == sum(s.take(i - from)),
        decreases to - i,
    {
        let x: i128 = v[i];
        let ghost before = sum(s.take(i - from));
        let ghost j: int = i - from;
        proof {
            assert(s.take(j + 1).drop_last() =~= s.take(j));
            assert(s.take(j + 1).last() == x);
            assert(all_positive(s.take(j + 1)));
            lemma_sum_bounds(s.take(j + 1));
            vstd::arithmetic::div_mod::lemma_fundamental_div_mod(x as int, n as int);
            assert((j + 1) * i128::MAX <= n * i128::MAX) by (nonlinear_arith)
                requires
                    j + 1 <= n,
            ;
        }
        let xq: i128 = x / n;
        let xr: i128 = x % n;
        let ghost c: int = if xr >= n - rem {
            1
        } else {
            0
        };
        let ghost r2: int = if xr >= n - rem {
            xr - (n - rem)
        } else {
            xr + rem
        };
        proof {
            assert((q + xq + c) * n + r2 == before + x) by (nonlinear_arith)
                requires
                    q * n + rem == before,
                    x == n * xq + xr,
                    xr + rem == c * n + r2,
            ;
            assert(q + xq + c <= i128::MAX) by (nonlinear_arith)
                requires
                    (q + xq + c) * n + r2 == before + x,
                    before + x <= n * i128::MAX,
                    r2 >= 0,
                    n > 0,
            ;
        }
        if xr >= n - rem {
            q = q + xq + 1;
            rem = xr - (n - rem);
        } else {
            q = q + xq;
            rem = xr + rem;
        }
        i += 1;
    }
    proof {
        assert(s.take(n as int) =~= s);
        lemma_sum_bounds(s);
        vstd::arithmetic::div_mod::lemma_fundamental_div_mod_converse(
            sum(s),
            n as int,
            q as int,
            rem as int,
        );
        assert(q > 0) by (nonlinear_arith)
            requires
                q * n + rem >= n,
                rem < n,
                n > 0,
        ;
    }
    q
}

/// The average of the prices, rounded down.
pub fn mean(v: &Vec<i128>) -> (r: i128)
    requires
        v@.len() > 0,
        all_positive(v@),
    ensures
        r == mean_of(v@),
        r > 0,
{
    assert(v@.subrange(0, v@.len() as int) =~= v@);
    mean_between(v, 0, v.len())
}

/// The middle price.
pub fn median(v: &Vec<i128>) -> (r: i128)
    requires
        v@.len() > 0,
        all_positive(v@),
    ensures
        r == median_of(v@),
        r > 0,
{
    let t: Vec<i128> = sorted(v);
    proof {
        ascending_orders_the_prices(v@);
        lemma_ascending_positive(v@);
    }
    let n: usize = t.len();
    if n % 2 == 1 {
        t[n / 2]
    } else {
        let lo: i128 = t[n / 2 - 1];
        let hi: i128 = t[n / 2];
        assert(lo <= hi);
        lo + (hi - lo) / 2
    }
}

/// The average of the prices without the lowest and the highest tenth of them.
pub fn trimmed_mean(v: &Vec<i128>) -> (r: i128)
    requires
        v@.len() > 0,
        all_positive(v@),
    ensures
        r == trimmed_mean_of(v@),
        r > 0,
{
    let t: Vec<i128> = sorted(v);
    proof {
        ascending_orders_the_prices(v@);
        lemma_ascending_positive(v@);
    }
    let n: usize = t.len();
    mean_between(&t, n / 10, n - n / 10)
}

proof fn lemma_weights(s: Seq<i128>, w: Seq<u32>, p: i128)
    requires
        s.len() <= w.len(),
    ensures
        0 <= weight_up_to(s, w, p) <= total_weight(s, w) <= s.len() * u32::MAX,
        (forall|i: int| 0 <= i < s.len() ==> s[i] <= p) ==> weight_up_to(s, w, p) == total_weight(s, w),
    decreases s.len(),
{
    if s.len() > 0 {
        lemma_weights(s.drop_last(), w, p);
        assert((s.len() - 1) * u32::MAX + u32::MAX == s.len() * u32::MAX) by (nonlinear_arith);
        if forall|i: int| 0 <= i < s.len() ==> s[i] <= p {
            assert forall|i: int| 0 <= i < s.drop_last().len() implies s.drop_last()[i] <= p by {
                assert(s[i] <= p);
            }
            assert(s[s.len() - 1] <= p);
        }
    }
}

/// Weighted prices have at most one weighted median.
pub proof fn weighted_median_is_unique(s: Seq<i128>, w: Seq<u32>, p: i128)
    requires
        is_weighted_median(s, w, p),
    ensures
        weighted_median_of(s, w) == p,
{
    let q = weighted_median_of(s, w);
    assert(is_weighted_median(s, w, q));
    let i = choose|i: int| 0 <= i < s.len() && s[i] == p;
    let j = choose|j: int| 0 <= j < s.len() && s[j] == q;
    assert(p <= s[j]);
    assert(q <= s[i]);
}

/// The weight of the prices that are at most `p`.
fn weight_below(v: &Vec<i128>, w: &Vec<u32>, p: i128) -> (r: (u128, u128))
    requires
        v@.len() == w@.len(),
    ensures
        r.0 == weight_up_to(v@, w@, p),
        r.1 == total_weight(v@, w@),
        r.0 <= r.1,
{
    let mut part: u128 = 0;
    let mut all: u128 = 0;
    let mut i: usize = 0;
    proof {
        assert(v@.take(0) =~= Seq::<i128>::empty());
    }
    while i < v.len()
        invariant
            i <= v@.len(),
            v@.len() == w@.len(),
            part == weight_up_to(v@.take(i as int), w@, p),
            all == total_weight(v@.take(i as int), w@),
        decreases v@.len() - i,
    {
        proof {
            let t = v@.take(i + 1);
            assert(t.drop_last() =~= v@.take(i as int));
            lemma_weights(t, w@, p);
            assert(t.len() * u32::MAX <= 0x1_0000_0000_0000_0000 * u32::MAX) by (nonlinear_arith)
                requires
                    t.len() <= 0x1_0000_0000_0000_0000,
            ;
        }
        if v[i] <= p {
            part += w[i] as u128;
        }
        all += w[i] as u128;
        i += 1;
    }
    proof {
        assert(v@.take(v@.len() as int) =~= v@);
        lemma_weights(v@, w@, p);
        assert(v@.len() * u32::MAX <= 0x1_0000_0000_0000_0000 * u32::MAX) by (nonlinear_arith)
            requires
                v@.len() <= 0x1_0000_0000_0000_0000,
        ;
    }
    (part, all)
}

/// The lowest price up to which half of the weight, or more, lies.
pub fn weighted_median(v: &Vec<i128>, w: &Vec<u32>) -> (r: i128)
    requires
        v@.len() > 0,
        v@.len() == w@.len(),
        all_positive(v@),
    ensures
        is_weighted_median(v@, w@, r),
        r == weighted_median_of(v@, w@),
        r > 0,
{
    // the highest price always qualifies
    let mut best: i128 = v[0];
    let mut k: usize = 1;
    while k < v.len()
        invariant
            1 <= k <= v@.len(),
            v@.contains(best),
            forall|j: int| 0 <= j < k ==> v@[j] <= best,
        decreases v@.len() - k,
    {
        if v[k] > best {
            best = v[k];
        }
        k += 1;
    }
    proof {
        lemma_weights(v@, w@, best);
    }
    let mut i: usize = 0;
    while i < v.len()
        invariant
            i <= v@.len(),
            v@.len() == w@.len(),
            v@.contains(best),
            2 * weight_up_to(v@, w@, best) >= total_weight(v@, w@),
            forall|j: int|
                0 <= j < i && 2 * weight_up_to(v@, w@, v@[j]) >= total_weight(v@, w@) ==> best
                    <= #[trigger] v@[j],
        decreases v@.len() - i,
    {
        let p: i128 = v[i];
        let (part, all): (u128, u128) = weight_below(v, w, p);
        if part >= all - part && p < best {
            best = p;
        }
        i += 1;
    }
    proof {
        weighted_median_is_unique(v@, w@, best);
        let z = choose|z: int| 0 <= z < v@.len() && v@[z] == best;
        assert(v@[z] > 0);
    }
    best
}

/// The price that `method` makes of the prices `v` with the weights `w`.
pub fn combine(method: AggregationMethod, v: &Vec<i128>, w: &Vec<u32>) -> (r: i128)
    requires
        v@.len() > 0,
        v@.len() == w@.len(),
        all_positive(v@),
    ensures
        r == combined(method, v@, w@),
        r > 0,
{
    match method {
        AggregationMethod::Median => median(v),
        AggregationMethod::Mean => mean(v),
        AggregationMethod::TrimmedMean => trimmed_mean(v),
        AggregationMethod::WeightedMedian => weighted_median(v, w),
    }
}

/// Whether every member of `s` lies from `lo` to `hi`.
pub open spec fn all_within(s: Seq<i128>, lo: i128, hi: i128) -> bool {
    forall|i: int| 0 <= i < s.len() ==> lo <= #[trigger] s[i] <= hi
}

/// How many members of `s` lie from `lo` to `hi`.
pub open spec fn count_within(s: Seq<i128>, lo: i128, hi: i128) -> nat
    decreases s.len(),
{
    if s.len() == 0 {
        0
    } else if lo <= s.last() <= hi {
        count_within(s.drop_last(), lo, hi) + 1
    } else {
        count_within(s.drop_last(), lo, hi)
    }
}

proof fn lemma_sum_within(s: Seq<i128>, lo: i128, hi: i128)
    requires
        all_within(s, lo, hi),
    ensures
        s.len() * lo <= sum(s) <= s.len() * hi,
    decreases s.len(),
{
    if s.len() > 0 {
        let d = s.drop_last();
        assert forall|i: int| 0 <= i < d.len() implies lo <= #[trigger] d[i] <= hi by {
            assert(d[i] == s[i]);
        }
        lemma_sum_within(d, lo, hi);
        assert(lo <= s[s.len() - 1] <= hi);
        assert((s.len() - 1) * lo + lo == s.len() * lo) by (nonlinear_arith);
        assert((s.len() - 1) * hi + hi == s.len() * hi) by (nonlinear_arith);
    } else {
        assert(s.len() * lo == 0 && s.len() * hi == 0) by (nonlinear_arith)
            requires
                s.len() == 0,
        ;
    }
}

proof fn lemma_mean_within(s: Seq<i128>, lo: i128, hi: i128)
    requires
        s.len() > 0,
        all_within(s, lo, hi),
    ensures
        lo <= mean_of(s) <= hi,
{
    lemma_sum_within(s, lo, hi);
    let n = s.len() as int;
    vstd::arithmetic::div_mod::lemma_div_multiples_vanish(lo as int, n);
    vstd::arithmetic::div_mod::lemma_div_multiples_vanish(hi as int, n);
    vstd::arithmetic::div_mod::lemma_div_is_ordered(n * lo, sum(s), n);
    vstd::arithmetic::div_mod::lemma_div_is_ordered(sum(s), n * hi, n);
}

proof fn lemma_ascending_within(s: Seq<i128>, lo: i128, hi: i128)
    requires
        all_within(s, lo, hi),
    ensures
        all_within(ascending(s), lo, hi),
{
    ascending_orders_the_prices(s);
    let t = ascending(s);
    assert forall|i: int| 0 <= i < t.len() implies lo <= #[trigger] t[i] <= hi by {
        assert(t.contains(t[i]));
        let z = choose|z: int| 0 <= z < s.len() && s[z] == t[i];
        assert(lo <= s[z] <= hi);
    }
}

/// The place of a member of `s` that no other exceeds.
proof fn highest(s: Seq<i128>) -> (k: int)
    requires
        s.len() > 0,
    ensures
        0 <= k < s.len(),
        forall|i: int| 0 <= i < s.len() ==> s[i] <= s[k],
    decreases s.len(),
{
    if s.len() == 1 {
        0
    } else {
        let d = s.drop_last();
        let k = highest(d);
        assert forall|i: int| 0 <= i < s.len() - 1 implies s[i] <= s[k] by {
            assert(d[i] <= d[k]);
        }
        if s.last() >= s[k] {
            s.len() - 1
        } else {
            k
        }
    }
}

/// The lowest price with half of the weight up to it, as far as the first `n` prices tell.
proof fn lowest_heavy(s: Seq<i128>, w: Seq<u32>, n: int) -> (p: i128)
    requires
        0 <= n <= s.len(),
        0 < s.len() <= w.len(),
    ensures
        s.contains(p),
        2 * weight_up_to(s, w, p) >= total_weight(s, w),
        forall|i: int|
            0 <= i < n && 2 * weight_up_to(s, w, s[i]) >= total_weight(s, w) ==> p <= #[trigger] s[i],
    decreases n,
{
    if n == 0 {
        let k = highest(s);
        lemma_weights(s, w, s[k]);
        s[k]
    } else {
        let p = lowest_heavy(s, w, n - 1);
        if 2 * weight_up_to(s, w, s[n - 1]) >= total_weight(s, w) && s[n - 1] < p {
            s[n - 1]
        } else {
            p
        }
    }
}

/// Weighted prices have a weighted median.
pub proof fn a_weighted_median_exists(s: Seq<i128>, w: Seq<u32>)
    requires
        0 < s.len() <= w.len(),
    ensures
        is_weighted_median(s, w, weighted_median_of(s, w)),
{
    let p = lowest_heavy(s, w, s.len() as int);
    assert(is_weighted_median(s, w, p));
}

/// Whatever the method, the price that several prices are combined to is not below the lowest
/// and not above the highest of them.
pub proof fn a_combined_price_lies_between(
    method: AggregationMethod,
    s: Seq<i128>,
    w: Seq<u32>,
    lo: i128,
    hi: i128,
)
    requires
        s.len() > 0,
        s.len() == w.len(),
        all_within(s, lo, hi),
    ensures
        lo <= combined(method, s, w) <= hi,
{
    let n = s.len() as int;
    let t = ascending(s);
    ascending_orders_the_prices(s);
    lemma_ascending_within(s, lo, hi);
    match method {
        AggregationMethod::Median => {
            assert(lo <= t[n / 2] <= hi);
            if n % 2 == 0 {
                assert(lo <= t[n / 2 - 1] <= hi);
            }
        },
        AggregationMethod::Mean => {
            lemma_mean_within(s, lo, hi);
        },
        AggregationMethod::TrimmedMean => {
            let kept = t.subrange(n / 10, n - n / 10);
            assert forall|i: int| 0 <= i < kept.len() implies lo <= #[trigger] kept[i] <= hi by {
                assert(kept[i] == t[i + n / 10]);
            }
            lemma_mean_within(kept, lo, hi);
        },
        AggregationMethod::WeightedMedian => {
            a_weighted_median_exists(s, w);
            let p = weighted_median_of(s, w);
            let z = choose|z: int| 0 <= z < s.len() && s[z] == p;
            assert(lo <= s[z] <= hi);
        },
    }
}

proof fn lemma_count_with_in_order(s: Seq<i128>, x: i128, lo: i128, hi: i128)
    ensures
        count_within(with_in_order(s, x), lo, hi) == count_within(s, lo, hi) + (if lo <= x <= hi {
            1nat
        } else {
            0
        }),
    decreases s.len(),
{
    if s.len() == 0 {
        assert(seq![x].drop_last() =~= s);
    } else if s.last() <= x {
        assert(s.push(x).drop_last() =~= s);
    } else {
        let t = with_in_order(s.drop_last(), x);
        lemma_count_with_in_order(s.drop_last(), x, lo, hi);
        assert(t.push(s.last()).drop_last() =~= t);
    }
}

pub(crate) proof fn lemma_count_ascending(s: Seq<i128>, lo: i128, hi: i128)
    ensures
        count_within(ascending(s), lo, hi) == count_within(s, lo, hi),
    decreases s.len(),
{
    if s.len() > 0 {
        lemma_count_ascending(s.drop_last(), lo, hi);
        lemma_count_with_in_order(ascending(s.drop_last()), s.last(), lo, hi);
    }
}

pub(crate) proof fn lemma_count_above(t: Seq<i128>, lo: i128, hi: i128, k: int, n: int)
    requires
        ascends(t),
        0 <= k < t.len(),
        t[k] < lo,
        0 <= n <= t.len(),
    ensures
        count_within(t.take(n), lo, hi) <= (if n <= k + 1 {
            0
        } else {
            n - k - 1
        }),
    decreases n,
{
    if n > 0 {
        lemma_count_above(t, lo, hi, k, n - 1);
        assert(t.take(n).drop_last() =~= t.take(n - 1));
        if n <= k + 1 {
            assert(t[n - 1] <= t[k]);
        }
    }
}

pub(crate) proof fn lemma_count_below(t: Seq<i128>, lo: i128, hi: i128, k: int, n: int)
    requires
        ascends(t),
        0 <= k < t.len(),
        t[k] > hi,
        0 <= n <= t.len(),
    ensures
        count_within(t.take(n), lo, hi) <= n,
        count_within(t.take(n), lo, hi) <= k,
    decreases n,
{
    if n > 0 {
        lemma_count_below(t, lo, hi, k, n - 1);
        assert(t.take(n).drop_last() =~= t.take(n - 1));
        if n > k {
            assert(t[k] <= t[n - 1]);
        }
    }
}

/// Where more than half of the prices lie from `lo` to `hi`, so does the median, whatever the
/// other prices are.
pub proof fn a_majority_decides_the_median(s: Seq<i128>, lo: i128, hi: i128)
    requires
        2 * count_within(s, lo, hi) > s.len(),
    ensures
        lo <= median_of(s) <= hi,
{
    let n = s.len() as int;
    let t = ascending(s);
    ascending_orders_the_prices(s);
    lemma_count_ascending(s, lo, hi);
    assert(t.take(n) =~= t);
    if n == 0 {
        assert(false);
    }
    let m = if n % 2 == 1 {
        n / 2
    } else {
        n / 2 - 1
    };
    if t[m] < lo {
        lemma_count_above(t, lo, hi, m, n);
    }
    if t[n / 2] > hi {
        lemma_count_below(t, lo, hi, n / 2, n);
    }
    assert(t[m] <= t[n / 2]);
}

/// The distance between two prices in ten-thousandths of the second, rounded down.
pub open spec fn deviation_of(price: i128, reference: i128) -> int
    recommends
        reference > 0,
{
    let d = if price >= reference {
        price - reference
    } else {
        reference - price
    };
    (d * 10000) / reference as int
}

/// The distance between two prices in ten-thousandths of the second, capped at what fits.
pub open spec fn capped_deviation(price: i128, reference: i128) -> u32 {
    let d = deviation_of(price, reference);
    if d <= u32::MAX {
        d as u32
    } else {
        u32::MAX
    }
}

/// The distance between two prices in ten-thousandths of the second.
pub fn deviation_bps(price: i128, reference: i128) -> (r: u32)
    requires
        price > 0,
        reference > 0,
    ensures
        r == capped_deviation(price, reference),
{
    let d: u128 = if price >= reference {
        (price - reference) as u128
    } else {
        (reference - price) as u128
    };
    proof {
        vstd::arithmetic::div_mod::lemma_div_pos_is_pos((d * 10000) as int, reference as int);
    }
    match mul_div(d, 10000, reference as u128) {
        Some(v) => {
            if v <= u32::MAX as u128 {
                v as u32
            } else {
                u32::MAX
            }
        },
        None => u32::MAX,
    }
}

} // verus!
