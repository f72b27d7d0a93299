//! The recorded prices of one asset, oldest first.

use crate::aggregation::{capped_deviation, deviation_bps};
use crate::types::PriceHistoryEntry;
use vstd::prelude::*;

verus! {

/// Whether the ledgers of the entries strictly increase.
pub open spec fn in_ledger_order(s: Seq<PriceHistoryEntry>) -> bool {
    forall|i: int, j: int| 0 <= i < j < s.len() ==> (#[trigger] s[i]).ledger < (#[trigger] s[j]).ledger
}

/// Whether every recorded price is above zero.
pub open spec fn prices_positive(s: Seq<PriceHistoryEntry>) -> bool {
    forall|i: int| 0 <= i < s.len() ==> (#[trigger] s[i]).price > 0
}

/// The entries before `ledger`.
pub open spec fn before_ledger(s: Seq<PriceHistoryEntry>, ledger: u32) -> Seq<PriceHistoryEntry>
    decreases s.len(),
{
    if s.len() == 0 || s.last().ledger < ledger {
        s
    } else {
        before_ledger(s.drop_last(), ledger)
    }
}

/// The entries without the last one, where that one is less than `threshold` ten-thousandths away
/// from the one before it.
pub open spec fn merged(s: Seq<PriceHistoryEntry>, threshold: u32) -> Seq<PriceHistoryEntry> {
    if s.len() >= 2 && capped_deviation(s.last().price, s[s.len() - 2].price) < threshold {
        s.drop_last()
    } else {
        s
    }
}

/// The entries with `e` as the newest, whatever stood at its ledger replaced. The entry before it,
/// which is the last one no longer, is dropped where it is less than `threshold` ten-thousandths
/// away from its predecessor.
pub open spec fn with_entry(s: Seq<PriceHistoryEntry>, e: PriceHistoryEntry, threshold: u32) -> Seq<
    PriceHistoryEntry,
> {
    merged(before_ledger(s, e.ledger), threshold).push(e)
}

/// Whether every entry but the first and the last is at least `threshold` ten-thousandths away
/// from its predecessor.
pub open spec fn spaced(s: Seq<PriceHistoryEntry>, threshold: u32) -> bool {
    forall|i: int|
        0 < i < s.len() - 1 ==> capped_deviation((#[trigger] s[i]).price, s[i - 1].price) >= threshold
}

/// How many of `len` entries are too many for `limit`.
pub open spec fn excess(len: nat, limit: u32) -> nat {
    if len > limit {
        (len - limit) as nat
    } else {
        0
    }
}

/// The newest `limit` entries.
pub open spec fn newest(s: Seq<PriceHistoryEntry>, limit: u32) -> Seq<PriceHistoryEntry> {
    s.skip(excess(s.len(), limit) as int)
}

/// The place of the first entry at or after `ledger`.
pub open spec fn first_from(s: Seq<PriceHistoryEntry>, ledger: u32) -> int
    decreases s.len(),
{
    if s.len() == 0 || s.last().ledger < ledger {
        s.len() as int
    } else {
        first_from(s.drop_last(), ledger)
    }
}

/// The entries whose ledgers lie from `from` to `to`, both included.
pub open spec fn in_range(s: Seq<PriceHistoryEntry>, from: u32, to: u32) -> Seq<PriceHistoryEntry> {
    s.filter(|e: PriceHistoryEntry| from <= e.ledger <= to)
}

/// The entries that stay when an entry that is less than `threshold` ten-thousandths away from
/// the last one kept is dropped, for all but the first and the last.
pub open spec fn thinned(s: Seq<PriceHistoryEntry>, threshold: u32) -> Seq<PriceHistoryEntry> {
    if s.len() <= 2 {
        s
    } else {
        thinned_part(s, threshold, s.len() - 1).push(s.last())
    }
}

/// The entries among the first `n` that stay.
pub open spec fn thinned_part(s: Seq<PriceHistoryEntry>, threshold: u32, n: int) -> Seq<PriceHistoryEntry>
    decreases n,
{
    if n <= 0 {
        Seq::empty()
    } else {
        let kept = thinned_part(s, threshold, n - 1);
        if kept.len() == 0 || capped_deviation(s[n - 1].price, kept.last().price) >= threshold {
            kept.push(s[n - 1])
        } else {
            kept
        }
    }
}

/// The recorded prices of one asset: at most one entry for a ledger, in the order of ledgers.
#[derive(Debug)]
pub struct History {
    entries: Vec<PriceHistoryEntry>,
}

impl View for History {
    type V = Seq<PriceHistoryEntry>;

    closed spec fn view(&self) -> Seq<PriceHistoryEntry> {
        self.entries@
    }
}

pub(crate) proof fn lemma_before_ledger(s: Seq<PriceHistoryEntry>, ledger: u32)
    requires
        in_ledger_order(s),
    ensures
        before_ledger(s, ledger).len() <= s.len(),
        before_ledger(s, ledger) == s.take(before_ledger(s, ledger).len() as int),
        forall|i: int| 0 <= i < before_ledger(s, ledger).len() ==> (#[trigger] s[i]).ledger < ledger,
        forall|i: int| before_ledger(s, ledger).len() <= i < s.len() ==> (#[trigger] s[i]).ledger >= ledger,
    decreases s.len(),
{
    if s.len() == 0 || s.last().ledger < ledger {
        assert(s.take(s.len() as int) =~= s);
        assert forall|i: int| 0 <= i < s.len() implies (#[trigger] s[i]).ledger < ledger by {
            if i < s.len() - 1 {
                assert(s[i].ledger < s[s.len() - 1].ledger);
            }
        }
    } else {
        let d = s.drop_last();
        lemma_before_ledger(d, ledger);
        let n = before_ledger(d, ledger).len() as int;
        assert(d.take(n) =~= s.take(n));
        assert forall|i: int| 0 <= i < n implies (#[trigger] s[i]).ledger < ledger by {
            assert(d[i].ledger < ledger);
        }
        assert forall|i: int| n <= i < s.len() implies (#[trigger] s[i]).ledger >= ledger by {
            if i < d.len() {
                assert(d[i].ledger >= ledger);
            }
        }
    }
}

/// Recording an entry keeps the order of ledgers, whatever the entry's ledger is.
pub proof fn recording_keeps_ledger_order(
    s: Seq<PriceHistoryEntry>,
    e: PriceHistoryEntry,
    threshold: u32,
    limit: u32,
)
    requires
        in_ledger_order(s),
    ensures
        in_ledger_order(with_entry(s, e, threshold)),
        in_ledger_order(newest(with_entry(s, e, threshold), limit)),
        newest(with_entry(s, e, threshold), limit).len() <= limit,
        limit > 0 ==> newest(with_entry(s, e, threshold), limit).last() == e,
{
    lemma_before_ledger(s, e.ledger);
    let b = merged(before_ledger(s, e.ledger), threshold);
    let t = with_entry(s, e, threshold);
    assert forall|i: int, j: int| 0 <= i < j < t.len() implies (#[trigger] t[i]).ledger < (
    #[trigger] t[j]).ledger by {
        assert(t[i] == s[i]);
        if j < b.len() {
            assert(t[j] == s[j]);
        }
    }
    let k = excess(t.len(), limit) as int;
    let n = newest(t, limit);
    assert forall|i: int, j: int| 0 <= i < j < n.len() implies (#[trigger] n[i]).ledger < (
    #[trigger] n[j]).ledger by {
        assert(n[i] == t[i + k]);
        assert(n[j] == t[j + k]);
    }
}

/// Where compaction finds nothing to drop, it finds nothing to drop after another entry was
/// recorded either: what is merged on writing is what a compaction would merge.
pub proof fn recording_leaves_nothing_to_compact(
    s: Seq<PriceHistoryEntry>,
    e: PriceHistoryEntry,
    threshold: u32,
    limit: u32,
)
    requires
        in_ledger_order(s),
        spaced(s, threshold),
    ensures
        spaced(newest(with_entry(s, e, threshold), limit), threshold),
        thinned(newest(with_entry(s, e, threshold), limit), threshold) == newest(
            with_entry(s, e, threshold),
            limit,
        ),
{
    lemma_before_ledger(s, e.ledger);
    let b = before_ledger(s, e.ledger);
    let t = with_entry(s, e, threshold);
    assert forall|i: int| 0 < i < t.len() - 1 implies capped_deviation(
        (#[trigger] t[i]).price,
        t[i - 1].price,
    ) >= threshold by {
        assert(t[i] == s[i]);
        assert(t[i - 1] == s[i - 1]);
        if i == s.len() - 1 {
            assert(b =~= s);
        }
    }
    let k = excess(t.len(), limit) as int;
    let n = newest(t, limit);
    assert forall|i: int| 0 < i < n.len() - 1 implies capped_deviation(
        (#[trigger] n[i]).price,
        n[i - 1].price,
    ) >= threshold by {
        assert(n[i] == t[i + k]);
        assert(n[i - 1] == t[i + k - 1]);
    }
    a_spaced_history_stays(n, threshold);
}

/// A compaction drops nothing where all entries but the first and the last are far enough away
/// from their predecessors.
pub proof fn a_spaced_history_stays(s: Seq<PriceHistoryEntry>, threshold: u32)
    requires
        spaced(s, threshold),
    ensures
        thinned(s, threshold) == s,
{
    if s.len() > 2 {
        lemma_thinned_part_spaced(s, threshold, s.len() - 1);
        assert(thinned(s, threshold) =~= s);
    }
}

pub(crate) proof fn lemma_thinned_part(s: Seq<PriceHistoryEntry>, threshold: u32, n: int)
    requires
        in_ledger_order(s),
        prices_positive(s),
        0 <= n <= s.len(),
    ensures
        in_ledger_order(thinned_part(s, threshold, n)),
        prices_positive(thinned_part(s, threshold, n)),
        thinned_part(s, threshold, n).len() <= n,
        n > 0 ==> thinned_part(s, threshold, n).len() > 0 && thinned_part(s, threshold, n)[0] == s[0],
        forall|i: int|
            0 <= i < thinned_part(s, threshold, n).len() ==> n > 0 && (#[trigger] thinned_part(
                s,
                threshold,
                n,
            )[i]).ledger <= s[n - 1].ledger,
        forall|i: int|
            0 <= i < thinned_part(s, threshold, n).len() ==> s.contains(
                #[trigger] thinned_part(s, threshold, n)[i],
            ),
    decreases n,
{
    if n > 0 {
        lemma_thinned_part(s, threshold, n - 1);
        let kept = thinned_part(s, threshold, n - 1);
        let r = thinned_part(s, threshold, n);
        assert(s.contains(s[n - 1]));
        if n >= 2 {
            assert(s[n - 2].ledger < s[n - 1].ledger);
        }
        assert forall|i: int| 0 <= i < r.len() implies (#[trigger] r[i]).ledger <= s[n - 1].ledger by {
            if i < kept.len() {
                assert(r[i] == kept[i]);
                assert(kept[i].ledger <= s[n - 2].ledger);
            }
        }
        assert forall|i: int, j: int| 0 <= i < j < r.len() implies (#[trigger] r[i]).ledger < (
        #[trigger] r[j]).ledger by {
            assert(r[i] == kept[i]);
            if j < kept.len() {
                assert(r[j] == kept[j]);
            } else {
                assert(kept[i].ledger <= s[n - 2].ledger);
            }
        }
        assert forall|i: int| 0 <= i < r.len() implies (#[trigger] r[i]).price > 0 by {
            if i < kept.len() {
                assert(r[i] == kept[i]);
            }
        }
        assert forall|i: int| 0 <= i < r.len() implies s.contains(#[trigger] r[i]) by {
            if i < kept.len() {
                assert(r[i] == kept[i]);
            }
        }
    }
}

/// Thinning keeps the first and the last entry and the order, invents no entry, and drops
/// nothing at all at a threshold of zero.
pub proof fn thinning_keeps_the_ends(s: Seq<PriceHistoryEntry>, threshold: u32)
    requires
        in_ledger_order(s),
        prices_positive(s),
    ensures
        in_ledger_order(thinned(s, threshold)),
        prices_positive(thinned(s, threshold)),
        thinned(s, threshold).len() <= s.len(),
        s.len() > 0 ==> thinned(s, threshold).len() > 0 && thinned(s, threshold).first() == s.first()
            && thinned(s, threshold).last() == s.last(),
        forall|i: int|
            0 <= i < thinned(s, threshold).len() ==> s.contains(#[trigger] thinned(s, threshold)[i]),
        threshold == 0 ==> thinned(s, threshold) == s,
{
    let n = s.len() as int;
    if n > 2 {
        lemma_thinned_part(s, threshold, n - 1);
        let part = thinned_part(s, threshold, n - 1);
        let r = thinned(s, threshold);
        assert(s[n - 2].ledger < s[n - 1].ledger);
        assert forall|i: int, j: int| 0 <= i < j < r.len() implies (#[trigger] r[i]).ledger < (
        #[trigger] r[j]).ledger by {
            assert(r[i] == part[i]);
            if j < part.len() {
                assert(r[j] == part[j]);
            } else {
                assert(part[i].ledger <= s[n - 2].ledger);
            }
        }
        assert forall|i: int| 0 <= i < r.len() implies (#[trigger] r[i]).price > 0 by {
            if i < part.len() {
                assert(r[i] == part[i]);
            }
        }
        assert(s.contains(s[n - 1]));
        assert forall|i: int| 0 <= i < r.len() implies s.contains(#[trigger] r[i]) by {
            if i < part.len() {
                assert(r[i] == part[i]);
            }
        }
        if threshold == 0 {
            a_spaced_history_stays(s, threshold);
        }
    } else {
        assert forall|i: int| 0 <= i < s.len() implies s.contains(#[trigger] s[i]) by {}
    }
}

proof fn lemma_thinned_part_spaced(s: Seq<PriceHistoryEntry>, threshold: u32, n: int)
    requires
        spaced(s, threshold),
        0 <= n < s.len(),
    ensures
        thinned_part(s, threshold, n) == s.take(n),
    decreases n,
{
    if n > 0 {
        lemma_thinned_part_spaced(s, threshold, n - 1);
        if n > 1 {
            assert(s.take(n - 1).last() == s[n - 2]);
            assert(capped_deviation(s[n - 1].price, s[n - 2].price) >= threshold);
        }
        assert(s.take(n - 1).push(s[n - 1]) =~= s.take(n));
    } else {
        assert(s.take(0) =~= Seq::<PriceHistoryEntry>::empty());
    }
}

impl History {
    #[verifier::type_invariant]
    closed spec fn well_formed(self) -> bool {
        in_ledger_order(self.entries@) && prices_positive(self.entries@)
    }

    /// No entries.
    pub fn new() -> (h: Self)
        ensures
            h@ == Seq::<PriceHistoryEntry>::empty(),
    {
        History { entries: Vec::new() }
    }

    /// The number of entries.
    pub fn len(&self) -> (n: usize)
        ensures
            n == self@.len(),
            in_ledger_order(self@),
            prices_positive(self@),
    {
        proof {
            use_type_invariant(self);
        }
        self.entries.len()
    }

    /// The entry at place `i`.
    pub fn at(&self, i: usize) -> (e: PriceHistoryEntry)
        requires
            i < self@.len(),
        ensures
            e == self@[i as int],
            e.price > 0,
    {
        proof {
            use_type_invariant(self);
        }
        self.entries[i]
    }

    /// Makes `e` the newest entry, merges the one before it with its predecessor where they are
    /// less than `threshold` ten-thousandths apart, and drops the oldest ones beyond `limit`, which
    /// it gives back.
    pub fn record(&mut self, e: PriceHistoryEntry, threshold: u32, limit: u32) -> (dropped: Vec<
        PriceHistoryEntry,
    >)
        requires
            e.price > 0,
        ensures
            final(self)@ == newest(with_entry(old(self)@, e, threshold), limit),
            dropped@ == with_entry(old(self)@, e, threshold).take(
                excess(with_entry(old(self)@, e, threshold).len(), limit) as int,
            ),
    {
        proof {
            use_type_invariant(&*self);
            recording_keeps_ledger_order(self@, e, threshold, limit);
            lemma_before_ledger(self@, e.ledger);
        }
        let ghost before = self@;
        let mut entries: Vec<PriceHistoryEntry> = Vec::new();
        std::mem::swap(&mut entries, &mut self.entries);
        while entries.len() > 0 && entries[entries.len() - 1].ledger >= e.ledger
            invariant
                before_ledger(entries@, e.ledger) == before_ledger(before, e.ledger),
            decreases entries@.len(),
        {
            assert(entries@.drop_last() =~= entries@.take(entries@.len() - 1));
            let _ = entries.pop();
        }
        assert(entries@ == before_ledger(before, e.ledger));
        let n: usize = entries.len();
        if n >= 2 {
            proof {
                assert(entries@[n - 1] == before[n - 1]);
                assert(entries@[n - 2] == before[n - 2]);
            }
            if deviation_bps(entries[n - 1].price, entries[n - 2].price) < threshold {
                assert(entries@.drop_last() =~= entries@.take(n - 1));
                let _ = entries.pop();
            }
        }
        assert(entries@ == merged(before_ledger(before, e.ledger), threshold));
        entries.push(e);
        let ghost all = entries@;
        let mut dropped: Vec<PriceHistoryEntry> = Vec::new();
        while entries.len() > 0 && entries.len() > limit as usize
            invariant
                dropped@.len() + entries@.len() == all.len(),
                dropped@ == all.take(dropped@.len() as int),
                entries@ == all.skip(dropped@.len() as int),
                dropped@.len() <= excess(all.len(), limit),
            decreases entries@.len(),
        {
            let oldest: PriceHistoryEntry = entries.remove(0);
            dropped.push(oldest);
            assert(dropped@ =~= all.take(dropped@.len() as int));
            assert(entries@ =~= all.skip(dropped@.len() as int));
        }
        proof {
            let k = excess(all.len(), limit) as int;
            assert(entries@ == newest(all, limit));
            assert forall|i: int| 0 <= i < entries@.len() implies (#[trigger] entries@[i]).price > 0 by {
                assert(entries@[i] == all[i + k]);
                if i + k < all.len() - 1 {
                    assert(all[i + k] == before[i + k]);
                }
            }
        }
        self.entries = entries;
        dropped
    }

    /// The place of the first entry at or after `ledger`.
    pub fn first_at_or_after(&self, ledger: u32) -> (k: usize)
        ensures
            k == first_from(self@, ledger),
            k <= self@.len(),
            forall|i: int| 0 <= i < k ==> (#[trigger] self@[i]).ledger < ledger,
            forall|i: int| k <= i < self@.len() ==> (#[trigger] self@[i]).ledger >= ledger,
    {
        proof {
            use_type_invariant(self);
            assert(self@.take(self@.len() as int) =~= self@);
        }
        let mut k: usize = self.entries.len();
        while k > 0 && self.entries[k - 1].ledger >= ledger
            invariant
                k <= self@.len(),
                self.entries@ == self@,
                in_ledger_order(self@),
                first_from(self@, ledger) == first_from(self@.take(k as int), ledger),
                forall|i: int| k <= i < self@.len() ==> (#[trigger] self@[i]).ledger >= ledger,
            decreases k,
        {
            proof {
                assert(self@.take(k as int).drop_last() =~= self@.take(k - 1));
                assert(self@.take(k as int).last() == self@[k - 1]);
            }
            k -= 1;
        }
        proof {
            if k > 0 {
                assert(self@.take(k as int).last() == self@[k - 1]);
                assert forall|i: int| 0 <= i < k implies (#[trigger] self@[i]).ledger < ledger by {
                    if i < k - 1 {
                        assert(self@[i].ledger < self@[k - 1].ledger);
                    }
                }
            }
        }
        k
    }

    /// The entries whose ledgers lie from `from` to `to`, both included.
    pub fn range(&self, from: u32, to: u32) -> (r: Vec<PriceHistoryEntry>)
        ensures
            r@ == in_range(self@, from, to),
    {
        let mut r: Vec<PriceHistoryEntry> = Vec::new();
        let mut i: usize = 0;
        let ghost pred = |e: PriceHistoryEntry| from <= e.ledger <= to;
        proof {
            assert(self@.take(0).filter(pred) =~= Seq::<PriceHistoryEntry>::empty()) by {
                reveal(Seq::filter);
            }
        }
        while i < self.entries.len()
            invariant
                i <= self@.len(),
                self.entries@ == self@,
                pred == (|e: PriceHistoryEntry| from <= e.ledger <= to),
                r@ == self@.take(i as int).filter(pred),
            decreases self@.len() - i,
        {
            let e: PriceHistoryEntry = self.entries[i];
            proof {
                assert(self@.take(i + 1).drop_last() =~= self@.take(i as int));
                reveal(Seq::filter);
            }
            if from <= e.ledger && e.ledger <= to {
                r.push(e);
            }
            i += 1;
        }
        proof {
            assert(self@.take(self@.len() as int) =~= self@);
        }
        r
    }

    /// Drops every entry but the first and the last that is less than `threshold`
    /// ten-thousandths away from the last one kept.
    pub fn thin(&mut self, threshold: u32)
        ensures
            final(self)@ == thinned(old(self)@, threshold),
    {
        proof {
            use_type_invariant(&*self);
            thinning_keeps_the_ends(self@, threshold);
        }
        if self.entries.len() <= 2 {
            return ;
        }
        let ghost before = self@;
        let n: usize = self.entries.len();
        let mut kept: Vec<PriceHistoryEntry> = Vec::new();
        let mut i: usize = 0;
        while i < n - 1
            invariant
                self@ == before,
                self.entries@ == before,
                n == before.len(),
                n > 2,
                i <= n - 1,
                in_ledger_order(before),
                prices_positive(before),
                kept@ == thinned_part(before, threshold, i as int),
            decreases n - i,
        {
            let e: PriceHistoryEntry = self.entries[i];
            proof {
                lemma_thinned_part(before, threshold, i as int);
                assert(before[i as int].price > 0);
                if kept@.len() > 0 {
                    assert(kept@[kept@.len() - 1].price > 0);
                }
            }
            if kept.len() == 0 || deviation_bps(e.price, kept[kept.len() - 1].price) >= threshold {
                kept.push(e);
            }
            i += 1;
        }
        let last: PriceHistoryEntry = self.entries[n - 1];
        kept.push(last);
        self.entries = kept;
    }
}

} // verus!
