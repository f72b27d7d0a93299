//! What was recorded, and ways to ask for it.

use crate::answer_laws::{an_estimate_lies_on_the_line, on_the_line};
use crate::arith::mul_div;
use crate::contract::{CompactionMetadata, PriceOracleContract, Settings};
use crate::env::Env;
use crate::error::{reply, ErrorCode};
use crate::history_log::{first_from, in_ledger_order, in_range, prices_positive, thinned, History};
use crate::price_book::{history_of, PriceBook, PriceState};
use crate::table::Table;
use crate::types::{Address, PriceHistoryEntry};
use vstd::prelude::*;

verus! {

/// The largest page.
pub const MAX_PAGE_SIZE: u32 = 50;

/// The largest export.
pub const MAX_EXPORT: u32 = 200;

/// The largest answer of [`PriceOracleContract::price_history`].
pub const MAX_HISTORY_ANSWER: u32 = 1000;

/// The ledgers of a weekly bucket.
pub const WEEK_LEDGERS: u32 = 120_960;

/// The value that lies `num` parts of `den` on the way from `a` to `b`.
pub open spec fn between(a: int, b: int, num: int, den: int) -> int {
    if b >= a {
        a + (b - a) * num / den
    } else {
        a - (a - b) * num / den
    }
}

/// What is estimated for `ledger` from the entries before and after it.
pub open spec fn estimated(a: PriceHistoryEntry, b: PriceHistoryEntry, ledger: u32) -> PriceHistoryEntry {
    PriceHistoryEntry {
        price: between(
            a.price as int,
            b.price as int,
            ledger - a.ledger,
            b.ledger - a.ledger,
        ) as i128,
        timestamp: between(
            a.timestamp as int,
            b.timestamp as int,
            ledger - a.ledger,
            b.ledger - a.ledger,
        ) as u64,
        ledger,
        num_sources: a.num_sources,
        is_interpolated: true,
    }
}

proof fn lemma_part(d: int, num: int, den: int)
    requires
        0 <= d,
        0 <= num <= den,
        0 < den,
    ensures
        0 <= d * num / den <= d,
{
    assert(0 <= d * num <= d * den) by (nonlinear_arith)
        requires
            0 <= d,
            0 <= num <= den,
    ;
    assert(0 <= d * num / den <= d) by (nonlinear_arith)
        requires
            0 <= d * num <= d * den,
            0 < den,
    ;
}

/// An estimate lies between the entries that it comes from.
pub proof fn estimates_lie_between(a: PriceHistoryEntry, b: PriceHistoryEntry, ledger: u32)
    requires
        a.ledger <= ledger <= b.ledger,
        a.ledger < b.ledger,
        0 < a.price,
        0 < b.price,
    ensures
        a.price <= b.price ==> a.price <= estimated(a, b, ledger).price <= b.price,
        b.price <= a.price ==> b.price <= estimated(a, b, ledger).price <= a.price,
        a.timestamp <= b.timestamp ==> a.timestamp <= estimated(a, b, ledger).timestamp <= b.timestamp,
{
    let num = ledger - a.ledger;
    let den = b.ledger - a.ledger;
    if b.price >= a.price {
        lemma_part(b.price - a.price, num, den);
    } else {
        lemma_part(a.price - b.price, num, den);
    }
    if b.timestamp >= a.timestamp {
        lemma_part(b.timestamp - a.timestamp, num, den);
    }
}

/// The value that lies `num` parts of `den` on the way from `a` to `b`.
fn part_way(a: u128, b: u128, num: u32, den: u32) -> (r: u128)
    requires
        num <= den,
        0 < den,
    ensures
        r == between(a as int, b as int, num as int, den as int),
        a <= r <= b || b <= r <= a,
{
    if b >= a {
        proof {
            lemma_part(b - a, num as int, den as int);
        }
        match mul_div(b - a, num as u128, den as u128) {
            Some(d) => a + d,
            None => a,
        }
    } else {
        proof {
            lemma_part(a - b, num as int, den as int);
        }
        match mul_div(a - b, num as u128, den as u128) {
            Some(d) => a - d,
            None => a,
        }
    }
}

/// The entry at `ledger`, or an estimate of it where `interpolate` allows and entries before
/// and after it are recorded.
pub open spec fn entry_at(s: Seq<PriceHistoryEntry>, ledger: u32, interpolate: bool) -> Option<
    PriceHistoryEntry,
> {
    let k = first_from(s, ledger);
    if k < s.len() && s[k].ledger == ledger {
        Some(s[k])
    } else if interpolate && 0 < k < s.len() {
        Some(estimated(s[k - 1], s[k], ledger))
    } else {
        None
    }
}

/// The end of a page of at most `limit` entries that starts at place `k` of `len` entries.
pub open spec fn page_end(len: nat, k: int, limit: u32) -> int {
    if k + limit < len {
        k + limit
    } else {
        len as int
    }
}

/// At most `limit` entries from the first at or after `cursor`.
pub open spec fn page(s: Seq<PriceHistoryEntry>, cursor: u32, limit: u32) -> Seq<PriceHistoryEntry> {
    s.subrange(first_from(s, cursor), page_end(s.len(), first_from(s, cursor), limit))
}

/// Where the page after [`page`] starts, if there is more.
pub open spec fn next_cursor(s: Seq<PriceHistoryEntry>, cursor: u32, limit: u32) -> Option<u32> {
    let end = page_end(s.len(), first_from(s, cursor), limit);
    if end < s.len() {
        Some(s[end].ledger)
    } else {
        None
    }
}

pub(crate) proof fn lemma_first_from(s: Seq<PriceHistoryEntry>, ledger: u32)
    requires
        in_ledger_order(s),
    ensures
        0 <= first_from(s, ledger) <= s.len(),
        forall|i: int| 0 <= i < first_from(s, ledger) ==> (#[trigger] s[i]).ledger < ledger,
        forall|i: int| first_from(s, ledger) <= i < s.len() ==> (#[trigger] s[i]).ledger >= ledger,
    decreases s.len(),
{
    if s.len() > 0 && s.last().ledger >= ledger {
        let t = s.drop_last();
        assert(in_ledger_order(t));
        lemma_first_from(t, ledger);
        assert forall|i: int| 0 <= i < first_from(s, ledger) implies (#[trigger] s[i]).ledger < ledger by {
            assert(t[i].ledger < ledger);
        }
        assert forall|i: int| first_from(s, ledger) <= i < s.len() implies (#[trigger] s[i]).ledger
            >= ledger by {
            if i < t.len() {
                assert(t[i].ledger >= ledger);
            }
        }
    } else if s.len() > 0 {
        assert forall|i: int| 0 <= i < s.len() implies (#[trigger] s[i]).ledger < ledger by {
            if i < s.len() - 1 {
                assert(s[i].ledger < s[s.len() - 1].ledger);
            }
        }
    }
}

/// A page and what follows from its cursor are all that was recorded from the page's start on:
/// walking the cursors misses nothing and repeats nothing.
pub proof fn pages_cover_the_history(s: Seq<PriceHistoryEntry>, cursor: u32, limit: u32)
    requires
        in_ledger_order(s),
        limit > 0,
    ensures
        s.skip(first_from(s, cursor)) == page(s, cursor, limit) + (match next_cursor(s, cursor, limit) {
            Some(c) => s.skip(first_from(s, c)),
            None => Seq::empty(),
        }),
        next_cursor(s, cursor, limit) matches Some(c) ==> c > cursor,
{
    lemma_first_from(s, cursor);
    let k = first_from(s, cursor);
    let end = page_end(s.len(), k, limit);
    if end < s.len() {
        let c = s[end].ledger;
        lemma_first_from(s, c);
        let j = first_from(s, c);
        if j < end {
            assert(s[j].ledger < s[end].ledger);
        }
        if j > end {
            assert(s[end].ledger < c);
        }
        assert(s[k].ledger >= cursor);
        assert(s[k].ledger < s[end].ledger);
        assert(s.skip(k) =~= s.subrange(k, end) + s.skip(end));
    } else {
        assert(s.skip(k) =~= s.subrange(k, end) + Seq::<PriceHistoryEntry>::empty());
    }
}

/// A recorded price as it leaves the contract.
#[derive(Clone, Copy, Debug, PartialEq, Eq, Structural)]
pub struct ExportedEntry {
    pub price: i128,
    pub timestamp: u64,
    pub ledger: u32,
    pub num_sources: u32,
}

/// Recorded prices of one asset, with a hash by which they can be checked.
#[derive(Debug)]
pub struct ExportedHistorySnapshot {
    pub asset: Address,
    /// The ledger from which the export starts.
    pub from_ledger: u32,
    /// The ledger of the last exported entry; `from_ledger` where there is none.
    pub to_ledger: u32,
    pub entries: Vec<ExportedEntry>,
    pub data_hash: u64,
    /// Where the next export starts, if there is more.
    pub next_cursor: Option<u32>,
}

/// An entry as it leaves the contract.
pub open spec fn exported(e: PriceHistoryEntry) -> ExportedEntry {
    ExportedEntry {
        price: e.price,
        timestamp: e.timestamp,
        ledger: e.ledger,
        num_sources: e.num_sources,
    }
}

/// One entry folded into a word: the halves of its price, its time and its ledger.
pub open spec fn word_of(e: ExportedEntry) -> u64 {
    (e.price as u64) ^ ((e.price >> 64) as u64) ^ e.timestamp ^ (e.ledger as u64)
}

/// The words of all entries, folded into one.
pub open spec fn hash_of(s: Seq<ExportedEntry>) -> u64
    decreases s.len(),
{
    if s.len() == 0 {
        0
    } else {
        hash_of(s.drop_last()) ^ word_of(s.last())
    }
}

fn word(e: &ExportedEntry) -> (r: u64)
    ensures
        r == word_of(*e),
{
    (e.price as u64) ^ ((e.price >> 64) as u64) ^ e.timestamp ^ (e.ledger as u64)
}

proof fn lemma_range(s: Seq<PriceHistoryEntry>, from: u32, to: u32, i: int, e: int)
    requires
        0 <= i <= e <= s.len(),
        forall|m: int| 0 <= m < i ==> (#[trigger] s[m]).ledger < from,
        forall|m: int| i <= m < s.len() ==> (#[trigger] s[m]).ledger >= from,
        forall|m: int| 0 <= m < e ==> (#[trigger] s[m]).ledger <= to,
        forall|m: int| e <= m < s.len() ==> (#[trigger] s[m]).ledger > to,
    ensures
        in_range(s, from, to) == s.subrange(i, e),
    decreases s.len(),
{
    let pred = |x: PriceHistoryEntry| from <= x.ledger <= to;
    reveal(Seq::filter);
    if s.len() == 0 {
        assert(s.subrange(i, e) =~= Seq::<PriceHistoryEntry>::empty());
        assert(s.filter(pred) =~= Seq::<PriceHistoryEntry>::empty());
    } else {
        let t = s.drop_last();
        let n = s.len() - 1;
        assert forall|m: int| 0 <= m < n implies #[trigger] t[m] == s[m] by {}
        if e < s.len() {
            lemma_range(t, from, to, i, e);
            assert(s[n].ledger > to);
            assert(t.subrange(i, e) =~= s.subrange(i, e));
        } else if i < s.len() {
            lemma_range(t, from, to, i, e - 1);
            assert(s[n].ledger >= from && s[n].ledger <= to);
            assert(t.subrange(i, e - 1).push(s[n]) =~= s.subrange(i, e));
        } else {
            lemma_range(t, from, to, n, n);
            assert(s[n].ledger < from);
            assert(t.subrange(n, n) =~= s.subrange(i, e));
        }
    }
}

/// An export that holds something passes the check of its own hash, as long as nothing that it
/// covers has changed.
pub proof fn an_export_passes_its_check(s: Seq<PriceHistoryEntry>, from: u32, limit: u32)
    requires
        in_ledger_order(s),
        page(s, from, limit).len() > 0,
    ensures
        in_range(s, from, page(s, from, limit).last().ledger) == page(s, from, limit),
        hash_of(
            in_range(s, from, page(s, from, limit).last().ledger).map_values(
                |e: PriceHistoryEntry| exported(e),
            ),
        ) == hash_of(page(s, from, limit).map_values(|e: PriceHistoryEntry| exported(e))),
{
    lemma_first_from(s, from);
    let k = first_from(s, from);
    let end = page_end(s.len(), k, limit);
    let to = s[end - 1].ledger;
    assert(page(s, from, limit).last() == s[end - 1]);
    assert forall|m: int| 0 <= m < end implies (#[trigger] s[m]).ledger <= to by {
        if m < end - 1 {
            assert(s[m].ledger < s[end - 1].ledger);
        }
    }
    assert forall|m: int| end <= m < s.len() implies (#[trigger] s[m]).ledger > to by {
        assert(s[end - 1].ledger < s[m].ledger);
    }
    lemma_range(s, from, to, k, end);
}

/// The first ledger of the weekly bucket of `ledger`.
pub open spec fn bucket_start(ledger: u32) -> u32 {
    (ledger / WEEK_LEDGERS * WEEK_LEDGERS) as u32
}

/// The last ledger of the weekly bucket of `ledger`.
pub open spec fn bucket_end(ledger: u32) -> u32 {
    let last = ledger / WEEK_LEDGERS * WEEK_LEDGERS + WEEK_LEDGERS - 1;
    if last > u32::MAX {
        u32::MAX
    } else {
        last as u32
    }
}

impl PriceOracleContract {
    /// What was recorded for `asset`, oldest first.
    pub open spec fn history(self, asset: Address) -> Seq<PriceHistoryEntry> {
        history_of(self.price_state().histories, asset)
    }

    /// Whether `asset` can be asked about.
    fn check_known(&self, asset: &Address) -> (r: Option<ErrorCode>)
        ensures
            r == self.unknown_refusal(*asset),
    {
        if self.entered {
            Some(ErrorCode::Reentrancy)
        } else if !self.book.assets.contains_key(asset) {
            Some(ErrorCode::AssetNotRegistered)
        } else {
            None
        }
    }

    /// Why a question about `asset` is refused, if it is.
    pub open spec fn unknown_refusal(self, asset: Address) -> Option<ErrorCode> {
        if self.entered {
            Some(ErrorCode::Reentrancy)
        } else if !self.book.assets@.contains_key(asset) {
            Some(ErrorCode::AssetNotRegistered)
        } else {
            None
        }
    }

    /// What was recorded for `asset` at `ledger`, or an estimate where estimates are allowed.
    pub fn get_historical_price(&self, asset: Address, ledger: u32) -> (r: Result<
        PriceHistoryEntry,
        ErrorCode,
    >)
        ensures
            r == (match self.unknown_refusal(asset) {
                Some(e) => Err(e),
                None => match entry_at(
                    self.history(asset),
                    ledger,
                    self.settings.interpolation_enabled,
                ) {
                    Some(entry) => Ok(entry),
                    None => Err(ErrorCode::NoData),
                },
            }),
            in_ledger_order(self.history(asset)) && prices_positive(self.history(asset)) ==> forall|i: int|
                #![trigger self.history(asset)[i]]
                0 <= i < self.history(asset).len() - 1 && self.history(asset)[i].ledger < ledger
                    < self.history(asset)[i + 1].ledger && self.settings.interpolation_enabled
                    && self.unknown_refusal(asset) is None ==> (r matches Ok(e) && {
                    let a = self.history(asset)[i];
                    let b = self.history(asset)[i + 1];
                    on_the_line(
                        a.price as int,
                        b.price as int,
                        ledger - a.ledger,
                        b.ledger - a.ledger,
                        e.price as int,
                    )
                }),
    {
        proof {
            let s = self.history(asset);
            if in_ledger_order(s) && prices_positive(s) {
                assert forall|i: int|
                    #![trigger s[i]]
                    0 <= i < s.len() - 1 && s[i].ledger < ledger < s[i + 1].ledger implies (entry_at(
                    s,
                    ledger,
                    true,
                ) matches Some(e) && on_the_line(
                    s[i].price as int,
                    s[i + 1].price as int,
                    ledger - s[i].ledger,
                    s[i + 1].ledger - s[i].ledger,
                    e.price as int,
                )) by {
                    an_estimate_lies_on_the_line(s, i, ledger);
                }
            }
        }
        if let Some(e) = self.check_known(&asset) {
            return Err(e);
        }
        let history: &History = match self.book.histories.get(&asset) {
            Some(h) => h,
            None => {
                return Err(ErrorCode::NoData);
            },
        };
        let k: usize = history.first_at_or_after(ledger);
        let n: usize = history.len();
        assert(history@ == self.history(asset));
        if k < n {
            let b: PriceHistoryEntry = history.at(k);
            if b.ledger == ledger {
                return Ok(b);
            }
            if self.settings.interpolation_enabled && k > 0 {
                let a: PriceHistoryEntry = history.at(k - 1);
                let num: u32 = ledger - a.ledger;
                let den: u32 = b.ledger - a.ledger;
                let price: u128 = part_way(a.price as u128, b.price as u128, num, den);
                let time: u128 = part_way(a.timestamp as u128, b.timestamp as u128, num, den);
                return Ok(
                    PriceHistoryEntry {
                        price: price as i128,
                        timestamp: time as u64,
                        ledger,
                        num_sources: a.num_sources,
                        is_interpolated: true,
                    },
                );
            }
        }
        Err(ErrorCode::NoData)
    }

    /// Whether something was recorded for `asset` at `ledger`.
    pub fn has_historical_price(&self, asset: Address, ledger: u32) -> (r: Result<bool, ErrorCode>)
        ensures
            r == self.guarded(
                self.book.assets@.contains_key(asset) && entry_at(
                    self.history(asset),
                    ledger,
                    false,
                ) is Some,
            ),
    {
        if self.entered {
            return Err(ErrorCode::Reentrancy);
        }
        if !self.book.assets.contains_key(&asset) {
            return Ok(false);
        }
        match self.book.histories.get(&asset) {
            Some(history) => {
                let k: usize = history.first_at_or_after(ledger);
                Ok(k < history.len() && history.at(k).ledger == ledger)
            },
            None => Ok(false),
        }
    }

    /// What was recorded for `asset` from `start_ledger` to `end_ledger`, both included. The
    /// range must not be longer than the history may be.
    pub fn get_historical_prices(&self, asset: Address, start_ledger: u32, end_ledger: u32) -> (r: Result<
        Vec<PriceHistoryEntry>,
        ErrorCode,
    >)
        ensures
            match r {
                Err(e) => Some(e) == (if self.unknown_refusal(asset) is Some {
                    self.unknown_refusal(asset)
                } else if end_ledger - start_ledger > self.config.max_history_length {
                    Some(ErrorCode::NoData)
                } else {
                    None
                }),
                Ok(list) => self.unknown_refusal(asset) is None && end_ledger - start_ledger
                    <= self.config.max_history_length && list@ == in_range(
                    self.history(asset),
                    start_ledger,
                    end_ledger,
                ),
            },
    {
        if let Some(e) = self.check_known(&asset) {
            return Err(e);
        }
        if end_ledger > start_ledger && end_ledger - start_ledger > self.config.max_history_length {
            return Err(ErrorCode::NoData);
        }
        Ok(self.recorded_between(&asset, start_ledger, end_ledger))
    }

    fn recorded_between(&self, asset: &Address, from: u32, to: u32) -> (r: Vec<PriceHistoryEntry>)
        ensures
            r@ == in_range(self.history(*asset), from, to),
    {
        match self.book.histories.get(asset) {
            Some(h) => h.range(from, to),
            None => {
                proof {
                    reveal(Seq::filter);
                    assert(in_range(self.history(*asset), from, to) =~= Seq::empty());
                }
                Vec::new()
            },
        }
    }

    /// At most `limit` entries from the first at or after `cursor`, and where the next start.
    fn page_of(&self, asset: &Address, cursor: u32, limit: u32) -> (r: (
        Vec<PriceHistoryEntry>,
        Option<u32>,
    ))
        ensures
            r.0@ == page(self.history(*asset), cursor, limit),
            r.1 == next_cursor(self.history(*asset), cursor, limit),
    {
        let ghost s = self.history(*asset);
        let mut list: Vec<PriceHistoryEntry> = Vec::new();
        match self.book.histories.get(asset) {
            Some(history) => {
                let start: usize = history.first_at_or_after(cursor);
                let n: usize = history.len();
                let mut k: usize = start;
                while k < n && list.len() < limit as usize
                    invariant
                        s == history@,
                        n == s.len(),
                        start <= k <= n,
                        k - start == list@.len(),
                        list@.len() <= limit,
                        list@ == s.subrange(start as int, k as int),
                    decreases n - k,
                {
                    list.push(history.at(k));
                    k += 1;
                    assert(list@ =~= s.subrange(start as int, k as int));
                }
                let next: Option<u32> = if k < n {
                    Some(history.at(k).ledger)
                } else {
                    None
                };
                (list, next)
            },
            None => {
                assert(list@ =~= page(s, cursor, limit));
                (list, None)
            },
        }
    }

    /// A page of what was recorded for `asset`: at most `limit` entries from the first at or
    /// after `cursor`, and the cursor of the next page if there is more.
    pub fn get_historical_prices_paginated(&self, asset: Address, cursor: u32, limit: u32) -> (r: Result<
        (Vec<PriceHistoryEntry>, Option<u32>),
        ErrorCode,
    >)
        ensures
            match r {
                Err(e) => Some(e) == (if self.unknown_refusal(asset) is Some {
                    self.unknown_refusal(asset)
                } else if limit == 0 || limit > MAX_PAGE_SIZE {
                    Some(ErrorCode::InvalidPageSize)
                } else {
                    None
                }),
                Ok((list, next)) => self.unknown_refusal(asset) is None && 0 < limit <= MAX_PAGE_SIZE
                    && list@ == page(self.history(asset), cursor, limit) && next == next_cursor(
                    self.history(asset),
                    cursor,
                    limit,
                ),
            },
    {
        if let Some(e) = self.check_known(&asset) {
            return Err(e);
        }
        if limit == 0 || limit > MAX_PAGE_SIZE {
            return Err(ErrorCode::InvalidPageSize);
        }
        Ok(self.page_of(&asset, cursor, limit))
    }

    /// What was recorded for `asset` from the ledger `from` on, oldest first, at most `limit`
    /// entries and never more than a thousand; nothing for an asset that is not registered.
    pub fn price_history(&self, asset: Address, from: Option<u32>, limit: Option<u32>) -> (r: Vec<
        PriceHistoryEntry,
    >)
        ensures
            r@ == (if self.book.assets@.contains_key(asset) {
                page(
                    self.history(asset),
                    match from {
                        Some(l) => l,
                        None => 0,
                    },
                    match limit {
                        Some(n) => if n < MAX_HISTORY_ANSWER {
                            n
                        } else {
                            MAX_HISTORY_ANSWER
                        },
                        None => MAX_HISTORY_ANSWER,
                    },
                )
            } else {
                Seq::empty()
            }),
    {
        if !self.book.assets.contains_key(&asset) {
            return Vec::new();
        }
        let cursor: u32 = match from {
            Some(l) => l,
            None => 0,
        };
        let most: u32 = match limit {
            Some(n) => if n < MAX_HISTORY_ANSWER {
                n
            } else {
                MAX_HISTORY_ANSWER
            },
            None => MAX_HISTORY_ANSWER,
        };
        let (list, _) = self.page_of(&asset, cursor, most);
        list
    }

    fn prepare_export(list: &Vec<PriceHistoryEntry>) -> (r: (Vec<ExportedEntry>, u64))
        ensures
            r.0@ == list@.map_values(|e: PriceHistoryEntry| exported(e)),
            r.1 == hash_of(r.0@),
    {
        let ghost all = list@.map_values(|e: PriceHistoryEntry| exported(e));
        let mut entries: Vec<ExportedEntry> = Vec::new();
        let mut hash: u64 = 0;
        let mut i: usize = 0;
        while i < list.len()
            invariant
                i <= list@.len(),
                all == list@.map_values(|e: PriceHistoryEntry| exported(e)),
                entries@ == all.take(i as int),
                hash == hash_of(entries@),
            decreases list@.len() - i,
        {
            let e: PriceHistoryEntry = list[i];
            let x = ExportedEntry {
                price: e.price,
                timestamp: e.timestamp,
                ledger: e.ledger,
                num_sources: e.num_sources,
            };
            hash = hash ^ word(&x);
            let ghost before = entries@;
            entries.push(x);
            i += 1;
            assert(entries@.drop_last() =~= before);
            assert(entries@ =~= all.take(i as int));
        }
        assert(entries@ =~= all);
        (entries, hash)
    }

    /// Exports what was recorded for `asset` from `from_ledger` on, at most `limit` entries.
    pub fn export_history(&self, asset: Address, from_ledger: u32, limit: u32) -> (r: Result<
        ExportedHistorySnapshot,
        ErrorCode,
    >)
        ensures
            match r {
                Err(e) => Some(e) == (if self.unknown_refusal(asset) is Some {
                    self.unknown_refusal(asset)
                } else if limit == 0 || limit > MAX_EXPORT {
                    Some(ErrorCode::ExportLimitExceeded)
                } else {
                    None
                }),
                Ok(x) => {
                    let entries = page(self.history(asset), from_ledger, limit);
                    &&& self.unknown_refusal(asset) is None
                    &&& 0 < limit <= MAX_EXPORT
                    &&& x.asset == asset
                    &&& x.from_ledger == from_ledger
                    &&& x.to_ledger == (if entries.len() > 0 {
                        entries.last().ledger
                    } else {
                        from_ledger
                    })
                    &&& x.entries@ == entries.map_values(|e: PriceHistoryEntry| exported(e))
                    &&& x.data_hash == hash_of(x.entries@)
                    &&& x.next_cursor == next_cursor(self.history(asset), from_ledger, limit)
                },
            },
    {
        if let Some(e) = self.check_known(&asset) {
            return Err(e);
        }
        if limit == 0 || limit > MAX_EXPORT {
            return Err(ErrorCode::ExportLimitExceeded);
        }
        let (list, next_cursor) = self.page_of(&asset, from_ledger, limit);
        let to_ledger: u32 = if list.len() > 0 {
            list[list.len() - 1].ledger
        } else {
            from_ledger
        };
        let (entries, data_hash) = Self::prepare_export(&list);
        Ok(
            ExportedHistorySnapshot {
                asset,
                from_ledger,
                to_ledger,
                entries,
                data_hash,
                next_cursor,
            },
        )
    }

    /// Whether what was recorded for `asset` from `from_ledger` to `to_ledger` has the hash
    /// `expected_data_hash`.
    pub fn verify_export(
        &self,
        asset: Address,
        from_ledger: u32,
        to_ledger: u32,
        expected_data_hash: u64,
    ) -> (r: Result<bool, ErrorCode>)
        ensures
            r == (match self.unknown_refusal(asset) {
                Some(e) => Err(e),
                None => {
                    let entries = in_range(self.history(asset), from_ledger, to_ledger);
                    if entries.len() == 0 {
                        Err(ErrorCode::ExportNotFound)
                    } else {
                        Ok(
                            expected_data_hash == hash_of(
                                entries.map_values(|e: PriceHistoryEntry| exported(e)),
                            ),
                        )
                    }
                },
            }),
    {
        if let Some(e) = self.check_known(&asset) {
            return Err(e);
        }
        let list: Vec<PriceHistoryEntry> = self.recorded_between(&asset, from_ledger, to_ledger);
        if list.len() == 0 {
            return Err(ErrorCode::ExportNotFound);
        }
        let (_, hash) = Self::prepare_export(&list);
        Ok(hash == expected_data_hash)
    }

    /// Allows or forbids estimates between recorded prices.
    pub fn set_interpolation_enabled(&mut self, env: &Env, enabled: bool) -> (r: Result<(), ErrorCode>)
        ensures
            r == reply(old(self).admin_refusal(*env)),
            *final(self) == (if r is Ok {
                PriceOracleContract {
                    settings: Settings { interpolation_enabled: enabled, ..old(self).settings },
                    ..*old(self)
                }
            } else {
                *old(self)
            }),
    {
        if let Some(e) = self.check_admin(env) {
            return Err(e);
        }
        self.settings.interpolation_enabled = enabled;
        Ok(())
    }

    /// Whether estimates between recorded prices are allowed.
    pub fn get_interpolation_enabled(&self) -> (r: bool)
        ensures
            r == self.settings.interpolation_enabled,
    {
        self.settings.interpolation_enabled
    }

    /// Sets how near recorded prices must lie to be merged, in ten-thousandths; `0` for never. They
    /// are merged when another price is recorded, and by [`Self::compact_history`].
    pub fn set_compaction_threshold_bps(&mut self, env: &Env, threshold_bps: u32) -> (r: Result<
        (),
        ErrorCode,
    >)
        ensures
            r == reply(old(self).guarded_admin_refusal(*env)),
            *final(self) == (if r is Ok {
                PriceOracleContract {
                    settings: Settings { compaction_threshold_bps: threshold_bps, ..old(self).settings },
                    ..*old(self)
                }
            } else {
                *old(self)
            }),
    {
        if let Some(e) = self.check_guarded_admin(env) {
            return Err(e);
        }
        self.settings.compaction_threshold_bps = threshold_bps;
        Ok(())
    }

    /// How near recorded prices must lie to be merged, in ten-thousandths; `0` for never.
    pub fn get_compaction_threshold_bps(&self) -> (r: u32)
        ensures
            r == self.settings.compaction_threshold_bps,
    {
        self.settings.compaction_threshold_bps
    }

    /// Drops what was recorded for `asset` and lies nearer to the entry before than the
    /// threshold; the first and the last entry always stay.
    pub fn compact_history(&mut self, env: &Env, asset: Address) -> (r: Result<
        CompactionMetadata,
        ErrorCode,
    >)
        ensures
            match r {
                Err(e) => *final(self) == *old(self) && Some(e) == (if old(self).guarded_admin_refusal(
                    *env,
                ) is Some {
                    old(self).guarded_admin_refusal(*env)
                } else if !old(self).book.assets@.contains_key(asset) {
                    Some(ErrorCode::AssetNotRegistered)
                } else {
                    None
                }),
                Ok(m) => {
                    let before = old(self).history(asset);
                    let after = thinned(before, old(self).settings.compaction_threshold_bps);
                    &&& old(self).guarded_admin_refusal(*env) is None
                    &&& old(self).book.assets@.contains_key(asset)
                    &&& final(self).price_state() == (PriceState {
                        histories: if old(self).book.histories@.contains_key(asset) {
                            old(self).price_state().histories.insert(asset, after)
                        } else {
                            old(self).price_state().histories
                        },
                        ..old(self).price_state()
                    })
                    &&& m == (CompactionMetadata {
                        entries_before: before.len() as u32,
                        entries_after: after.len() as u32,
                        ledger: env.ledger,
                    })
                    &&& final(self).compactions@ == old(self).compactions@.insert(asset, m)
                },
            },
            *final(self) == (PriceOracleContract {
                book: PriceBook { histories: final(self).book.histories, ..old(self).book },
                compactions: final(self).compactions,
                ..*old(self)
            }),
    {
        if let Some(e) = self.check_guarded_admin(env) {
            return Err(e);
        }
        if !self.book.assets.contains_key(&asset) {
            return Err(ErrorCode::AssetNotRegistered);
        }
        let ghost pre = self.price_state().histories;
        let mut entries_before: u32 = 0;
        let mut entries_after: u32 = 0;
        match self.book.histories.remove(&asset) {
            Some(h) => {
                let mut history: History = h;
                entries_before = history.len() as u32;
                history.thin(self.settings.compaction_threshold_bps);
                entries_after = history.len() as u32;
                let ghost after = history@;
                self.book.histories.insert(asset, history);
                assert(self.price_state().histories =~= pre.insert(asset, after));
            },
            None => {
                assert(self.price_state().histories =~= pre);
            },
        }
        let m = CompactionMetadata { entries_before, entries_after, ledger: env.ledger };
        self.compactions.insert(asset, m);
        Ok(m)
    }

    /// What the last compaction of `asset` did, if there was one.
    pub fn get_compaction_metadata(&self, asset: Address) -> (r: Option<CompactionMetadata>)
        ensures
            r == crate::price_book::lookup(self.compactions@, asset),
    {
        match self.compactions.get(&asset) {
            Some(m) => Some(*m),
            None => None,
        }
    }

    /// The ledger up to which what was recorded for `asset` lies in weekly buckets, and one
    /// beyond it.
    pub open spec fn unsharded_from(self, asset: Address) -> u32 {
        if self.sharded_upto@.contains_key(asset) {
            if self.sharded_upto@[asset] < u32::MAX {
                (self.sharded_upto@[asset] + 1) as u32
            } else {
                u32::MAX
            }
        } else {
            0
        }
    }

    /// Puts what was recorded for `asset` into weekly buckets, and tells how many entries were
    /// not there yet. Nothing that was recorded is lost.
    pub fn migrate_history_to_shards(&mut self, env: &Env, asset: Address) -> (r: Result<u32, ErrorCode>)
        ensures
            match r {
                Err(e) => *final(self) == *old(self) && Some(e) == (if old(self).guarded_admin_refusal(
                    *env,
                ) is Some {
                    old(self).guarded_admin_refusal(*env)
                } else if !old(self).book.assets@.contains_key(asset) {
                    Some(ErrorCode::AssetNotRegistered)
                } else {
                    None
                }),
                Ok(n) => {
                    let h = old(self).history(asset);
                    &&& old(self).guarded_admin_refusal(*env) is None
                    &&& old(self).book.assets@.contains_key(asset)
                    &&& n == (h.len() - first_from(h, old(self).unsharded_from(asset))) as u32
                    &&& final(self).sharded_upto@ == (if h.len() > 0 && h.last().ledger
                        >= old(self).unsharded_from(asset) {
                        old(self).sharded_upto@.insert(asset, h.last().ledger)
                    } else {
                        old(self).sharded_upto@
                    })
                },
            },
            *final(self) == (PriceOracleContract {
                sharded_upto: final(self).sharded_upto,
                ..*old(self)
            }),
    {
        if let Some(e) = self.check_guarded_admin(env) {
            return Err(e);
        }
        if !self.book.assets.contains_key(&asset) {
            return Err(ErrorCode::AssetNotRegistered);
        }
        let from: u32 = match self.sharded_upto.get(&asset) {
            Some(l) => if *l < u32::MAX {
                *l + 1
            } else {
                u32::MAX
            },
            None => 0,
        };
        match self.book.histories.get(&asset) {
            Some(history) => {
                let start: usize = history.first_at_or_after(from);
                let n: usize = history.len();
                if n == 0 {
                    return Ok(0);
                }
                let last: u32 = history.at(n - 1).ledger;
                if last >= from {
                    self.sharded_upto.insert(asset, last);
                }
                Ok((n - start) as u32)
            },
            None => Ok(0),
        }
    }

    /// What was recorded for `asset` in the week of ledgers around `ledger`.
    pub fn get_bucket_entries(&self, asset: Address, ledger: u32) -> (r: Result<
        Vec<PriceHistoryEntry>,
        ErrorCode,
    >)
        ensures
            match r {
                Err(e) => !self.book.assets@.contains_key(asset) && e == ErrorCode::AssetNotRegistered,
                Ok(list) => self.book.assets@.contains_key(asset) && list@ == in_range(
                    self.history(asset),
                    bucket_start(ledger),
                    bucket_end(ledger),
                ),
            },
    {
        if !self.book.assets.contains_key(&asset) {
            return Err(ErrorCode::AssetNotRegistered);
        }
        let start: u32 = ledger / WEEK_LEDGERS * WEEK_LEDGERS;
        let end: u32 = if u32::MAX - start < WEEK_LEDGERS - 1 {
            u32::MAX
        } else {
            start + (WEEK_LEDGERS - 1)
        };
        Ok(self.recorded_between(&asset, start, end))
    }
}

} // verus!
