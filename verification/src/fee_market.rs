//! Submissions that pay to be served first.

use crate::arith::mul_div;
use crate::contract::PriceOracleContract;
use crate::env::Env;
use crate::error::{refused_if, reply, ErrorCode};
use crate::price_book::{AggregationRules, PriceState};
use crate::table::Table;
use crate::types::{Address, Asset, PriceEntry};
use vstd::prelude::*;

verus! {

/// How many submissions are served together.
pub const BATCH: usize = 20;

/// A submission that waits to be served.
#[derive(Clone, Copy, Debug, PartialEq, Eq)]
pub struct QueuedSubmission {
    pub source: Address,
    pub asset: Address,
    pub price: i128,
    pub timestamp: u64,
    /// What the submission pays.
    pub priority_fee: u128,
}

/// The submissions that wait, and what was earned from them.
#[derive(Debug)]
pub struct FeeMarket {
    /// Those that are served first come first.
    pub queue: Vec<QueuedSubmission>,
    pub min_priority_fee: u128,
    /// The part of a fee that goes to its source, in percent.
    pub distribution_ratio: u32,
    pub source_balances: Table<Address, u128>,
    pub treasury_balance: u128,
    /// Where the treasury's part is paid out.
    pub treasury_address: Option<Address>,
}

/// Whether `a` is served before `b`: it pays more, or as much for an earlier observation.
pub open spec fn served_before(a: QueuedSubmission, b: QueuedSubmission) -> bool {
    a.priority_fee > b.priority_fee || (a.priority_fee == b.priority_fee && a.timestamp < b.timestamp)
}

/// Whether no submission waits behind one that is to be served later.
pub open spec fn in_service_order(s: Seq<QueuedSubmission>) -> bool {
    forall|i: int, j: int| 0 <= i < j < s.len() ==> !served_before(#[trigger] s[j], #[trigger] s[i])
}

/// The queue with `x` behind all that are not to be served later.
pub open spec fn enqueued(s: Seq<QueuedSubmission>, x: QueuedSubmission) -> Seq<QueuedSubmission>
    decreases s.len(),
{
    if s.len() == 0 || !served_before(x, s.last()) {
        s.push(x)
    } else {
        enqueued(s.drop_last(), x).push(s.last())
    }
}

proof fn lemma_enqueued(s: Seq<QueuedSubmission>, x: QueuedSubmission)
    ensures
        enqueued(s, x).len() == s.len() + 1,
        forall|i: int|
            0 <= i < enqueued(s, x).len() ==> #[trigger] enqueued(s, x)[i] == x || s.contains(
                enqueued(s, x)[i],
            ),
    decreases s.len(),
{
    if s.len() > 0 && served_before(x, s.last()) {
        let t = s.drop_last();
        lemma_enqueued(t, x);
        assert forall|i: int| 0 <= i < enqueued(s, x).len() implies #[trigger] enqueued(s, x)[i] == x
            || s.contains(enqueued(s, x)[i]) by {
            if i < enqueued(t, x).len() {
                let y = enqueued(t, x)[i];
                if y != x {
                    assert(t.contains(y));
                    let j = choose|j: int| 0 <= j < t.len() && t[j] == y;
                    assert(s[j] == y);
                }
            } else {
                assert(s[s.len() - 1] == enqueued(s, x)[i]);
            }
        }
    } else {
        assert forall|i: int| 0 <= i < enqueued(s, x).len() implies #[trigger] enqueued(s, x)[i] == x
            || s.contains(enqueued(s, x)[i]) by {
            if i < s.len() {
                assert(s[i] == enqueued(s, x)[i]);
            }
        }
    }
}

/// A queue stays in the order of service when a submission is added.
pub proof fn adding_keeps_the_order_of_service(s: Seq<QueuedSubmission>, x: QueuedSubmission)
    requires
        in_service_order(s),
    ensures
        in_service_order(enqueued(s, x)),
    decreases s.len(),
{
    if s.len() == 0 || !served_before(x, s.last()) {
        assert forall|i: int, j: int| 0 <= i < j < s.push(x).len() implies !served_before(
            #[trigger] s.push(x)[j],
            #[trigger] s.push(x)[i],
        ) by {
            if j == s.len() && i < s.len() - 1 {
                assert(!served_before(s[s.len() - 1], s[i]));
            }
        }
    } else {
        let t = s.drop_last();
        assert forall|i: int, j: int| 0 <= i < j < t.len() implies !served_before(
            #[trigger] t[j],
            #[trigger] t[i],
        ) by {
            assert(!served_before(s[j], s[i]));
        }
        adding_keeps_the_order_of_service(t, x);
        lemma_enqueued(t, x);
        let u = enqueued(t, x);
        let last = s.last();
        assert forall|i: int, j: int| 0 <= i < j < u.push(last).len() implies !served_before(
            #[trigger] u.push(last)[j],
            #[trigger] u.push(last)[i],
        ) by {
            if j == u.len() {
                let y = u[i];
                if y != x {
                    assert(t.contains(y));
                    let k = choose|k: int| 0 <= k < t.len() && t[k] == y;
                    assert(s[k] == y);
                    assert(!served_before(s[s.len() - 1], s[k]));
                }
            } else {
                assert(!served_before(u[j], u[i]));
            }
        }
    }
}

/// What a source gets of a fee.
pub open spec fn source_share(fee: u128, ratio: u32) -> u128 {
    let share = fee * ratio / 100;
    if share > fee {
        fee
    } else {
        share as u128
    }
}

/// What the treasury gets of a fee.
pub open spec fn treasury_share(fee: u128, ratio: u32) -> u128 {
    (fee - source_share(fee, ratio)) as u128
}

/// The two shares of a fee are the whole fee.
pub proof fn shares_add_up(fee: u128, ratio: u32)
    ensures
        source_share(fee, ratio) + treasury_share(fee, ratio) == fee,
{
    assert(0 <= fee * ratio / 100) by (nonlinear_arith)
        requires
            0 <= fee,
            0 <= ratio,
    ;
}

/// The sum of two amounts, up to the largest that there is.
pub open spec fn sum_up_to_max(a: u128, b: u128) -> u128 {
    if a + b > u128::MAX {
        u128::MAX
    } else {
        (a + b) as u128
    }
}

fn sum_capped(a: u128, b: u128) -> (r: u128)
    ensures
        r == sum_up_to_max(a, b),
{
    if a > u128::MAX - b {
        u128::MAX
    } else {
        a + b
    }
}

/// What stands under `k` in a table of amounts.
pub open spec fn amount_of(m: Map<Address, u128>, k: Address) -> u128 {
    if m.contains_key(k) {
        m[k]
    } else {
        0
    }
}

/// The entry that a served submission stores.
pub open spec fn queued_entry(x: QueuedSubmission, ledger: u32) -> PriceEntry {
    PriceEntry { source: x.source, asset: x.asset, price: x.price, timestamp: x.timestamp, ledger }
}

/// What serving submissions changes.
#[verifier::ext_equal]
pub struct MarketState {
    pub prices: PriceState,
    pub source_balances: Map<Address, u128>,
    pub treasury_balance: u128,
}

impl PriceOracleContract {
    /// What serving submissions changes, before any is accepted.
    pub open spec fn market_state(self) -> MarketState {
        MarketState {
            prices: self.price_state(),
            source_balances: self.fee_market.source_balances@,
            treasury_balance: self.fee_market.treasury_balance,
        }
    }

    /// Whether a submission is accepted when it is served.
    pub open spec fn serves(self, env: Env, x: QueuedSubmission) -> bool {
        self.direct_refusal(env, x.source, x.asset, x.price, x.timestamp) is None
    }

    /// After submissions were served, one after the other: what is accepted is stored and its
    /// fee is shared out, and what is not is dropped.
    pub open spec fn after_serving(self, env: Env, s: Seq<QueuedSubmission>) -> MarketState
        decreases s.len(),
    {
        if s.len() == 0 {
            self.market_state()
        } else {
            let before = self.after_serving(env, s.drop_last());
            let x = s.last();
            let ratio = self.fee_market.distribution_ratio;
            if self.serves(env, x) {
                MarketState {
                    prices: before.prices.submitted(self.rules(env), queued_entry(x, env.ledger)),
                    source_balances: before.source_balances.insert(
                        x.source,
                        sum_up_to_max(
                            amount_of(before.source_balances, x.source),
                            source_share(x.priority_fee, ratio),
                        ),
                    ),
                    treasury_balance: sum_up_to_max(
                        before.treasury_balance,
                        treasury_share(x.priority_fee, ratio),
                    ),
                }
            } else {
                before
            }
        }
    }

    /// Puts a submission into the queue.
    pub fn fm_enqueue_submission(
        &mut self,
        env: &Env,
        source: Address,
        asset: Asset,
        price: u128,
        timestamp: u64,
        priority_fee: u128,
    ) -> (r: Result<(), ErrorCode>)
        ensures
            r == (if old(self).entered {
                Err(ErrorCode::Reentrancy)
            } else if !env.authorizes(source) {
                Err(ErrorCode::NotAuthorized)
            } else if !old(self).sources@.contains_key(source) {
                Err(ErrorCode::SourceNotFound)
            } else if !(asset matches Asset::Stellar(a) && old(self).book.assets@.contains_key(a)) {
                Err(ErrorCode::AssetNotRegistered)
            } else if price == 0 || price > i128::MAX {
                Err(ErrorCode::InvalidPrice)
            } else if priority_fee < old(self).fee_market.min_priority_fee {
                Err(ErrorCode::FeeMarketBelowMinimum)
            } else {
                Ok(())
            }),
            r is Err ==> *final(self) == *old(self),
            r is Ok ==> (asset matches Asset::Stellar(a) && final(self).fee_market.queue@ == enqueued(
                old(self).fee_market.queue@,
                QueuedSubmission { source, asset: a, price: price as i128, timestamp, priority_fee },
            )),
            in_service_order(old(self).fee_market.queue@) ==> in_service_order(
                final(self).fee_market.queue@,
            ),
            *final(self) == (PriceOracleContract {
                fee_market: FeeMarket { queue: final(self).fee_market.queue, ..old(self).fee_market },
                ..*old(self)
            }),
    {
        if self.entered {
            return Err(ErrorCode::Reentrancy);
        }
        if !env.is_authorized_by(&source) {
            return Err(ErrorCode::NotAuthorized);
        }
        if !self.sources.contains_key(&source) {
            return Err(ErrorCode::SourceNotFound);
        }
        let a: Address = match asset {
            Asset::Stellar(a) => a,
            Asset::Other(_) => {
                return Err(ErrorCode::AssetNotRegistered);
            },
        };
        if !self.book.assets.contains_key(&a) {
            return Err(ErrorCode::AssetNotRegistered);
        }
        if price == 0 || price > i128::MAX as u128 {
            return Err(ErrorCode::InvalidPrice);
        }
        if priority_fee < self.fee_market.min_priority_fee {
            return Err(ErrorCode::FeeMarketBelowMinimum);
        }
        let x = QueuedSubmission { source, asset: a, price: price as i128, timestamp, priority_fee };
        let ghost s = self.fee_market.queue@;
        let mut i: usize = self.fee_market.queue.len();
        proof {
            assert(s.take(i as int) =~= s);
            assert(enqueued(s.take(i as int), x) + s.skip(i as int) =~= enqueued(s, x));
        }
        while i > 0 && Self::goes_before(&x, &self.fee_market.queue[i - 1])
            invariant
                i <= s.len(),
                s == self.fee_market.queue@,
                enqueued(s.take(i as int), x) + s.skip(i as int) == enqueued(s, x),
            decreases i,
        {
            proof {
                let t = s.take(i as int);
                assert(t.last() == s[i - 1]);
                assert(t.drop_last() =~= s.take(i - 1));
                assert(enqueued(s.take(i - 1), x).push(s[i - 1]) + s.skip(i as int) =~= enqueued(
                    s.take(i - 1),
                    x,
                ) + s.skip(i - 1));
            }
            i -= 1;
        }
        proof {
            let t = s.take(i as int);
            if i > 0 {
                assert(t.last() == s[i - 1]);
            }
            assert(enqueued(t, x) == t.push(x));
            assert(s.insert(i as int, x) =~= t.push(x) + s.skip(i as int));
            if in_service_order(s) {
                adding_keeps_the_order_of_service(s, x);
            }
        }
        self.fee_market.queue.insert(i, x);
        Ok(())
    }

    fn goes_before(a: &QueuedSubmission, b: &QueuedSubmission) -> (r: bool)
        ensures
            r == served_before(*a, *b),
    {
        a.priority_fee > b.priority_fee || (a.priority_fee == b.priority_fee && a.timestamp
            < b.timestamp)
    }

    /// Serves the submissions at the head of the queue, as many as are served together, and
    /// tells how many these were. Anyone may ask for it.
    pub fn fm_process_fee_market(&mut self, env: &Env) -> (r: Result<u32, ErrorCode>)
        ensures
            match r {
                Err(e) => old(self).entered && e == ErrorCode::Reentrancy && *final(self) == *old(self),
                Ok(n) => {
                    let queue = old(self).fee_market.queue@;
                    let count = if queue.len() < BATCH {
                        queue.len() as int
                    } else {
                        BATCH as int
                    };
                    let after = old(self).after_serving(*env, queue.take(count));
                    &&& !old(self).entered
                    &&& final(self).fee_market.queue@ == queue.skip(count)
                    &&& n == count
                    &&& final(self).price_state() == after.prices
                    &&& final(self).fee_market.source_balances@ == after.source_balances
                    &&& final(self).fee_market.treasury_balance == after.treasury_balance
                },
            },
            *final(self) == (PriceOracleContract {
                book: final(self).book,
                events: final(self).events,
                fee_market: FeeMarket {
                    queue: final(self).fee_market.queue,
                    source_balances: final(self).fee_market.source_balances,
                    treasury_balance: final(self).fee_market.treasury_balance,
                    ..old(self).fee_market
                },
                ..*old(self)
            }),
    {
        if self.entered {
            return Err(ErrorCode::Reentrancy);
        }
        let ghost queue = self.fee_market.queue@;
        let count: usize = if self.fee_market.queue.len() < BATCH {
            self.fee_market.queue.len()
        } else {
            BATCH
        };
        let mut i: usize = 0;
        proof {
            assert(queue.take(0) =~= Seq::<QueuedSubmission>::empty());
            assert(queue.skip(0) =~= queue);
        }
        while i < count
            invariant
                i <= count <= BATCH,
                count <= queue.len(),
                queue == old(self).fee_market.queue@,
                self.fee_market.queue@ == queue.skip(i as int),
                self.price_state() == old(self).after_serving(*env, queue.take(i as int)).prices,
                self.fee_market.source_balances@ == old(self).after_serving(
                    *env,
                    queue.take(i as int),
                ).source_balances,
                self.fee_market.treasury_balance == old(self).after_serving(
                    *env,
                    queue.take(i as int),
                ).treasury_balance,
                forall|x: QueuedSubmission| #[trigger] self.serves(*env, x) == old(self).serves(*env, x),
                self.rules(*env) == old(self).rules(*env),
                self.book.assets@.dom() == old(self).book.assets@.dom(),
                *self == (PriceOracleContract {
                    book: self.book,
                    events: self.events,
                    fee_market: FeeMarket {
                        queue: self.fee_market.queue,
                        source_balances: self.fee_market.source_balances,
                        treasury_balance: self.fee_market.treasury_balance,
                        ..old(self).fee_market
                    },
                    ..*old(self)
                }),
            decreases count - i,
        {
            let x: QueuedSubmission = self.fee_market.queue.remove(0);
            proof {
                assert(x == queue[i as int]);
                assert(self.fee_market.queue@ =~= queue.skip(i + 1));
                assert(queue.take(i + 1).drop_last() =~= queue.take(i as int));
                assert(queue.take(i + 1).last() == x);
                assert(old(self).serves(*env, x) == self.serves(*env, x));
            }
            if self.check_direct(env, &x.source, &x.asset, x.price, x.timestamp).is_none() {
                self.take_price(
                    env,
                    PriceEntry {
                        source: x.source,
                        asset: x.asset,
                        price: x.price,
                        timestamp: x.timestamp,
                        ledger: env.ledger,
                    },
                );
                self.share_out(&x);
            }
            i += 1;
        }
        Ok(count as u32)
    }

    fn share_out(&mut self, x: &QueuedSubmission)
        ensures
            final(self).fee_market.source_balances@ == old(self).fee_market.source_balances@.insert(
                x.source,
                sum_up_to_max(
                    amount_of(old(self).fee_market.source_balances@, x.source),
                    source_share(x.priority_fee, old(self).fee_market.distribution_ratio),
                ),
            ),
            final(self).fee_market.treasury_balance == sum_up_to_max(
                old(self).fee_market.treasury_balance,
                treasury_share(x.priority_fee, old(self).fee_market.distribution_ratio),
            ),
            *final(self) == (PriceOracleContract {
                fee_market: FeeMarket {
                    source_balances: final(self).fee_market.source_balances,
                    treasury_balance: final(self).fee_market.treasury_balance,
                    ..old(self).fee_market
                },
                ..*old(self)
            }),
    {
        let fee: u128 = x.priority_fee;
        let share: u128 = match mul_div(fee, self.fee_market.distribution_ratio as u128, 100) {
            Some(s) => if s > fee {
                fee
            } else {
                s
            },
            None => fee,
        };
        let held: u128 = self.fm_get_source_fee_balance(x.source);
        self.fee_market.source_balances.insert(x.source, sum_capped(held, share));
        self.fee_market.treasury_balance = sum_capped(self.fee_market.treasury_balance, fee - share);
    }

    /// How many submissions wait.
    pub fn fm_get_pending_submissions(&self) -> (r: u32)
        ensures
            r == (if self.fee_market.queue@.len() > u32::MAX {
                u32::MAX as nat
            } else {
                self.fee_market.queue@.len()
            }),
    {
        if self.fee_market.queue.len() > u32::MAX as usize {
            u32::MAX
        } else {
            self.fee_market.queue.len() as u32
        }
    }

    /// What `source` has earned.
    pub fn fm_get_source_fee_balance(&self, source: Address) -> (r: u128)
        ensures
            r == amount_of(self.fee_market.source_balances@, source),
    {
        match self.fee_market.source_balances.get(&source) {
            Some(b) => *b,
            None => 0,
        }
    }

    /// What the treasury has earned.
    pub fn fm_get_treasury_fee_balance(&self) -> (r: u128)
        ensures
            r == self.fee_market.treasury_balance,
    {
        self.fee_market.treasury_balance
    }

    /// Sets the least fee.
    pub fn fm_set_min_priority_fee(&mut self, env: &Env, min_fee: u128) -> (r: Result<(), ErrorCode>)
        ensures
            r == reply(old(self).admin_refusal(*env)),
            *final(self) == (if r is Ok {
                PriceOracleContract {
                    fee_market: FeeMarket { min_priority_fee: min_fee, ..old(self).fee_market },
                    ..*old(self)
                }
            } else {
                *old(self)
            }),
    {
        if let Some(e) = self.check_admin(env) {
            return Err(e);
        }
        self.fee_market.min_priority_fee = min_fee;
        Ok(())
    }

    /// The least fee.
    pub fn fm_get_min_priority_fee(&self) -> (r: u128)
        ensures
            r == self.fee_market.min_priority_fee,
    {
        self.fee_market.min_priority_fee
    }

    /// Sets the part of a fee that goes to its source, in percent.
    pub fn fm_set_fee_distribution_ratio(&mut self, env: &Env, ratio: u32) -> (r: Result<(), ErrorCode>)
        ensures
            r == reply(
                refused_if(
                    old(self).admin_refusal(*env),
                    ratio > 100,
                    ErrorCode::InvalidConfiguration,
                ),
            ),
            *final(self) == (if r is Ok {
                PriceOracleContract {
                    fee_market: FeeMarket { distribution_ratio: ratio, ..old(self).fee_market },
                    ..*old(self)
                }
            } else {
                *old(self)
            }),
    {
        if let Some(e) = self.check_admin(env) {
            return Err(e);
        }
        if ratio > 100 {
            return Err(ErrorCode::InvalidConfiguration);
        }
        self.fee_market.distribution_ratio = ratio;
        Ok(())
    }

    /// The part of a fee that goes to its source, in percent.
    pub fn fm_get_fee_distribution_ratio(&self) -> (r: u32)
        ensures
            r == self.fee_market.distribution_ratio,
    {
        self.fee_market.distribution_ratio
    }

    /// Sets where the treasury's part is paid out.
    pub fn fm_set_treasury_address(&mut self, env: &Env, treasury: Address) -> (r: Result<(), ErrorCode>)
        ensures
            r == reply(old(self).admin_refusal(*env)),
            *final(self) == (if r is Ok {
                PriceOracleContract {
                    fee_market: FeeMarket { treasury_address: Some(treasury), ..old(self).fee_market },
                    ..*old(self)
                }
            } else {
                *old(self)
            }),
    {
        if let Some(e) = self.check_admin(env) {
            return Err(e);
        }
        self.fee_market.treasury_address = Some(treasury);
        Ok(())
    }
}

} // verus!
