//! Relayers, which submit prices on behalf of sources, and their bonds.

use crate::aggregation::{capped_deviation, deviation_bps};
use crate::arith::mul_div;
use crate::contract::PriceOracleContract;
use crate::env::Env;
use crate::error::{refused_if, reply, ErrorCode};
use crate::events::Transfer;
use crate::price_book::{lookup, AggregationRules, PriceState};
use crate::table::Table;
use crate::types::{Address, PriceEntry, VersionedAggregatePrice};
use vstd::prelude::*;

verus! {

/// How many submissions one batch may hold.
pub const MAX_BATCH_SIZE: usize = 50;

/// The accuracy of a price that equals the aggregate, in ten-thousandths.
pub const FULL_ACCURACY_BPS: u32 = 10_000;

/// A hundred percent.
pub const FULL_PERCENT: u32 = 100;

/// What is known of a relayer.
#[derive(Debug)]
pub struct RelayerInfo {
    pub name: String,
    /// The ledger in which the relayer was approved.
    pub approved_ledger: u32,
}

/// What a relayer did wrong.
#[derive(Clone, Copy, Debug, PartialEq, Eq, Structural)]
pub enum RelayerFailureReason {
    UnauthorizedPrice,
    InvalidSubmission,
    Other,
}

/// One submission of a relayed batch.
#[derive(Clone, Copy, Debug, PartialEq, Eq)]
pub struct RelayedSubmission {
    pub source: Address,
    pub asset: Address,
    pub price: i128,
    pub timestamp: u64,
    /// What the source pays to be served first.
    pub priority_fee: i128,
}

/// The relayers and what they have to their credit.
#[derive(Debug)]
pub struct Relayers {
    /// The approved relayers.
    pub approved: Table<Address, RelayerInfo>,
    /// What a relayer earns with a submission.
    pub fee_per_submission: i128,
    pub fee_balances: Table<Address, i128>,
    pub submission_counts: Table<Address, u64>,
    /// How many prices a relayer has submitted for an asset.
    pub asset_counts: Table<(Address, Address), u64>,
    /// The seconds that lay between the observation and the submission of a relayer's prices,
    /// all together.
    pub latencies: Table<Address, u64>,
    /// The bond that a relayer must deposit.
    pub bond_amount: i128,
    pub bonds: Table<Address, i128>,
    pub failures: Table<Address, u32>,
    /// The part of a bond that is slashed, in percent.
    pub slash_percent: u32,
    /// How many failures allow a bond to be slashed.
    pub failure_threshold: u32,
    /// What a relayer earns beside the fee with a submission of full accuracy; zero for nothing.
    pub reward_rate: i128,
    pub reward_balances: Table<Address, i128>,
    /// The token in which bonds are paid.
    pub stake_token: Option<Address>,
    /// What was slashed.
    pub treasury: i128,
}

/// What stands under `k` in a table of balances.
pub open spec fn balance_of(m: Map<Address, i128>, k: Address) -> i128 {
    if m.contains_key(k) {
        m[k]
    } else {
        0
    }
}

/// What stands under `k` in a table of balances.
pub fn balance(t: &Table<Address, i128>, k: &Address) -> (r: i128)
    ensures
        r == balance_of(t@, *k),
{
    match t.get(k) {
        Some(b) => *b,
        None => 0,
    }
}

/// A balance after a fee above zero was added, up to the largest balance that there is.
pub open spec fn credited(b: i128, fee: i128) -> i128 {
    if fee <= 0 {
        b
    } else if b + fee > i128::MAX {
        i128::MAX
    } else {
        (b + fee) as i128
    }
}

/// A balance after a fee above zero was added, up to the largest balance that there is.
pub fn credit(b: i128, fee: i128) -> (r: i128)
    ensures
        r == credited(b, fee),
{
    if fee <= 0 {
        b
    } else if b > i128::MAX - fee {
        i128::MAX
    } else {
        b + fee
    }
}

/// A balance after `n` fees were added.
pub open spec fn credited_times(b: i128, fee: i128, n: int) -> i128
    decreases n,
{
    if n <= 0 {
        b
    } else {
        credited(credited_times(b, fee, n - 1), fee)
    }
}

/// A count after one more.
pub open spec fn counted(n: u64) -> u64 {
    if n == u64::MAX {
        n
    } else {
        (n + 1) as u64
    }
}

/// A count after `n` more.
pub open spec fn counted_times(c: u64, n: int) -> u64
    decreases n,
{
    if n <= 0 {
        c
    } else {
        counted(counted_times(c, n - 1))
    }
}

/// The seconds from an observation to its submission.
pub open spec fn latency_of(now: u64, timestamp: u64) -> u64 {
    if now > timestamp {
        (now - timestamp) as u64
    } else {
        0
    }
}

/// A number of seconds after some more, up to the largest number that there is.
pub open spec fn lengthened(a: u64, b: u64) -> u64 {
    if a + b > u64::MAX {
        u64::MAX
    } else {
        (a + b) as u64
    }
}

/// What stands under `k` in a table of counts.
pub open spec fn count_of<K>(m: Map<K, u64>, k: K) -> u64 {
    if m.contains_key(k) {
        m[k]
    } else {
        0
    }
}

/// The latencies after `relayer` has submitted `s`.
pub open spec fn latencies_after(
    m: Map<Address, u64>,
    relayer: Address,
    now: u64,
    s: Seq<RelayedSubmission>,
) -> Map<Address, u64>
    decreases s.len(),
{
    if s.len() == 0 {
        m
    } else {
        let before = latencies_after(m, relayer, now, s.drop_last());
        before.insert(
            relayer,
            lengthened(count_of(before, relayer), latency_of(now, s.last().timestamp)),
        )
    }
}

/// The counts by asset after `relayer` has submitted `s`.
pub open spec fn asset_counts_after(
    m: Map<(Address, Address), u64>,
    relayer: Address,
    s: Seq<RelayedSubmission>,
) -> Map<(Address, Address), u64>
    decreases s.len(),
{
    if s.len() == 0 {
        m
    } else {
        let before = asset_counts_after(m, relayer, s.drop_last());
        before.insert(
            (relayer, s.last().asset),
            counted(count_of(before, (relayer, s.last().asset))),
        )
    }
}

/// How accurate a price of `asset` is, in ten-thousandths: what is left of the whole after its
/// distance from the aggregate in force. Where there is no aggregate, every price is accurate.
pub open spec fn accuracy_of(
    aggregates: Map<Address, VersionedAggregatePrice>,
    asset: Address,
    price: i128,
) -> u32 {
    if aggregates.contains_key(asset) && aggregates[asset].aggregate.price > 0 {
        let d = capped_deviation(price, aggregates[asset].aggregate.price);
        if d < FULL_ACCURACY_BPS {
            (FULL_ACCURACY_BPS - d) as u32
        } else {
            0
        }
    } else {
        FULL_ACCURACY_BPS
    }
}

/// The balances of rewards after `relayer` was credited with the reward of one submission.
pub open spec fn rewarded(
    m: Map<Address, i128>,
    relayer: Address,
    rate: i128,
    accuracy_bps: u32,
) -> Map<Address, i128> {
    m.insert(relayer, credited(balance_of(m, relayer), reward_for(rate, accuracy_bps)))
}

/// The balances of rewards after `relayer` has submitted `s`, each submission measured against the
/// aggregate that it met.
pub open spec fn rewards_after(
    m: Map<Address, i128>,
    relayer: Address,
    rate: i128,
    state: PriceState,
    rules: AggregationRules,
    ledger: u32,
    s: Seq<RelayedSubmission>,
) -> Map<Address, i128>
    decreases s.len(),
{
    if s.len() == 0 {
        m
    } else {
        let met = state.relayed_all(rules, ledger, s.drop_last()).aggregates;
        rewarded(
            rewards_after(m, relayer, rate, state, rules, ledger, s.drop_last()),
            relayer,
            rate,
            accuracy_of(met, s.last().asset, s.last().price),
        )
    }
}

/// The part of a bond that a slash of `percent` takes.
pub open spec fn slashed_part(bond: i128, percent: u32) -> int {
    if bond <= 0 {
        0
    } else {
        bond * percent / 100
    }
}

/// Whether the fees of the submissions do not rise.
pub open spec fn fees_fall(s: Seq<RelayedSubmission>) -> bool {
    forall|i: int, j: int|
        0 <= i < j < s.len() ==> (#[trigger] s[i]).priority_fee >= (#[trigger] s[j]).priority_fee
}

/// The entry that a relayed submission stores.
pub open spec fn relayed_entry(s: RelayedSubmission, ledger: u32) -> PriceEntry {
    PriceEntry {
        source: s.source,
        asset: s.asset,
        price: s.price,
        timestamp: s.timestamp,
        ledger,
    }
}

impl PriceState {
    /// After all submissions of a relayed batch, one after the other.
    pub open spec fn relayed_all(
        self,
        rules: AggregationRules,
        ledger: u32,
        s: Seq<RelayedSubmission>,
    ) -> PriceState
        decreases s.len(),
    {
        if s.len() == 0 {
            self
        } else {
            self.relayed_all(rules, ledger, s.drop_last()).submitted(
                rules,
                relayed_entry(s.last(), ledger),
            )
        }
    }
}

fn fees_in_order(s: &Vec<RelayedSubmission>) -> (r: bool)
    ensures
        r == fees_fall(s@),
{
    let mut i: usize = 1;
    while i < s.len()
        invariant
            1 <= i,
            forall|a: int, b: int|
                0 <= a < b < i && b < s@.len() ==> (#[trigger] s@[a]).priority_fee >= (
                #[trigger] s@[b]).priority_fee,
        decreases s@.len() - i,
    {
        if s[i].priority_fee > s[i - 1].priority_fee {
            assert(s@[i - 1].priority_fee < s@[i as int].priority_fee);
            return false;
        }
        assert forall|a: int, b: int| 0 <= a < b < i + 1 && b < s@.len() implies (
        #[trigger] s@[a]).priority_fee >= (#[trigger] s@[b]).priority_fee by {
            if b == i && a < i - 1 {
                assert(s@[a].priority_fee >= s@[i - 1].priority_fee);
            }
        }
        i += 1;
    }
    true
}

impl PriceOracleContract {
    /// Approves a relayer.
    pub fn add_relayer(&mut self, env: &Env, relayer: Address, name: String) -> (r: Result<(), ErrorCode>)
        ensures
            r == reply(
                refused_if(
                    old(self).admin_refusal(*env),
                    old(self).relayers.approved@.contains_key(relayer),
                    ErrorCode::RelayerAlreadyExists,
                ),
            ),
            r is Err ==> *final(self) == *old(self),
            r is Ok ==> final(self).relayers.approved@ == old(self).relayers.approved@.insert(
                relayer,
                RelayerInfo { name, approved_ledger: env.ledger },
            ),
            *final(self) == (PriceOracleContract {
                relayers: Relayers { approved: final(self).relayers.approved, ..old(self).relayers },
                ..*old(self)
            }),
    {
        if let Some(e) = self.check_admin(env) {
            return Err(e);
        }
        if self.relayers.approved.contains_key(&relayer) {
            return Err(ErrorCode::RelayerAlreadyExists);
        }
        self.relayers.approved.insert(relayer, RelayerInfo { name, approved_ledger: env.ledger });
        Ok(())
    }

    /// Takes the approval of a relayer back.
    pub fn remove_relayer(&mut self, env: &Env, relayer: Address) -> (r: Result<(), ErrorCode>)
        ensures
            r == reply(
                refused_if(
                    old(self).admin_refusal(*env),
                    !old(self).relayers.approved@.contains_key(relayer),
                    ErrorCode::RelayerNotAuthorized,
                ),
            ),
            r is Err ==> *final(self) == *old(self),
            r is Ok ==> final(self).relayers.approved@ == old(self).relayers.approved@.remove(relayer),
            *final(self) == (PriceOracleContract {
                relayers: Relayers { approved: final(self).relayers.approved, ..old(self).relayers },
                ..*old(self)
            }),
    {
        if let Some(e) = self.check_admin(env) {
            return Err(e);
        }
        if !self.relayers.approved.contains_key(&relayer) {
            return Err(ErrorCode::RelayerNotAuthorized);
        }
        let _ = self.relayers.approved.remove(&relayer);
        Ok(())
    }

    /// Whether `relayer` is approved.
    pub fn is_relayer(&self, relayer: Address) -> (r: bool)
        ensures
            r == self.relayers.approved@.contains_key(relayer),
    {
        self.relayers.approved.contains_key(&relayer)
    }

    /// What is known of `relayer`, if it is approved.
    pub fn get_relayer_info(&self, relayer: Address) -> (r: Option<&RelayerInfo>)
        ensures
            r == (if self.relayers.approved@.contains_key(relayer) {
                Some(&self.relayers.approved@[relayer])
            } else {
                None
            }),
    {
        self.relayers.approved.get(&relayer)
    }

    /// Why a call of `relayer` is refused, if it is.
    pub open spec fn relayer_refusal(self, env: Env, relayer: Address) -> Option<ErrorCode> {
        if !env.authorizes(relayer) {
            Some(ErrorCode::NotAuthorized)
        } else if self.halted(env) {
            Some(ErrorCode::ContractPaused)
        } else if !self.relayers.approved@.contains_key(relayer) {
            Some(ErrorCode::RelayerNotAuthorized)
        } else {
            None
        }
    }

    fn check_relayer(&self, env: &Env, relayer: &Address) -> (r: Option<ErrorCode>)
        ensures
            r == self.relayer_refusal(*env, *relayer),
    {
        if !env.is_authorized_by(relayer) {
            Some(ErrorCode::NotAuthorized)
        } else if self.is_halted(env) {
            Some(ErrorCode::ContractPaused)
        } else if !self.relayers.approved.contains_key(relayer) {
            Some(ErrorCode::RelayerNotAuthorized)
        } else {
            None
        }
    }

    /// Why a submission on behalf of a source is refused, if it is.
    pub open spec fn leg_refusal(self, env: Env, s: RelayedSubmission) -> Option<ErrorCode> {
        if !env.authorizes(s.source) {
            Some(ErrorCode::NotAuthorized)
        } else {
            self.direct_refusal(env, s.source, s.asset, s.price, s.timestamp)
        }
    }

    fn check_leg(&self, env: &Env, s: &RelayedSubmission) -> (r: Option<ErrorCode>)
        ensures
            r == self.leg_refusal(*env, *s),
    {
        if !env.is_authorized_by(&s.source) {
            return Some(ErrorCode::NotAuthorized);
        }
        self.check_direct(env, &s.source, &s.asset, s.price, s.timestamp)
    }

    fn credit_relayer(&mut self, env: &Env, relayer: &Address, asset: &Address, timestamp: u64)
        ensures
            final(self).relayers.latencies@ == old(self).relayers.latencies@.insert(
                *relayer,
                lengthened(
                    count_of(old(self).relayers.latencies@, *relayer),
                    latency_of(env.timestamp, timestamp),
                ),
            ),
            final(self).relayers.asset_counts@ == old(self).relayers.asset_counts@.insert(
                (*relayer, *asset),
                counted(count_of(old(self).relayers.asset_counts@, (*relayer, *asset))),
            ),
            final(self).relayers.fee_balances@ == old(self).relayers.fee_balances@.insert(
                *relayer,
                credited(
                    balance_of(old(self).relayers.fee_balances@, *relayer),
                    old(self).relayers.fee_per_submission,
                ),
            ),
            final(self).relayers.submission_counts@ == old(self).relayers.submission_counts@.insert(
                *relayer,
                counted(old(self).submissions_of(*relayer)),
            ),
            *final(self) == (PriceOracleContract {
                relayers: Relayers {
                    fee_balances: final(self).relayers.fee_balances,
                    submission_counts: final(self).relayers.submission_counts,
                    asset_counts: final(self).relayers.asset_counts,
                    latencies: final(self).relayers.latencies,
                    ..old(self).relayers
                },
                ..*old(self)
            }),
    {
        let b: i128 = balance(&self.relayers.fee_balances, relayer);
        let fee: i128 = self.relayers.fee_per_submission;
        self.relayers.fee_balances.insert(*relayer, credit(b, fee));
        let n: u64 = self.get_relayer_submission_count(*relayer);
        self.relayers.submission_counts.insert(*relayer, n.saturating_add(1));
        let m: u64 = match self.relayers.asset_counts.get(&(*relayer, *asset)) {
            Some(m) => *m,
            None => 0,
        };
        self.relayers.asset_counts.insert((*relayer, *asset), m.saturating_add(1));
        let so_far: u64 = match self.relayers.latencies.get(relayer) {
            Some(s) => *s,
            None => 0,
        };
        let latency: u64 = env.timestamp.saturating_sub(timestamp);
        self.relayers.latencies.insert(*relayer, so_far.saturating_add(latency));
    }

    /// How accurate a price of `asset` is at present, in ten-thousandths.
    fn accuracy(&self, asset: &Address, price: i128) -> (r: u32)
        requires
            price > 0,
        ensures
            r == accuracy_of(self.book.aggregates@, *asset, price),
    {
        match self.book.aggregates.get(asset) {
            Some(v) => if v.aggregate.price > 0 {
                let d: u32 = deviation_bps(price, v.aggregate.price);
                if d < FULL_ACCURACY_BPS {
                    FULL_ACCURACY_BPS - d
                } else {
                    0
                }
            } else {
                FULL_ACCURACY_BPS
            },
            None => FULL_ACCURACY_BPS,
        }
    }

    /// Credits `relayer` with its reward for a submission whose accuracy is given in
    /// ten-thousandths.
    fn reward_relayer(&mut self, relayer: Address, accuracy_bps: u32)
        ensures
            final(self).relayers.reward_balances@ == rewarded(
                old(self).relayers.reward_balances@,
                relayer,
                old(self).relayers.reward_rate,
                accuracy_bps,
            ),
            *final(self) == (PriceOracleContract {
                relayers: Relayers {
                    reward_balances: final(self).relayers.reward_balances,
                    ..old(self).relayers
                },
                ..*old(self)
            }),
    {
        let b: i128 = balance(&self.relayers.reward_balances, &relayer);
        let rate: i128 = self.relayers.reward_rate;
        let bps: u32 = if accuracy_bps > FULL_ACCURACY_BPS {
            FULL_ACCURACY_BPS
        } else {
            accuracy_bps
        };
        let reward: i128 = if rate <= 0 {
            0
        } else {
            proof {
                assert(0 <= rate * bps <= rate * 10_000) by (nonlinear_arith)
                    requires
                        0 < rate,
                        0 <= bps <= 10_000,
                ;
            }
            match mul_div(rate as u128, bps as u128, 10_000) {
                Some(x) => x as i128,
                None => 0,
            }
        };
        self.relayers.reward_balances.insert(relayer, credit(b, reward));
    }

    /// Submits a price on behalf of `source`. Relayer and source both authorize the call. The
    /// relayer earns a fee, and a reward that grows with the accuracy of the price.
    pub fn submit_price_relayed(
        &mut self,
        env: &Env,
        relayer: Address,
        source: Address,
        asset: Address,
        price: i128,
        timestamp: u64,
    ) -> (r: Result<(), ErrorCode>)
        ensures
            ({
                let s = RelayedSubmission { source, asset, price, timestamp, priority_fee: 0 };
                &&& r == (match old(self).relayer_refusal(*env, relayer) {
                    Some(e) => Err(e),
                    None => reply(old(self).leg_refusal(*env, s)),
                })
                &&& r is Ok ==> final(self).price_state() == old(self).price_state().submitted(
                    old(self).rules(*env),
                    relayed_entry(s, env.ledger),
                )
            }),
            r is Err ==> *final(self) == *old(self),
            r is Ok ==> {
                &&& final(self).relayers.fee_balances@ == old(self).relayers.fee_balances@.insert(
                    relayer,
                    credited(
                        balance_of(old(self).relayers.fee_balances@, relayer),
                        old(self).relayers.fee_per_submission,
                    ),
                )
                &&& final(self).relayers.submission_counts@ == old(self).relayers.submission_counts@.insert(
                    relayer,
                    counted(old(self).submissions_of(relayer)),
                )
                &&& final(self).relayers.asset_counts@ == old(self).relayers.asset_counts@.insert(
                    (relayer, asset),
                    counted(count_of(old(self).relayers.asset_counts@, (relayer, asset))),
                )
                &&& final(self).relayers.latencies@ == old(self).relayers.latencies@.insert(
                    relayer,
                    lengthened(
                        count_of(old(self).relayers.latencies@, relayer),
                        latency_of(env.timestamp, timestamp),
                    ),
                )
                &&& final(self).relayers.reward_balances@ == rewarded(
                    old(self).relayers.reward_balances@,
                    relayer,
                    old(self).relayers.reward_rate,
                    accuracy_of(old(self).book.aggregates@, asset, price),
                )
            },
            PriceOracleContract::only_relayed_differs(*old(self), *final(self)),
    {
        if let Some(e) = self.check_relayer(env, &relayer) {
            return Err(e);
        }
        let s = RelayedSubmission { source, asset, price, timestamp, priority_fee: 0 };
        if let Some(e) = self.check_leg(env, &s) {
            return Err(e);
        }
        let accuracy_bps: u32 = self.accuracy(&asset, price);
        self.take_price(env, PriceEntry { source, asset, price, timestamp, ledger: env.ledger });
        self.credit_relayer(env, &relayer, &asset, timestamp);
        self.reward_relayer(relayer, accuracy_bps);
        Ok(())
    }

    /// Whether `post` differs from `pre` only in what relayed submissions change.
    pub open spec fn only_relayed_differs(pre: Self, post: Self) -> bool {
        post == (PriceOracleContract {
            book: post.book,
            events: post.events,
            relayers: Relayers {
                fee_balances: post.relayers.fee_balances,
                submission_counts: post.relayers.submission_counts,
                asset_counts: post.relayers.asset_counts,
                latencies: post.relayers.latencies,
                reward_balances: post.relayers.reward_balances,
                ..pre.relayers
            },
            ..pre
        })
    }

    /// How many prices `relayer` has submitted.
    pub open spec fn submissions_of(self, relayer: Address) -> u64 {
        if self.relayers.submission_counts@.contains_key(relayer) {
            self.relayers.submission_counts@[relayer]
        } else {
            0
        }
    }

    /// How many prices `relayer` has submitted.
    pub fn get_relayer_submission_count(&self, relayer: Address) -> (r: u64)
        ensures
            r == self.submissions_of(relayer),
    {
        match self.relayers.submission_counts.get(&relayer) {
            Some(n) => *n,
            None => 0,
        }
    }

    /// Why the first refused submission of a batch is refused, if one is.
    pub open spec fn legs_refusal(self, env: Env, s: Seq<RelayedSubmission>) -> Option<ErrorCode>
        decreases s.len(),
    {
        if s.len() == 0 {
            None
        } else {
            match self.legs_refusal(env, s.drop_last()) {
                Some(e) => Some(e),
                None => self.leg_refusal(env, s.last()),
            }
        }
    }

    proof fn lemma_legs_refusal(self, env: Env, s: Seq<RelayedSubmission>, n: int)
        requires
            0 <= n <= s.len(),
            self.legs_refusal(env, s.take(n)) is Some,
        ensures
            self.legs_refusal(env, s) == self.legs_refusal(env, s.take(n)),
        decreases s.len() - n,
    {
        if n < s.len() {
            assert(s.take(n + 1).drop_last() =~= s.take(n));
            self.lemma_legs_refusal(env, s, n + 1);
        } else {
            assert(s.take(n) =~= s);
        }
    }

    /// Why a relayed batch is refused, if it is.
    pub open spec fn relayed_batch_refusal(
        self,
        env: Env,
        relayer: Address,
        s: Seq<RelayedSubmission>,
    ) -> Option<ErrorCode> {
        if self.relayer_refusal(env, relayer) is Some {
            self.relayer_refusal(env, relayer)
        } else if s.len() == 0 {
            Some(ErrorCode::BatchEmpty)
        } else if s.len() > MAX_BATCH_SIZE {
            Some(ErrorCode::BatchTooLarge)
        } else if !fees_fall(s) {
            Some(ErrorCode::BatchNotFeePrioritized)
        } else {
            self.legs_refusal(env, s)
        }
    }

    /// Submits prices on behalf of several sources, all of them or none. Those that pay more for
    /// priority must come first. The relayer earns a fee and a reward for each of them.
    pub fn submit_prices_relayed(
        &mut self,
        env: &Env,
        relayer: Address,
        submissions: Vec<RelayedSubmission>,
    ) -> (r: Result<(), ErrorCode>)
        ensures
            r == reply(old(self).relayed_batch_refusal(*env, relayer, submissions@)),
            r is Err ==> *final(self) == *old(self),
            r is Ok ==> {
                let n = submissions@.len() as int;
                &&& final(self).price_state() == old(self).price_state().relayed_all(
                    old(self).rules(*env),
                    env.ledger,
                    submissions@,
                )
                &&& balance_of(final(self).relayers.fee_balances@, relayer) == credited_times(
                    balance_of(old(self).relayers.fee_balances@, relayer),
                    old(self).relayers.fee_per_submission,
                    n,
                )
                &&& final(self).submissions_of(relayer) == counted_times(
                    old(self).submissions_of(relayer),
                    n,
                )
                &&& final(self).relayers.fee_balances@.remove(relayer) == old(
                    self,
                ).relayers.fee_balances@.remove(relayer)
                &&& final(self).relayers.submission_counts@.remove(relayer) == old(
                    self,
                ).relayers.submission_counts@.remove(relayer)
                &&& final(self).relayers.asset_counts@ == asset_counts_after(
                    old(self).relayers.asset_counts@,
                    relayer,
                    submissions@,
                )
                &&& final(self).relayers.latencies@ == latencies_after(
                    old(self).relayers.latencies@,
                    relayer,
                    env.timestamp,
                    submissions@,
                )
                &&& final(self).relayers.reward_balances@ == rewards_after(
                    old(self).relayers.reward_balances@,
                    relayer,
                    old(self).relayers.reward_rate,
                    old(self).price_state(),
                    old(self).rules(*env),
                    env.ledger,
                    submissions@,
                )
            },
            PriceOracleContract::only_relayed_differs(*old(self), *final(self)),
    {
        if let Some(e) = self.check_relayer(env, &relayer) {
            return Err(e);
        }
        if submissions.len() == 0 {
            return Err(ErrorCode::BatchEmpty);
        }
        if submissions.len() > MAX_BATCH_SIZE {
            return Err(ErrorCode::BatchTooLarge);
        }
        if !fees_in_order(&submissions) {
            return Err(ErrorCode::BatchNotFeePrioritized);
        }
        let ghost all = submissions@;
        let mut i: usize = 0;
        assert(all.take(0) =~= Seq::<RelayedSubmission>::empty());
        while i < submissions.len()
            invariant
                i <= all.len(),
                all == submissions@,
                *self == *old(self),
                self.relayer_refusal(*env, relayer) is None,
                0 < all.len() <= MAX_BATCH_SIZE,
                fees_fall(all),
                self.legs_refusal(*env, all.take(i as int)) is None,
                forall|j: int| 0 <= j < i ==> (#[trigger] all[j]).price > 0,
            decreases all.len() - i,
        {
            proof {
                assert(all.take(i + 1).drop_last() =~= all.take(i as int));
                assert(all.take(i + 1).last() == all[i as int]);
            }
            if let Some(e) = self.check_leg(env, &submissions[i]) {
                proof {
                    self.lemma_legs_refusal(*env, all, i + 1);
                }
                return Err(e);
            }
            i += 1;
        }
        assert(all.take(all.len() as int) =~= all);
        let mut k: usize = 0;
        while k < submissions.len()
            invariant
                k <= all.len(),
                all == submissions@,
                forall|j: int| 0 <= j < all.len() ==> (#[trigger] all[j]).price > 0,
                self.rules(*env) == old(self).rules(*env),
                self.price_state() == old(self).price_state().relayed_all(
                    old(self).rules(*env),
                    env.ledger,
                    all.take(k as int),
                ),
                balance_of(self.relayers.fee_balances@, relayer) == credited_times(
                    balance_of(old(self).relayers.fee_balances@, relayer),
                    old(self).relayers.fee_per_submission,
                    k as int,
                ),
                self.submissions_of(relayer) == counted_times(
                    old(self).submissions_of(relayer),
                    k as int,
                ),
                self.relayers.fee_balances@.remove(relayer) == old(self).relayers.fee_balances@.remove(
                    relayer,
                ),
                self.relayers.submission_counts@.remove(relayer) == old(
                    self,
                ).relayers.submission_counts@.remove(relayer),
                self.relayers.asset_counts@ == asset_counts_after(
                    old(self).relayers.asset_counts@,
                    relayer,
                    all.take(k as int),
                ),
                self.relayers.latencies@ == latencies_after(
                    old(self).relayers.latencies@,
                    relayer,
                    env.timestamp,
                    all.take(k as int),
                ),
                self.relayers.reward_balances@ == rewards_after(
                    old(self).relayers.reward_balances@,
                    relayer,
                    old(self).relayers.reward_rate,
                    old(self).price_state(),
                    old(self).rules(*env),
                    env.ledger,
                    all.take(k as int),
                ),
                PriceOracleContract::only_relayed_differs(*old(self), *self),
            decreases all.len() - k,
        {
            let s: RelayedSubmission = submissions[k];
            proof {
                assert(all[k as int].price > 0);
                assert(all.take(k + 1).drop_last() =~= all.take(k as int));
                assert(all.take(k + 1).last() == s);
            }
            let ghost fees = self.relayers.fee_balances@;
            let ghost counts = self.relayers.submission_counts@;
            assert(self.price_state().aggregates == self.book.aggregates@);
            let accuracy_bps: u32 = self.accuracy(&s.asset, s.price);
            self.take_price(
                env,
                PriceEntry {
                    source: s.source,
                    asset: s.asset,
                    price: s.price,
                    timestamp: s.timestamp,
                    ledger: env.ledger,
                },
            );
            self.credit_relayer(env, &relayer, &s.asset, s.timestamp);
            self.reward_relayer(relayer, accuracy_bps);
            proof {
                assert(self.relayers.fee_balances@.remove(relayer) =~= fees.remove(relayer));
                assert(self.relayers.submission_counts@.remove(relayer) =~= counts.remove(relayer));
            }
            k += 1;
        }
        Ok(())
    }

    /// What `relayer` has earned with its submissions.
    pub fn get_relayer_fee_balance(&self, relayer: Address) -> (r: i128)
        ensures
            r == balance_of(self.relayers.fee_balances@, relayer),
    {
        balance(&self.relayers.fee_balances, &relayer)
    }

    /// Whether as much is deposited for `relayer` as must be.
    pub open spec fn fully_bonded(self, relayer: Address) -> bool {
        balance_of(self.relayers.bonds@, relayer) >= self.relayers.bond_amount
    }

    /// Deposits what is missing of the bond of `relayer`, which is asked for as a transfer.
    /// Nothing happens where nothing is missing.
    pub fn deposit_relayer_bond(&mut self, env: &Env, relayer: Address) -> (r: Result<(), ErrorCode>)
        ensures
            r == (if !env.authorizes(relayer) {
                Err(ErrorCode::NotAuthorized)
            } else if !old(self).relayers.approved@.contains_key(relayer) {
                Err(ErrorCode::RelayerNotAuthorized)
            } else if old(self).relayers.bond_amount <= 0 || old(self).fully_bonded(relayer) {
                Ok(())
            } else if old(self).relayers.stake_token is None {
                Err(ErrorCode::StakeTokenNotConfigured)
            } else if old(self).relayers.bond_amount - balance_of(old(self).relayers.bonds@, relayer)
                > i128::MAX {
                Err(ErrorCode::ArithmeticOverflow)
            } else {
                Ok(())
            }),
            r is Err || old(self).relayers.bond_amount <= 0 || old(self).fully_bonded(relayer)
                ==> *final(self) == *old(self),
            r is Ok && old(self).relayers.bond_amount > 0 && !old(self).fully_bonded(relayer) ==> {
                &&& final(self).relayers.bonds@ == old(self).relayers.bonds@.insert(
                    relayer,
                    old(self).relayers.bond_amount,
                )
                &&& final(self).transfers@ == old(self).transfers@.push(
                    Transfer::Receive {
                        token: old(self).relayers.stake_token.unwrap(),
                        from: relayer,
                        amount: (old(self).relayers.bond_amount - balance_of(
                            old(self).relayers.bonds@,
                            relayer,
                        )) as i128,
                    },
                )
            },
            *final(self) == (PriceOracleContract {
                relayers: Relayers { bonds: final(self).relayers.bonds, ..old(self).relayers },
                transfers: final(self).transfers,
                ..*old(self)
            }),
    {
        if !env.is_authorized_by(&relayer) {
            return Err(ErrorCode::NotAuthorized);
        }
        if !self.relayers.approved.contains_key(&relayer) {
            return Err(ErrorCode::RelayerNotAuthorized);
        }
        let held: i128 = balance(&self.relayers.bonds, &relayer);
        let owed: i128 = self.relayers.bond_amount;
        if owed <= 0 || held >= owed {
            return Ok(());
        }
        let token: Address = match &self.relayers.stake_token {
            Some(t) => *t,
            None => {
                return Err(ErrorCode::StakeTokenNotConfigured);
            },
        };
        match owed.checked_sub(held) {
            None => Err(ErrorCode::ArithmeticOverflow),
            Some(amount) => {
                self.relayers.bonds.insert(relayer, owed);
                self.transfers.push(Transfer::Receive { token, from: relayer, amount });
                Ok(())
            },
        }
    }

    /// What is deposited for `relayer`.
    pub fn get_relayer_bond_balance(&self, relayer: Address) -> (r: i128)
        ensures
            r == balance_of(self.relayers.bonds@, relayer),
    {
        balance(&self.relayers.bonds, &relayer)
    }

    /// Gives the whole bond of `relayer` back. Nothing happens where nothing is deposited.
    pub fn withdraw_relayer_bond(&mut self, env: &Env, relayer: Address) -> (r: Result<(), ErrorCode>)
        ensures
            r == (if !env.authorizes(relayer) {
                Err(ErrorCode::NotAuthorized)
            } else if balance_of(old(self).relayers.bonds@, relayer) <= 0 {
                Ok(())
            } else if old(self).relayers.stake_token is None {
                Err(ErrorCode::StakeTokenNotConfigured)
            } else {
                Ok(())
            }),
            r is Err || balance_of(old(self).relayers.bonds@, relayer) <= 0 ==> *final(self) == *old(self),
            r is Ok && balance_of(old(self).relayers.bonds@, relayer) > 0 ==> {
                &&& final(self).relayers.bonds@ == old(self).relayers.bonds@.remove(relayer)
                &&& final(self).transfers@ == old(self).transfers@.push(
                    Transfer::Send {
                        token: old(self).relayers.stake_token.unwrap(),
                        to: relayer,
                        amount: balance_of(old(self).relayers.bonds@, relayer),
                    },
                )
            },
            *final(self) == (PriceOracleContract {
                relayers: Relayers { bonds: final(self).relayers.bonds, ..old(self).relayers },
                transfers: final(self).transfers,
                ..*old(self)
            }),
    {
        if !env.is_authorized_by(&relayer) {
            return Err(ErrorCode::NotAuthorized);
        }
        let held: i128 = balance(&self.relayers.bonds, &relayer);
        if held <= 0 {
            return Ok(());
        }
        let token: Address = match &self.relayers.stake_token {
            Some(t) => *t,
            None => {
                return Err(ErrorCode::StakeTokenNotConfigured);
            },
        };
        let _ = self.relayers.bonds.remove(&relayer);
        self.transfers.push(Transfer::Send { token, to: relayer, amount: held });
        Ok(())
    }

    /// How many failures were recorded against `relayer`.
    pub open spec fn failures_of(self, relayer: Address) -> u32 {
        match lookup(self.relayers.failures@, relayer) {
            Some(n) => n,
            None => 0,
        }
    }

    /// Records a failure of `relayer`.
    pub fn record_relayer_failure(&mut self, env: &Env, relayer: Address, reason: RelayerFailureReason) -> (r:
        Result<(), ErrorCode>)
        ensures
            r == reply(
                refused_if(
                    old(self).admin_refusal(*env),
                    !old(self).relayers.approved@.contains_key(relayer),
                    ErrorCode::RelayerNotAuthorized,
                ),
            ),
            r is Err ==> *final(self) == *old(self),
            r is Ok ==> final(self).relayers.failures@ == old(self).relayers.failures@.insert(
                relayer,
                if old(self).failures_of(relayer) == u32::MAX {
                    u32::MAX
                } else {
                    (old(self).failures_of(relayer) + 1) as u32
                },
            ),
            *final(self) == (PriceOracleContract {
                relayers: Relayers { failures: final(self).relayers.failures, ..old(self).relayers },
                ..*old(self)
            }),
    {
        if let Some(e) = self.check_admin(env) {
            return Err(e);
        }
        if !self.relayers.approved.contains_key(&relayer) {
            return Err(ErrorCode::RelayerNotAuthorized);
        }
        let n: u32 = self.get_relayer_failure_count(relayer);
        let next: u32 = if n == u32::MAX {
            n
        } else {
            n + 1
        };
        self.relayers.failures.insert(relayer, next);
        Ok(())
    }

    /// How many failures were recorded against `relayer`.
    pub fn get_relayer_failure_count(&self, relayer: Address) -> (r: u32)
        ensures
            r == self.failures_of(relayer),
    {
        match self.relayers.failures.get(&relayer) {
            Some(n) => *n,
            None => 0,
        }
    }

    /// Moves a part of the bond of `relayer` into the treasury. Unless it is forced, enough
    /// failures must have been recorded.
    pub fn slash_relayer(&mut self, env: &Env, relayer: Address, force: bool) -> (r: Result<(), ErrorCode>)
        ensures
            ({
                let held = balance_of(old(self).relayers.bonds@, relayer);
                let part = slashed_part(held, old(self).relayers.slash_percent);
                &&& r == reply(
                    refused_if(
                        refused_if(
                            old(self).admin_refusal(*env),
                            !force && old(self).failures_of(relayer)
                                < old(self).relayers.failure_threshold,
                            ErrorCode::RelayerFailureThresholdNotReached,
                        ),
                        part > held && held > 0 || old(self).relayers.treasury + part > i128::MAX,
                        ErrorCode::ArithmeticOverflow,
                    ),
                )
                &&& r is Ok && held > 0 ==> {
                    &&& final(self).relayers.bonds@ == old(self).relayers.bonds@.insert(
                        relayer,
                        (held - part) as i128,
                    )
                    &&& final(self).relayers.treasury == old(self).relayers.treasury + part
                    &&& balance_of(final(self).relayers.bonds@, relayer) + final(self).relayers.treasury
                        == held + old(self).relayers.treasury
                }
                &&& r is Err || held <= 0 ==> *final(self) == *old(self)
            }),
            *final(self) == (PriceOracleContract {
                relayers: Relayers {
                    bonds: final(self).relayers.bonds,
                    treasury: final(self).relayers.treasury,
                    ..old(self).relayers
                },
                ..*old(self)
            }),
    {
        if let Some(e) = self.check_admin(env) {
            return Err(e);
        }
        if !force && self.get_relayer_failure_count(relayer) < self.relayers.failure_threshold {
            return Err(ErrorCode::RelayerFailureThresholdNotReached);
        }
        let held: i128 = balance(&self.relayers.bonds, &relayer);
        if held <= 0 {
            return Ok(());
        }
        match mul_div(held as u128, self.relayers.slash_percent as u128, FULL_PERCENT as u128) {
            None => Err(ErrorCode::ArithmeticOverflow),
            Some(part) => {
                if part > held as u128 {
                    return Err(ErrorCode::ArithmeticOverflow);
                }
                let part: i128 = part as i128;
                match self.relayers.treasury.checked_add(part) {
                    None => Err(ErrorCode::ArithmeticOverflow),
                    Some(treasury) => {
                        self.relayers.bonds.insert(relayer, held - part);
                        self.relayers.treasury = treasury;
                        Ok(())
                    },
                }
            },
        }
    }

    /// What `relayer` has earned as rewards.
    pub fn get_relayer_reward_balance(&self, relayer: Address) -> (r: i128)
        ensures
            r == balance_of(self.relayers.reward_balances@, relayer),
    {
        balance(&self.relayers.reward_balances, &relayer)
    }

    /// Sets the token in which bonds are paid.
    pub fn set_stake_token_contract(&mut self, env: &Env, token: Address) -> (r: Result<(), ErrorCode>)
        ensures
            r == reply(old(self).guarded_admin_refusal(*env)),
            *final(self) == (if r is Ok {
                PriceOracleContract {
                    relayers: Relayers { stake_token: Some(token), ..old(self).relayers },
                    ..*old(self)
                }
            } else {
                *old(self)
            }),
    {
        if let Some(e) = self.check_guarded_admin(env) {
            return Err(e);
        }
        self.relayers.stake_token = Some(token);
        Ok(())
    }

    /// The token in which bonds are paid, if one is set.
    pub fn get_stake_token_contract(&self) -> (r: Option<Address>)
        ensures
            r == self.relayers.stake_token,
    {
        self.relayers.stake_token
    }

    /// Sets what a relayer earns with a submission; `0` for nothing.
    pub fn set_relayer_fee_per_submission(&mut self, env: &Env, fee: i128) -> (r: Result<(), ErrorCode>)
        ensures
            r == reply(old(self).admin_refusal(*env)),
            *final(self) == (if r is Ok {
                PriceOracleContract {
                    relayers: Relayers { fee_per_submission: fee, ..old(self).relayers },
                    ..*old(self)
                }
            } else {
                *old(self)
            }),
    {
        if let Some(e) = self.check_admin(env) {
            return Err(e);
        }
        self.relayers.fee_per_submission = fee;
        Ok(())
    }

    /// What a relayer earns with a submission.
    pub fn get_relayer_fee_per_submission(&self) -> (r: i128)
        ensures
            r == self.relayers.fee_per_submission,
    {
        self.relayers.fee_per_submission
    }

    /// Sets the bond that a relayer must deposit.
    pub fn set_relayer_bond_amount(&mut self, env: &Env, amount: i128) -> (r: Result<(), ErrorCode>)
        ensures
            r == reply(old(self).admin_refusal(*env)),
            *final(self) == (if r is Ok {
                PriceOracleContract {
                    relayers: Relayers { bond_amount: amount, ..old(self).relayers },
                    ..*old(self)
                }
            } else {
                *old(self)
            }),
    {
        if let Some(e) = self.check_admin(env) {
            return Err(e);
        }
        self.relayers.bond_amount = amount;
        Ok(())
    }

    /// The bond that a relayer must deposit.
    pub fn get_relayer_bond_amount(&self) -> (r: i128)
        ensures
            r == self.relayers.bond_amount,
    {
        self.relayers.bond_amount
    }

    /// Sets the part of a bond that is slashed, in percent.
    pub fn set_relayer_slash_percent(&mut self, env: &Env, percent: u32) -> (r: Result<(), ErrorCode>)
        ensures
            r == reply(
                refused_if(
                    old(self).admin_refusal(*env),
                    percent > FULL_PERCENT,
                    ErrorCode::InvalidConfiguration,
                ),
            ),
            *final(self) == (if r is Ok {
                PriceOracleContract {
                    relayers: Relayers { slash_percent: percent, ..old(self).relayers },
                    ..*old(self)
                }
            } else {
                *old(self)
            }),
    {
        if let Some(e) = self.check_admin(env) {
            return Err(e);
        }
        if percent > FULL_PERCENT {
            return Err(ErrorCode::InvalidConfiguration);
        }
        self.relayers.slash_percent = percent;
        Ok(())
    }

    /// The part of a bond that is slashed, in percent.
    pub fn get_relayer_slash_percent(&self) -> (r: u32)
        ensures
            r == self.relayers.slash_percent,
    {
        self.relayers.slash_percent
    }

    /// Sets how many failures allow a bond to be slashed.
    pub fn set_relayer_failure_threshold(&mut self, env: &Env, threshold: u32) -> (r: Result<(), ErrorCode>)
        ensures
            r == reply(old(self).admin_refusal(*env)),
            *final(self) == (if r is Ok {
                PriceOracleContract {
                    relayers: Relayers { failure_threshold: threshold, ..old(self).relayers },
                    ..*old(self)
                }
            } else {
                *old(self)
            }),
    {
        if let Some(e) = self.check_admin(env) {
            return Err(e);
        }
        self.relayers.failure_threshold = threshold;
        Ok(())
    }

    /// How many failures allow a bond to be slashed.
    pub fn get_relayer_failure_threshold(&self) -> (r: u32)
        ensures
            r == self.relayers.failure_threshold,
    {
        self.relayers.failure_threshold
    }

    /// Sets the reward of a submission of full accuracy; `0` for none.
    pub fn set_relayer_reward_rate(&mut self, env: &Env, rate: i128) -> (r: Result<(), ErrorCode>)
        ensures
            r == reply(old(self).admin_refusal(*env)),
            *final(self) == (if r is Ok {
                PriceOracleContract {
                    relayers: Relayers { reward_rate: rate, ..old(self).relayers },
                    ..*old(self)
                }
            } else {
                *old(self)
            }),
    {
        if let Some(e) = self.check_admin(env) {
            return Err(e);
        }
        self.relayers.reward_rate = rate;
        Ok(())
    }

    /// The reward of a submission of full accuracy.
    pub fn get_relayer_reward_rate(&self) -> (r: i128)
        ensures
            r == self.relayers.reward_rate,
    {
        self.relayers.reward_rate
    }
}

/// The reward of a submission whose accuracy is given in ten-thousandths.
pub open spec fn reward_for(rate: i128, accuracy_bps: u32) -> i128 {
    let bps = if accuracy_bps > 10_000 {
        10_000
    } else {
        accuracy_bps
    };
    if rate <= 0 {
        0
    } else {
        (rate * bps / 10_000) as i128
    }
}

} // verus!
