//! Other ways in which prices come in, and what sets an aggregation off.

use crate::admin::MAX_DEVIATION_BPS;
use crate::contract::PriceOracleContract;
use crate::digest::{
    le_bytes, lemma_le_len, lemma_le_tells_apart, lemma_same_amount, lemma_same_parts, lemma_spans, push_le,
};
use crate::env::Env;
use crate::error::{refused_if, reply, ErrorCode};
use crate::price_book::{deviations_of, lookup};
use crate::table::Table;
use crate::types::{Address, PriceEntry};
use vstd::prelude::*;

verus! {

/// How many rounds a report on a source looks back.
pub const MAX_ROUNDS: u32 = 1000;

/// How many public signals a proof attests.
pub const PUBLIC_SIGNALS: usize = 3;

/// What sets an aggregation of one asset off; `0` for nothing.
#[derive(Clone, Copy, Debug, PartialEq, Eq, Structural)]
pub struct Trigger {
    /// A time in seconds.
    pub interval_seconds: u64,
    /// A number of submissions.
    pub submission_threshold: u32,
    /// A deviation in ten-thousandths.
    pub deviation_bps: u32,
    /// When an aggregation was last set off by its time, in seconds.
    pub last_run: u64,
}

/// The keys and numbers by which signed prices are accepted, and what sets aggregations off.
#[derive(Debug)]
pub struct Submissions {
    /// The public key with which a source signs its prices.
    pub keys: Table<Address, [u8; 32]>,
    /// The number of the last signed price of a source.
    pub nonces: Table<Address, u64>,
    /// The volume behind the last price that came with one, by asset and source.
    pub volumes: Table<(Address, Address), i128>,
    pub triggers: Table<Address, Trigger>,
    /// The key against which proofs are checked.
    pub verifying_key: Option<Vec<u8>>,
}

/// How far the prices of a source lay from the aggregates of their time.
#[derive(Clone, Copy, Debug, PartialEq, Eq, Structural)]
pub struct DeviationReport {
    pub avg_deviation_bps: u32,
    pub max_deviation_bps: u32,
    /// How many deviations exceed what the source is allowed.
    pub outlier_count: u32,
    /// The slope of the regression line through the deviations, rounded towards zero.
    pub trend: i128,
    /// How many rounds were looked at.
    pub num_rounds: u32,
}

/// No trigger.
pub open spec fn no_trigger() -> Trigger {
    Trigger { interval_seconds: 0, submission_threshold: 0, deviation_bps: 0, last_run: 0 }
}

/// The deviations of the last `n` rounds.
pub open spec fn last_rounds(d: Seq<u32>, n: u32) -> Seq<u32> {
    let k = if n < MAX_ROUNDS {
        n
    } else {
        MAX_ROUNDS
    };
    if d.len() > k {
        d.skip(d.len() - k)
    } else {
        d
    }
}

/// The sum of the deviations.
pub open spec fn sum_of(s: Seq<u32>) -> int
    decreases s.len(),
{
    if s.len() == 0 {
        0
    } else {
        sum_of(s.drop_last()) + s.last()
    }
}

/// The sum of the deviations, each times its place.
pub open spec fn weighted_sum_of(s: Seq<u32>) -> int
    decreases s.len(),
{
    if s.len() == 0 {
        0
    } else {
        weighted_sum_of(s.drop_last()) + (s.len() - 1) * s.last()
    }
}

/// The sum of the places below `n`.
pub open spec fn sum_of_places(n: nat) -> int
    decreases n,
{
    if n == 0 {
        0
    } else {
        sum_of_places((n - 1) as nat) + (n - 1)
    }
}

/// The sum of the squares of the places below `n`.
pub open spec fn sum_of_squares(n: nat) -> int
    decreases n,
{
    if n == 0 {
        0
    } else {
        sum_of_squares((n - 1) as nat) + (n - 1) * (n - 1)
    }
}

/// The largest deviation.
pub open spec fn largest_of(s: Seq<u32>) -> u32
    decreases s.len(),
{
    if s.len() == 0 {
        0
    } else if s.last() > largest_of(s.drop_last()) {
        s.last()
    } else {
        largest_of(s.drop_last())
    }
}

/// How many deviations exceed `limit`.
pub open spec fn count_above(s: Seq<u32>, limit: u32) -> nat
    decreases s.len(),
{
    if s.len() == 0 {
        0
    } else {
        count_above(s.drop_last(), limit) + if s.last() > limit {
            1nat
        } else {
            0nat
        }
    }
}

/// A quotient rounded towards zero; `0` where there is nothing to divide by.
pub open spec fn quotient(a: int, b: int) -> int {
    if b <= 0 {
        0
    } else if a >= 0 {
        a / b
    } else {
        -((-a) / b)
    }
}

/// The slope of the regression line through the deviations, whose places are their times.
pub open spec fn slope_of(s: Seq<u32>) -> int {
    quotient(
        s.len() * weighted_sum_of(s) - sum_of_places(s.len()) * sum_of(s),
        s.len() * sum_of_squares(s.len()) - sum_of_places(s.len()) * sum_of_places(s.len()),
    )
}

/// What the deviations of a source say of it.
pub open spec fn report_of(s: Seq<u32>, limit: u32) -> DeviationReport {
    DeviationReport {
        avg_deviation_bps: if s.len() == 0 {
            0
        } else {
            (sum_of(s) / s.len() as int) as u32
        },
        max_deviation_bps: largest_of(s),
        outlier_count: count_above(s, limit) as u32,
        trend: slope_of(s) as i128,
        num_rounds: s.len() as u32,
    }
}

fn divide(a: i128, b: i128) -> (r: i128)
    requires
        -0x4000_0000_0000_0000_0000_0000_0000_0000 < a < 0x4000_0000_0000_0000_0000_0000_0000_0000,
    ensures
        r == quotient(a as int, b as int),
{
    if b <= 0 {
        0
    } else if a >= 0 {
        a / b
    } else {
        -((-a) / b)
    }
}

/// What the deviations of a source say of it.
fn report(s: &Vec<u32>, limit: u32) -> (r: DeviationReport)
    requires
        s@.len() <= MAX_ROUNDS,
    ensures
        r == report_of(s@, limit),
{
    let mut sum: i128 = 0;
    let mut weighted: i128 = 0;
    let mut places: i128 = 0;
    let mut squares: i128 = 0;
    let mut largest: u32 = 0;
    let mut above: u32 = 0;
    let mut i: usize = 0;
    assert(s@.take(0) =~= Seq::<u32>::empty());
    while i < s.len()
        invariant
            i <= s@.len() <= MAX_ROUNDS,
            sum == sum_of(s@.take(i as int)),
            weighted == weighted_sum_of(s@.take(i as int)),
            places == sum_of_places(i as nat),
            squares == sum_of_squares(i as nat),
            largest == largest_of(s@.take(i as int)),
            above == count_above(s@.take(i as int), limit),
            0 <= sum <= i * 4_294_967_295,
            0 <= weighted <= i * 4_294_967_295_000,
            0 <= places <= i * 1000,
            0 <= squares <= i * 1_000_000,
            above <= i,
        decreases s@.len() - i,
    {
        let d: u32 = s[i];
        proof {
            assert(s@.take(i + 1).drop_last() =~= s@.take(i as int));
            assert(s@.take(i + 1).last() == d);
            assert(0 <= i * d <= 4_294_967_295_000) by (nonlinear_arith)
                requires
                    0 <= i <= 1000,
                    0 <= d <= 4_294_967_295,
            ;
            assert(0 <= i * i <= 1_000_000) by (nonlinear_arith)
                requires
                    0 <= i <= 1000,
            ;
        }
        sum = sum + d as i128;
        weighted = weighted + (i as i128) * (d as i128);
        places = places + i as i128;
        squares = squares + (i as i128) * (i as i128);
        if d > largest {
            largest = d;
        }
        if d > limit {
            above += 1;
        }
        i += 1;
    }
    assert(s@.take(s@.len() as int) =~= s@);
    let n: i128 = s.len() as i128;
    proof {
        assert(0 <= n * weighted <= 4_294_967_295_000_000_000) by (nonlinear_arith)
            requires
                0 <= n <= 1000,
                0 <= weighted <= 4_294_967_295_000_000,
        ;
        assert(0 <= places * sum <= 4_294_967_295_000_000_000) by (nonlinear_arith)
            requires
                0 <= places <= 1_000_000,
                0 <= sum <= 4_294_967_295_000,
        ;
        assert(0 <= n * squares <= 1_000_000_000_000) by (nonlinear_arith)
            requires
                0 <= n <= 1000,
                0 <= squares <= 1_000_000_000,
        ;
        assert(0 <= places * places <= 1_000_000_000_000) by (nonlinear_arith)
            requires
                0 <= places <= 1_000_000,
        ;
    }
    let trend: i128 = divide(n * weighted - places * sum, n * squares - places * places);
    let avg: u32 = if s.len() == 0 {
        0
    } else {
        proof {
            assert(0 <= sum / n <= 4_294_967_295) by (nonlinear_arith)
                requires
                    0 <= sum <= n * 4_294_967_295,
                    0 < n,
            ;
        }
        (sum / n) as u32
    };
    DeviationReport {
        avg_deviation_bps: avg,
        max_deviation_bps: largest,
        outlier_count: above,
        trend,
        num_rounds: s.len() as u32,
    }
}

/// The bytes of an address.
pub open spec fn address_bytes(a: Address) -> Seq<u8> {
    seq![if a.is_contract { 1u8 } else { 0u8 }] + a.id@
}

/// The bytes that a source signs to submit a price.
pub open spec fn signed_bytes(
    source: Address,
    asset: Address,
    price: i128,
    timestamp: u64,
    nonce: u64,
    expiration_ledger: u32,
) -> Seq<u8> {
    address_bytes(source) + address_bytes(asset) + le_bytes(price as u128 as nat, 16) + le_bytes(
        timestamp as nat,
        8,
    ) + le_bytes(nonce as nat, 8) + le_bytes(expiration_ledger as nat, 4)
}

pub(crate) fn push_address(out: &mut Vec<u8>, a: &Address)
    ensures
        final(out)@ == old(out)@ + address_bytes(*a),
{
    out.push(
        if a.is_contract {
            1
        } else {
            0
        },
    );
    let mut i: usize = 0;
    while i < 32
        invariant
            i <= 32,
            out@ == old(out)@ + address_bytes(*a).take(i + 1),
        decreases 32 - i,
    {
        out.push(a.id[i]);
        i += 1;
        assert(out@ =~= old(out)@ + address_bytes(*a).take(i + 1));
    }
    assert(address_bytes(*a).take(33) =~= address_bytes(*a));
}

/// The bytes that a source signs to submit a price.
pub fn message_to_sign(
    source: &Address,
    asset: &Address,
    price: i128,
    timestamp: u64,
    nonce: u64,
    expiration_ledger: u32,
) -> (r: Vec<u8>)
    ensures
        r@ == signed_bytes(*source, *asset, price, timestamp, nonce, expiration_ledger),
{
    let mut out: Vec<u8> = Vec::new();
    push_address(&mut out, source);
    push_address(&mut out, asset);
    push_le(&mut out, price as u128, 16);
    push_le(&mut out, timestamp as u128, 8);
    push_le(&mut out, nonce as u128, 8);
    push_le(&mut out, expiration_ledger as u128, 4);
    assert(out@ =~= signed_bytes(*source, *asset, price, timestamp, nonce, expiration_ledger));
    out
}

pub(crate) proof fn lemma_same_address(a: Address, b: Address)
    requires
        address_bytes(a) == address_bytes(b),
    ensures
        a == b,
{
    let x = address_bytes(a);
    let y = address_bytes(b);
    assert(x[0] == y[0]);
    assert(x.skip(1) =~= a.id@);
    assert(y.skip(1) =~= b.id@);
    assert(a.id =~= b.id);
}

/// Whoever signs the bytes of a submission signs that submission and no other.
pub proof fn a_signed_message_is_for_one_submission(
    source: Address,
    asset: Address,
    price: i128,
    timestamp: u64,
    nonce: u64,
    expiration_ledger: u32,
    other_source: Address,
    other_asset: Address,
    other_price: i128,
    other_timestamp: u64,
    other_nonce: u64,
    other_expiration_ledger: u32,
)
    requires
        signed_bytes(source, asset, price, timestamp, nonce, expiration_ledger) == signed_bytes(
            other_source,
            other_asset,
            other_price,
            other_timestamp,
            other_nonce,
            other_expiration_ledger,
        ),
    ensures
        source == other_source,
        asset == other_asset,
        price == other_price,
        timestamp == other_timestamp,
        nonce == other_nonce,
        expiration_ledger == other_expiration_ledger,
{
    let (a1, b1) = (address_bytes(source), address_bytes(other_source));
    let (a2, b2) = (address_bytes(asset), address_bytes(other_asset));
    let (a3, b3) = (le_bytes(price as u128 as nat, 16), le_bytes(other_price as u128 as nat, 16));
    let (a4, b4) = (le_bytes(timestamp as nat, 8), le_bytes(other_timestamp as nat, 8));
    let (a5, b5) = (le_bytes(nonce as nat, 8), le_bytes(other_nonce as nat, 8));
    let (a6, b6) = (
        le_bytes(expiration_ledger as nat, 4),
        le_bytes(other_expiration_ledger as nat, 4),
    );
    lemma_le_len(timestamp as nat, 8);
    lemma_le_len(other_timestamp as nat, 8);
    lemma_le_len(nonce as nat, 8);
    lemma_le_len(other_nonce as nat, 8);
    lemma_le_len(expiration_ledger as nat, 4);
    lemma_le_len(other_expiration_ledger as nat, 4);
    lemma_le_len(price as u128 as nat, 16);
    lemma_le_len(other_price as u128 as nat, 16);
    lemma_same_parts(a1 + a2 + a3 + a4 + a5, a6, b1 + b2 + b3 + b4 + b5, b6);
    lemma_same_parts(a1 + a2 + a3 + a4, a5, b1 + b2 + b3 + b4, b5);
    lemma_same_parts(a1 + a2 + a3, a4, b1 + b2 + b3, b4);
    lemma_same_parts(a1 + a2, a3, b1 + b2, b3);
    lemma_same_parts(a1, a2, b1, b2);
    lemma_same_address(source, other_source);
    lemma_same_address(asset, other_asset);
    lemma_same_amount(price, other_price);
    lemma_spans();
    lemma_le_tells_apart(timestamp as nat, other_timestamp as nat, 8);
    lemma_le_tells_apart(nonce as nat, other_nonce as nat, 8);
    lemma_le_tells_apart(expiration_ledger as nat, other_expiration_ledger as nat, 4);
}

/// The number that bytes stand for, the highest first.
pub open spec fn value_of(s: Seq<u8>) -> nat
    decreases s.len(),
{
    if s.len() == 0 {
        0
    } else {
        value_of(s.drop_last()) * 256 + s.last() as nat
    }
}

proof fn lemma_value_grows(s: Seq<u8>, n: int)
    requires
        0 <= n <= s.len(),
    ensures
        value_of(s.take(n)) <= value_of(s),
    decreases s.len() - n,
{
    if n < s.len() {
        assert(s.take(n + 1).drop_last() =~= s.take(n));
        lemma_value_grows(s, n + 1);
    } else {
        assert(s.take(n) =~= s);
    }
}

/// The number that the 32 bytes of a field element stand for, if it fits.
pub fn field_value(bytes: &[u8; 32]) -> (r: Option<u128>)
    ensures
        r == (if value_of(bytes@) <= u128::MAX {
            Some(value_of(bytes@) as u128)
        } else {
            None
        }),
{
    let mut v: u128 = 0;
    let mut i: usize = 0;
    assert(bytes@.take(0) =~= Seq::<u8>::empty());
    while i < 32
        invariant
            i <= 32,
            bytes@.len() == 32,
            v == value_of(bytes@.take(i as int)),
        decreases 32 - i,
    {
        let b: u8 = bytes[i];
        proof {
            assert(bytes@.take(i + 1).drop_last() =~= bytes@.take(i as int));
            assert(bytes@.take(i + 1).last() == b);
        }
        if v > (u128::MAX - b as u128) / 256 {
            proof {
                lemma_value_grows(bytes@, i + 1);
            }
            return None;
        }
        v = v * 256 + b as u128;
        i += 1;
    }
    assert(bytes@.take(32) =~= bytes@);
    Some(v)
}

impl PriceOracleContract {
    /// What sets aggregations of `asset` off.
    pub open spec fn trigger_of(self, asset: Address) -> Trigger {
        match lookup(self.submissions.triggers@, asset) {
            Some(t) => t,
            None => no_trigger(),
        }
    }

    fn trigger(&self, asset: &Address) -> (r: Trigger)
        ensures
            r == self.trigger_of(*asset),
    {
        match self.submissions.triggers.get(asset) {
            Some(t) => *t,
            None => Trigger {
                interval_seconds: 0,
                submission_threshold: 0,
                deviation_bps: 0,
                last_run: 0,
            },
        }
    }

    /// Whether `post` is `pre` with the trigger `t` of `asset`.
    pub open spec fn trigger_replaced(pre: Self, post: Self, asset: Address, t: Trigger) -> bool {
        &&& post.submissions.triggers@ == pre.submissions.triggers@.insert(asset, t)
        &&& post == (PriceOracleContract {
            submissions: Submissions { triggers: post.submissions.triggers, ..pre.submissions },
            ..pre
        })
    }

    /// Sets after how many seconds an aggregation of `asset` may be set off; `0` for never.
    pub fn set_time_trigger(&mut self, env: &Env, asset: Address, interval_seconds: u64) -> (r: Result<
        (),
        ErrorCode,
    >)
        ensures
            r == reply(
                refused_if(
                    old(self).admin_refusal(*env),
                    !old(self).book.assets@.contains_key(asset),
                    ErrorCode::AssetNotRegistered,
                ),
            ),
            r is Err ==> *final(self) == *old(self),
            r is Ok ==> PriceOracleContract::trigger_replaced(
                *old(self),
                *final(self),
                asset,
                Trigger { interval_seconds, ..old(self).trigger_of(asset) },
            ),
    {
        if let Some(e) = self.check_admin(env) {
            return Err(e);
        }
        if !self.book.assets.contains_key(&asset) {
            return Err(ErrorCode::AssetNotRegistered);
        }
        let t: Trigger = self.trigger(&asset);
        self.submissions.triggers.insert(asset, Trigger { interval_seconds, ..t });
        Ok(())
    }

    /// After how many seconds an aggregation of `asset` may be set off; `0` for never.
    pub fn get_time_trigger(&self, asset: Address) -> (r: u64)
        ensures
            r == self.trigger_of(asset).interval_seconds,
    {
        self.trigger(&asset).interval_seconds
    }

    /// Sets how many submissions set an aggregation of `asset` off; `0` for none.
    pub fn set_submission_threshold_trigger(&mut self, env: &Env, asset: Address, threshold: u32) -> (r:
        Result<(), ErrorCode>)
        ensures
            r == reply(
                refused_if(
                    old(self).admin_refusal(*env),
                    !old(self).book.assets@.contains_key(asset),
                    ErrorCode::AssetNotRegistered,
                ),
            ),
            r is Err ==> *final(self) == *old(self),
            r is Ok ==> PriceOracleContract::trigger_replaced(
                *old(self),
                *final(self),
                asset,
                Trigger { submission_threshold: threshold, ..old(self).trigger_of(asset) },
            ),
    {
        if let Some(e) = self.check_admin(env) {
            return Err(e);
        }
        if !self.book.assets.contains_key(&asset) {
            return Err(ErrorCode::AssetNotRegistered);
        }
        let t: Trigger = self.trigger(&asset);
        self.submissions.triggers.insert(asset, Trigger { submission_threshold: threshold, ..t });
        Ok(())
    }

    /// How many submissions set an aggregation of `asset` off; `0` for none.
    pub fn get_submission_threshold_trigger(&self, asset: Address) -> (r: u32)
        ensures
            r == self.trigger_of(asset).submission_threshold,
    {
        self.trigger(&asset).submission_threshold
    }

    /// Sets which deviation sets an aggregation of `asset` off, in ten-thousandths; `0` for none.
    pub fn set_deviation_trigger(&mut self, env: &Env, asset: Address, deviation_bps: u32) -> (r: Result<
        (),
        ErrorCode,
    >)
        ensures
            r == reply(
                refused_if(
                    refused_if(
                        old(self).admin_refusal(*env),
                        !old(self).book.assets@.contains_key(asset),
                        ErrorCode::AssetNotRegistered,
                    ),
                    deviation_bps > MAX_DEVIATION_BPS,
                    ErrorCode::InvalidConfiguration,
                ),
            ),
            r is Err ==> *final(self) == *old(self),
            r is Ok ==> PriceOracleContract::trigger_replaced(
                *old(self),
                *final(self),
                asset,
                Trigger { deviation_bps, ..old(self).trigger_of(asset) },
            ),
    {
        if let Some(e) = self.check_admin(env) {
            return Err(e);
        }
        if !self.book.assets.contains_key(&asset) {
            return Err(ErrorCode::AssetNotRegistered);
        }
        if deviation_bps > MAX_DEVIATION_BPS {
            return Err(ErrorCode::InvalidConfiguration);
        }
        let t: Trigger = self.trigger(&asset);
        self.submissions.triggers.insert(asset, Trigger { deviation_bps, ..t });
        Ok(())
    }

    /// Which deviation sets an aggregation of `asset` off, in ten-thousandths; `0` for none.
    pub fn get_deviation_trigger(&self, asset: Address) -> (r: u32)
        ensures
            r == self.trigger_of(asset).deviation_bps,
    {
        self.trigger(&asset).deviation_bps
    }

    /// Whether enough time has passed for an aggregation of `asset` to be set off.
    pub open spec fn time_is_up(self, env: Env, asset: Address) -> bool {
        let t = self.trigger_of(asset);
        t.interval_seconds > 0 && env.timestamp - t.last_run >= t.interval_seconds
    }

    /// Aggregates the prices of `asset` again if enough time has passed since that was last
    /// done, and tells whether it was done. Anyone may ask for it.
    pub fn poke_time_trigger(&mut self, env: &Env, asset: Address) -> (r: Result<bool, ErrorCode>)
        ensures
            r == (if !old(self).book.assets@.contains_key(asset) {
                Err(ErrorCode::AssetNotRegistered)
            } else {
                Ok(
                    old(self).time_is_up(*env, asset) && old(self).rules(*env).quorum(
                        old(self).book.submissions@,
                        asset,
                    ),
                )
            }),
            r != Ok::<bool, ErrorCode>(true) ==> *final(self) == *old(self),
            r == Ok::<bool, ErrorCode>(true) ==> {
                &&& final(self).price_state() == old(self).price_state().aggregated(
                    old(self).rules(*env),
                    asset,
                )
                &&& final(self).submissions.triggers@ == old(self).submissions.triggers@.insert(
                    asset,
                    Trigger { last_run: env.timestamp, ..old(self).trigger_of(asset) },
                )
            },
            *final(self) == (PriceOracleContract {
                book: final(self).book,
                events: final(self).events,
                submissions: Submissions {
                    triggers: final(self).submissions.triggers,
                    ..old(self).submissions
                },
                ..*old(self)
            }),
    {
        if !self.book.assets.contains_key(&asset) {
            return Err(ErrorCode::AssetNotRegistered);
        }
        let t: Trigger = self.trigger(&asset);
        if t.interval_seconds == 0 || env.timestamp < t.last_run || env.timestamp - t.last_run
            < t.interval_seconds {
            return Ok(false);
        }
        if !self.aggregate_asset(env, &asset) {
            return Ok(false);
        }
        self.submissions.triggers.insert(asset, Trigger { last_run: env.timestamp, ..t });
        Ok(true)
    }

    /// Sets the key with which `source` signs its prices.
    pub fn register_submission_key(&mut self, env: &Env, source: Address, public_key: [u8; 32]) -> (r: Result<
        (),
        ErrorCode,
    >)
        ensures
            r == (if !env.authorizes(source) {
                Err(ErrorCode::NotAuthorized)
            } else if !old(self).sources@.contains_key(source) {
                Err(ErrorCode::SourceNotFound)
            } else {
                Ok(())
            }),
            r is Err ==> *final(self) == *old(self),
            r is Ok ==> final(self).submissions.keys@ == old(self).submissions.keys@.insert(
                source,
                public_key,
            ),
            *final(self) == (PriceOracleContract {
                submissions: Submissions {
                    keys: final(self).submissions.keys,
                    ..old(self).submissions
                },
                ..*old(self)
            }),
    {
        if !env.is_authorized_by(&source) {
            return Err(ErrorCode::NotAuthorized);
        }
        if !self.sources.contains_key(&source) {
            return Err(ErrorCode::SourceNotFound);
        }
        self.submissions.keys.insert(source, public_key);
        Ok(())
    }

    /// The key with which `source` signs its prices, if one is set.
    pub fn get_submission_key(&self, source: Address) -> (r: Option<[u8; 32]>)
        ensures
            r == lookup(self.submissions.keys@, source),
    {
        match self.submissions.keys.get(&source) {
            Some(k) => Some(*k),
            None => None,
        }
    }

    /// The number of the last signed price of `source`.
    pub open spec fn last_nonce(self, source: Address) -> u64 {
        match lookup(self.submissions.nonces@, source) {
            Some(n) => n,
            None => 0,
        }
    }

    /// Why a signed price is refused, if it is.
    pub open spec fn signed_refusal(
        self,
        env: Env,
        source: Address,
        asset: Address,
        price: i128,
        timestamp: u64,
        nonce: u64,
        expiration_ledger: u32,
        signature_valid: bool,
    ) -> Option<ErrorCode> {
        if self.halted(env) {
            Some(ErrorCode::ContractPaused)
        } else if !self.sources@.contains_key(source) {
            Some(ErrorCode::SourceNotFound)
        } else if !self.book.assets@.contains_key(asset) {
            Some(ErrorCode::AssetNotRegistered)
        } else if !self.submissions.keys@.contains_key(source) {
            Some(ErrorCode::SigningKeyNotRegistered)
        } else if env.ledger > expiration_ledger {
            Some(ErrorCode::SignatureExpired)
        } else if nonce <= self.last_nonce(source) {
            Some(ErrorCode::InvalidNonce)
        } else if !signature_valid {
            Some(ErrorCode::NotAuthorized)
        } else {
            self.direct_refusal(env, source, asset, price, timestamp)
        }
    }

    /// Submits a price that `source` has signed. Anyone may hand it in. `signature_valid` tells
    /// whether the source's registered key signs [`message_to_sign`] for these arguments.
    pub fn submit_price_with_proof(
        &mut self,
        env: &Env,
        source: Address,
        asset: Address,
        price: i128,
        timestamp: u64,
        nonce: u64,
        expiration_ledger: u32,
        signature_valid: bool,
    ) -> (r: Result<(), ErrorCode>)
        ensures
            r == reply(
                old(self).signed_refusal(
                    *env,
                    source,
                    asset,
                    price,
                    timestamp,
                    nonce,
                    expiration_ledger,
                    signature_valid,
                ),
            ),
            r is Err ==> *final(self) == *old(self),
            r is Ok ==> {
                &&& final(self).price_state() == old(self).price_state().submitted(
                    old(self).rules(*env),
                    PriceEntry { source, asset, price, timestamp, ledger: env.ledger },
                )
                &&& final(self).submissions.nonces@ == old(self).submissions.nonces@.insert(source, nonce)
            },
            *final(self) == (PriceOracleContract {
                book: final(self).book,
                events: final(self).events,
                submissions: Submissions {
                    nonces: final(self).submissions.nonces,
                    ..old(self).submissions
                },
                ..*old(self)
            }),
    {
        if self.is_halted(env) {
            return Err(ErrorCode::ContractPaused);
        }
        if !self.sources.contains_key(&source) {
            return Err(ErrorCode::SourceNotFound);
        }
        if !self.book.assets.contains_key(&asset) {
            return Err(ErrorCode::AssetNotRegistered);
        }
        if !self.submissions.keys.contains_key(&source) {
            return Err(ErrorCode::SigningKeyNotRegistered);
        }
        if env.ledger > expiration_ledger {
            return Err(ErrorCode::SignatureExpired);
        }
        let last: u64 = match self.submissions.nonces.get(&source) {
            Some(n) => *n,
            None => 0,
        };
        if nonce <= last {
            return Err(ErrorCode::InvalidNonce);
        }
        if !signature_valid {
            return Err(ErrorCode::NotAuthorized);
        }
        if let Some(e) = self.check_direct(env, &source, &asset, price, timestamp) {
            return Err(e);
        }
        self.take_price(env, PriceEntry { source, asset, price, timestamp, ledger: env.ledger });
        self.submissions.nonces.insert(source, nonce);
        Ok(())
    }

    /// Submits a price together with the volume behind it, if it is known; see
    /// [`Self::submit_price`].
    pub fn submit_price_with_volume(
        &mut self,
        env: &Env,
        source: Address,
        asset: Address,
        price: i128,
        timestamp: u64,
        volume: Option<i128>,
    ) -> (r: Result<(), ErrorCode>)
        ensures
            r == (if old(self).entered {
                Err(ErrorCode::Reentrancy)
            } else if !env.authorizes(source) {
                Err(ErrorCode::NotAuthorized)
            } else {
                reply(old(self).direct_refusal(*env, source, asset, price, timestamp))
            }),
            r is Err ==> *final(self) == *old(self),
            r is Ok ==> {
                &&& final(self).price_state() == old(self).price_state().submitted(
                    old(self).rules(*env),
                    PriceEntry { source, asset, price, timestamp, ledger: env.ledger },
                )
                &&& final(self).submissions.volumes@ == (match volume {
                    Some(v) => old(self).submissions.volumes@.insert((asset, source), v),
                    None => old(self).submissions.volumes@,
                })
            },
            *final(self) == (PriceOracleContract {
                book: final(self).book,
                events: final(self).events,
                submissions: Submissions {
                    volumes: final(self).submissions.volumes,
                    ..old(self).submissions
                },
                ..*old(self)
            }),
    {
        match self.submit_price(env, source, asset, price, timestamp, 0) {
            Err(e) => Err(e),
            Ok(_) => {
                if let Some(v) = volume {
                    self.submissions.volumes.insert((asset, source), v);
                }
                Ok(())
            },
        }
    }

    /// Sets the key against which proofs are checked.
    pub fn zk_set_verification_key(&mut self, env: &Env, vk: Vec<u8>) -> (r: Result<(), ErrorCode>)
        ensures
            r == reply(old(self).admin_refusal(*env)),
            *final(self) == (if r is Ok {
                PriceOracleContract {
                    submissions: Submissions { verifying_key: Some(vk), ..old(self).submissions },
                    ..*old(self)
                }
            } else {
                *old(self)
            }),
    {
        if let Some(e) = self.check_admin(env) {
            return Err(e);
        }
        self.submissions.verifying_key = Some(vk);
        Ok(())
    }

    /// The key against which proofs are checked, if one is set.
    pub fn zk_get_verification_key(&self) -> (r: Option<&Vec<u8>>)
        ensures
            r == (match &self.submissions.verifying_key {
                Some(k) => Some(k),
                None => None,
            }),
    {
        match &self.submissions.verifying_key {
            Some(k) => Some(k),
            None => None,
        }
    }

    /// Why a proven price is refused, if it is.
    pub open spec fn proven_refusal(
        self,
        env: Env,
        source: Address,
        asset: Address,
        public_signals: Seq<[u8; 32]>,
        proof_valid: bool,
    ) -> Option<ErrorCode> {
        let price = value_of(public_signals[1]@);
        let timestamp = value_of(public_signals[2]@);
        if self.entered {
            Some(ErrorCode::Reentrancy)
        } else if self.submissions.verifying_key is None {
            Some(ErrorCode::ZkVkNotSet)
        } else if public_signals.len() < PUBLIC_SIGNALS {
            Some(ErrorCode::ZkInvalidPublicSignals)
        } else if !proof_valid {
            Some(ErrorCode::ZkProofInvalid)
        } else if !self.sources@.contains_key(source) {
            Some(ErrorCode::SourceNotFound)
        } else if !self.book.assets@.contains_key(asset) {
            Some(ErrorCode::AssetNotRegistered)
        } else if price == 0 || price > i128::MAX {
            Some(ErrorCode::InvalidPrice)
        } else if timestamp > u64::MAX {
            Some(ErrorCode::InvalidTimestamp)
        } else {
            self.direct_refusal(env, source, asset, price as i128, timestamp as u64)
        }
    }

    /// Submits the price that a proof attests: the second of its public signals, observed at the
    /// time of the third. `proof_valid` tells whether the proof was found to hold for this asset:
    /// how the first signal, a hash, names the asset is up to whoever makes the proofs, and so is
    /// the form of the proofs and of the key, which is kept as it was given.
    pub fn zk_submit_price(
        &mut self,
        env: &Env,
        source: Address,
        asset: Address,
        public_signals: Vec<[u8; 32]>,
        proof_valid: bool,
    ) -> (r: Result<(), ErrorCode>)
        ensures
            r == reply(old(self).proven_refusal(*env, source, asset, public_signals@, proof_valid)),
            r is Err ==> *final(self) == *old(self),
            r is Ok ==> final(self).price_state() == old(self).price_state().submitted(
                old(self).rules(*env),
                PriceEntry {
                    source,
                    asset,
                    price: value_of(public_signals@[1]@) as i128,
                    timestamp: value_of(public_signals@[2]@) as u64,
                    ledger: env.ledger,
                },
            ),
            PriceOracleContract::only_prices_differ(*old(self), *final(self)),
    {
        if self.entered {
            return Err(ErrorCode::Reentrancy);
        }
        if self.submissions.verifying_key.is_none() {
            return Err(ErrorCode::ZkVkNotSet);
        }
        if public_signals.len() < PUBLIC_SIGNALS {
            return Err(ErrorCode::ZkInvalidPublicSignals);
        }
        if !proof_valid {
            return Err(ErrorCode::ZkProofInvalid);
        }
        if !self.sources.contains_key(&source) {
            return Err(ErrorCode::SourceNotFound);
        }
        if !self.book.assets.contains_key(&asset) {
            return Err(ErrorCode::AssetNotRegistered);
        }
        let price: i128 = match field_value(&public_signals[1]) {
            Some(p) => if p == 0 || p > i128::MAX as u128 {
                return Err(ErrorCode::InvalidPrice);
            } else {
                p as i128
            },
            None => {
                return Err(ErrorCode::InvalidPrice);
            },
        };
        let timestamp: u64 = match field_value(&public_signals[2]) {
            Some(t) => if t > u64::MAX as u128 {
                return Err(ErrorCode::InvalidTimestamp);
            } else {
                t as u64
            },
            None => {
                return Err(ErrorCode::InvalidTimestamp);
            },
        };
        if let Some(e) = self.check_direct(env, &source, &asset, price, timestamp) {
            return Err(e);
        }
        self.take_price(env, PriceEntry { source, asset, price, timestamp, ledger: env.ledger });
        Ok(())
    }

    /// The deviation that `source` is allowed, in ten-thousandths.
    pub open spec fn tolerance_of(self, source: Address) -> u32 {
        match lookup(self.deviation_tolerance@, source) {
            Some(t) => t,
            None => self.config.max_price_deviation,
        }
    }

    /// How far the last prices of `source` for `asset` lay from the aggregates of their time.
    pub fn get_source_deviation_report(&self, source: Address, asset: Address, num_rounds: u32) -> (r:
        DeviationReport)
        ensures
            r == report_of(
                last_rounds(
                    deviations_of(self.price_state().deviations, source, asset),
                    num_rounds,
                ),
                self.tolerance_of(source),
            ),
    {
        let limit: u32 = match self.deviation_tolerance.get(&source) {
            Some(t) => *t,
            None => self.config.max_price_deviation,
        };
        let most: usize = if num_rounds < MAX_ROUNDS {
            num_rounds as usize
        } else {
            MAX_ROUNDS as usize
        };
        let ghost all = deviations_of(self.price_state().deviations, source, asset);
        let mut last: Vec<u32> = Vec::new();
        if let Some(list) = self.book.deviations.get(&(source, asset)) {
            let start: usize = if list.len() > most {
                list.len() - most
            } else {
                0
            };
            let mut i: usize = start;
            while i < list.len()
                invariant
                    start <= i <= list@.len(),
                    last@ == list@.subrange(start as int, i as int),
                decreases list@.len() - i,
            {
                last.push(list[i]);
                i += 1;
                assert(last@ =~= list@.subrange(start as int, i as int));
            }
        }
        assert(last@ =~= last_rounds(all, num_rounds));
        report(&last, limit)
    }
}

} // verus!
