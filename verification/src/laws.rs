//! What holds across calls.

use crate::aggregation::{
    a_combined_price_lies_between, a_majority_decides_the_median, all_within, combined, count_within,
    AggregationMethod,
};
use crate::contract::{FrozenPrice, PriceOracleContract};
use crate::env::Env;
use crate::error::ErrorCode;
use crate::history_log::{first_from, in_ledger_order, recording_keeps_ledger_order, with_entry};
use crate::pools::{a_blended_price_lies_between, a_market_share_is_sound, market_share};
use crate::price_book::{
    entry_of, history_of, lookup, next_versioned, prices_of, weights_of, AggregationRules, PriceState,
};
use crate::recovery::GuardianRecovery;
use crate::timelock::elapsed;
use crate::types::{Address, AggregatePrice, PriceEntry, VersionedAggregatePrice};
use vstd::prelude::*;

verus! {

proof fn lemma_blend_within(
    rules: AggregationRules,
    submissions: Map<(Address, Address), PriceEntry>,
    asset: Address,
    lo: i128,
    hi: i128,
)
    requires
        ({
            let c = rules.contributors(submissions, asset);
            lo <= combined(
                rules.method,
                prices_of(submissions, asset, c),
                weights_of(rules.weights, c),
            ) <= hi
        }),
        market_share(rules.pools, asset, rules.decimals) matches Some(m) ==> lo <= m.price <= hi,
    ensures
        lo <= rules.agreed(submissions, asset).price <= hi,
{
    let c = rules.contributors(submissions, asset);
    let price = combined(rules.method, prices_of(submissions, asset, c), weights_of(rules.weights, c)) as i128;
    a_market_share_is_sound(rules.pools, asset, rules.decimals);
    if let Some(m) = market_share(rules.pools, asset, rules.decimals) {
        a_blended_price_lies_between(price, m);
    }
}

/// The price that sources agree on is not below the lowest and not above the highest price that
/// goes into it, that of a pool where one counts among them.
pub proof fn an_agreed_price_lies_between(
    rules: AggregationRules,
    submissions: Map<(Address, Address), PriceEntry>,
    asset: Address,
    lo: i128,
    hi: i128,
)
    requires
        rules.quorum(submissions, asset),
        all_within(prices_of(submissions, asset, rules.contributors(submissions, asset)), lo, hi),
        market_share(rules.pools, asset, rules.decimals) matches Some(m) ==> lo <= m.price <= hi,
    ensures
        lo <= rules.agreed(submissions, asset).price <= hi,
{
    let c = rules.contributors(submissions, asset);
    a_combined_price_lies_between(
        rules.method,
        prices_of(submissions, asset, c),
        weights_of(rules.weights, c),
        lo,
        hi,
    );
    lemma_blend_within(rules, submissions, asset, lo, hi);
}

/// Where prices are combined by their median, sources that are fewer than half of those that
/// contribute cannot move the price out of the range in which the others, and the pool where one
/// counts, agree.
pub proof fn a_minority_cannot_move_the_median(
    rules: AggregationRules,
    submissions: Map<(Address, Address), PriceEntry>,
    asset: Address,
    lo: i128,
    hi: i128,
)
    requires
        rules.method == AggregationMethod::Median,
        ({
            let c = rules.contributors(submissions, asset);
            2 * count_within(prices_of(submissions, asset, c), lo, hi) > c.len()
        }),
        market_share(rules.pools, asset, rules.decimals) matches Some(m) ==> lo <= m.price <= hi,
    ensures
        lo <= rules.agreed(submissions, asset).price <= hi,
{
    let c = rules.contributors(submissions, asset);
    a_majority_decides_the_median(prices_of(submissions, asset, c), lo, hi);
    lemma_blend_within(rules, submissions, asset, lo, hi);
}

/// A submitted price replaces what its source last submitted for its asset, and nothing else.
pub proof fn a_submitted_price_is_kept(s: PriceState, rules: AggregationRules, entry: PriceEntry)
    ensures
        lookup(s.submitted(rules, entry).submissions, (entry.asset, entry.source)) == Some(entry),
        forall|asset: Address, source: Address|
            (asset, source) != (entry.asset, entry.source) ==> #[trigger] lookup(
                s.submitted(rules, entry).submissions,
                (asset, source),
            ) == lookup(s.submissions, (asset, source)),
{
}

/// What a source submits can be read back, and where enough sources have priced the asset, what
/// they agree on is reported at once.
pub proof fn a_submission_can_be_read_back(
    before: PriceOracleContract,
    after: PriceOracleContract,
    env: Env,
    entry: PriceEntry,
)
    requires
        after.price_state() == before.price_state().submitted(before.rules(env), entry),
        PriceOracleContract::only_prices_differ(before, after),
    ensures
        after.book.submissions@.contains_key((entry.asset, entry.source)),
        after.book.submissions@[(entry.asset, entry.source)] == entry,
        !before.frozen@.contains_key(entry.asset) && before.rules(env).quorum(
            after.book.submissions@,
            entry.asset,
        ) ==> after.reported(entry.asset) == Some(
            before.rules(env).agreed(after.book.submissions@, entry.asset),
        ),
{
    assert(after.price_state().submissions == after.book.submissions@);
    assert(after.price_state().aggregates == after.book.aggregates@);
}

/// A price for one asset changes neither the aggregate nor the records of another.
pub proof fn a_price_concerns_its_asset_only(
    s: PriceState,
    rules: AggregationRules,
    entry: PriceEntry,
    other: Address,
)
    requires
        other != entry.asset,
    ensures
        lookup(s.submitted(rules, entry).aggregates, other) == lookup(s.aggregates, other),
        history_of(s.submitted(rules, entry).histories, other) == history_of(s.histories, other),
        rules.contributors(s.submitted(rules, entry).submissions, other) == rules.contributors(
            s.submissions,
            other,
        ),
{
    let after = s.submitted(rules, entry).submissions;
    let p = |x: Address| rules.counts(s.submissions, other, x);
    let q = |x: Address| rules.counts(after, other, x);
    assert(p =~= q);
}

/// What an aggregation agrees on is what is reported afterwards and what is recorded last, and
/// the records stay in the order of their ledgers.
pub proof fn an_aggregate_is_reported_and_recorded(s: PriceState, rules: AggregationRules, asset: Address)
    requires
        rules.quorum(s.submissions, asset),
        rules.history_limit > 0,
        in_ledger_order(history_of(s.histories, asset)),
    ensures
        s.aggregated(rules, asset).aggregates[asset].aggregate == rules.agreed(s.submissions, asset),
        history_of(s.aggregated(rules, asset).histories, asset).len() <= rules.history_limit,
        history_of(s.aggregated(rules, asset).histories, asset).last() == entry_of(
            rules.agreed(s.submissions, asset),
        ),
        in_ledger_order(history_of(s.aggregated(rules, asset).histories, asset)),
{
    let h = history_of(s.histories, asset);
    let e = entry_of(rules.agreed(s.submissions, asset));
    recording_keeps_ledger_order(h, e, rules.compaction_threshold, rules.history_limit);
    assert(with_entry(h, e, rules.compaction_threshold).len() > 0);
}

/// The version of an aggregate goes up by one where the price changes and stays where it does
/// not.
pub proof fn the_version_moves_with_the_price(old_value: VersionedAggregatePrice, aggregate: AggregatePrice)
    requires
        old_value.version < u32::MAX,
    ensures
        next_versioned(Some(old_value), aggregate).version == old_value.version + (if aggregate.price
            != old_value.aggregate.price {
            1int
        } else {
            0
        }),
        next_versioned(Some(old_value), aggregate).aggregate == aggregate,
{
}

/// While the contract is paused it accepts no price.
pub proof fn a_paused_contract_accepts_no_price(
    c: PriceOracleContract,
    env: Env,
    source: Address,
    asset: Address,
    price: i128,
    timestamp: u64,
)
    requires
        c.halted(env),
    ensures
        c.price_refusal(env, source, asset, price, timestamp) == Some(ErrorCode::ContractPaused),
        c.direct_refusal(env, source, asset, price, timestamp) == Some(ErrorCode::ContractPaused),
{
}

/// No price is accepted for an asset whose price is frozen.
pub proof fn a_frozen_asset_accepts_no_price(
    c: PriceOracleContract,
    env: Env,
    source: Address,
    asset: Address,
    price: i128,
    timestamp: u64,
)
    requires
        c.frozen@.contains_key(asset),
    ensures
        c.price_refusal(env, source, asset, price, timestamp) is Some,
        c.direct_refusal(env, source, asset, price, timestamp) is Some,
{
}

/// Whatever happens to the prices, a frozen price is reported as it was frozen, at any age.
pub proof fn a_frozen_price_is_reported_unchanged(
    before: PriceOracleContract,
    after: PriceOracleContract,
    env: Env,
    asset: Address,
    max_age: u64,
)
    requires
        before.frozen@.contains_key(asset),
        PriceOracleContract::only_prices_differ(before, after),
    ensures
        after.reported(asset) == Some(before.frozen@[asset].aggregate),
        after.answer(env, asset, max_age) == Some(before.frozen@[asset].aggregate),
{
}

/// Freezing a price does not change what is reported, and unfreezing it again leaves nothing
/// behind.
pub proof fn unfreezing_undoes_freezing(
    before: PriceOracleContract,
    frozen: PriceOracleContract,
    after: PriceOracleContract,
    asset: Address,
    price: FrozenPrice,
)
    requires
        !before.frozen@.contains_key(asset),
        before.book.aggregates@.contains_key(asset),
        price.aggregate == before.book.aggregates@[asset].aggregate,
        frozen == (PriceOracleContract { frozen: frozen.frozen, ..before }),
        frozen.frozen@ == before.frozen@.insert(asset, price),
        after == (PriceOracleContract { frozen: after.frozen, ..frozen }),
        after.frozen@ == frozen.frozen@.remove(asset),
    ensures
        frozen.reported(asset) == before.reported(asset),
        after.reported(asset) == before.reported(asset),
        after.frozen@ == before.frozen@,
{
    assert(after.frozen@ =~= before.frozen@);
}

/// Putting what was recorded into weekly buckets a second time moves nothing.
pub proof fn sharding_twice_moves_nothing(before: PriceOracleContract, after: PriceOracleContract, asset: Address)
    requires
        after == (PriceOracleContract { sharded_upto: after.sharded_upto, ..before }),
        ({
            let h = before.history(asset);
            &&& h.len() > 0 ==> h.last().ledger < u32::MAX
            &&& after.sharded_upto@ == (if h.len() > 0 && h.last().ledger >= before.unsharded_from(asset) {
                before.sharded_upto@.insert(asset, h.last().ledger)
            } else {
                before.sharded_upto@
            })
        }),
    ensures
        first_from(after.history(asset), after.unsharded_from(asset)) == after.history(asset).len(),
{
}

/// A proposed operation is not executed before its time, and not twice.
pub proof fn an_operation_waits_and_runs_once(
    before: PriceOracleContract,
    after: PriceOracleContract,
    env: Env,
    later: Env,
    op_id: u32,
)
    requires
        before.execution_refusal(env, op_id) is None,
        after.timelock.operations@ == before.timelock.operations@.remove(op_id),
    ensures
        env.ledger >= before.timelock.operations@[op_id].proposed_ledger
            + before.timelock.operations@[op_id].delay,
        after.execution_refusal(later, op_id) is Some,
{
}

/// Whoever comes into office by a recovery has the approval of as many different guardians as
/// are needed, and the administrator has had their time to object. Every call that concerns a
/// recovery keeps what this rests on.
pub proof fn a_recovery_has_enough_approvals(c: PriceOracleContract, env: Env, p: GuardianRecovery, since: u32)
    requires
        c.recovery.sound(),
        c.recovery.pending == Some(p),
        p.threshold_ledger == Some(since),
        elapsed(since, env.ledger, c.recovery.delay),
    ensures
        p.approvals@.no_duplicates(),
        p.approvals@.len() >= c.recovery.threshold,
        forall|i: int| 0 <= i < p.approvals@.len() ==> c.recovery.guardians@.contains(#[trigger] p.approvals@[i]),
        env.ledger >= since + c.recovery.delay,
{
}

} // verus!
