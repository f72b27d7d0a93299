//! What running the contract means, told of who authorizes a call and of what waits.

use crate::answer_laws::seconds_reported;
use crate::bridges::{left_at, proof_root, signed_count, valid_count};
use crate::channels::BatchItem;
use crate::commit_reveal::{commits_left, CommitKey, HashedReveal, PriceCommit};
use crate::config_history::{newest_first, with_snapshot, ConfigSnapshot};
use crate::consumers::ConsumerAccessMode;
use crate::contract::{Config, PriceOracleContract};
use crate::digest::{be_bytes, sha256_of};
use crate::env::Env;
use crate::events::Event;
use crate::fee_market::{amount_of, QueuedSubmission};
use crate::finality::finality_ledger;
use crate::history::{hash_of, word_of, ExportedEntry};
use crate::market_laws::{a_deviation_is_in_ten_thousandths, a_fee_is_shared_by_the_ratio, divides_to};
use crate::multisig::quorum_since;
use crate::operations::{CoreState, OperationType};
use crate::participation_laws::{a_price_is_accepted_where_nothing_stands_against_it, acceptable};
use crate::price_book::{pruned_events, AggregationRules};
use crate::pricing_laws::{aggregate_price, asked, contributors, lemma_filter_members};
use crate::recovery::threshold_since;
use crate::references::mapped;
use crate::relayers::{asset_counts_after, count_of, latencies_after, RelayedSubmission};
use crate::sampling::chosen;
use crate::service::{after_step, count_if};
use crate::submissions::value_of;
use crate::timelock::{BatchOperation, OperationPriority};
use crate::types::{Address, PriceHistoryEntry};
use vstd::arithmetic::power::pow;
use vstd::arithmetic::power2::pow2;
use vstd::prelude::*;

verus! {

/// Whether the administrator is among those who authorize the call.
pub open spec fn by_the_administrator(c: PriceOracleContract, env: Env) -> bool {
    c.admin matches Some(a) && env.authorized@.contains(a)
}

/// A proposed operation is executed only by the administrator, and only once as many ledgers as it has
/// to wait have passed since it was proposed.
pub proof fn an_operation_waits_its_time(c: PriceOracleContract, env: Env, op_id: u32)
    ensures
        ({
            let op = c.timelock.operations@[op_id];
            c.execution_refusal(env, op_id) is None <==> {
                &&& !c.entered
                &&& by_the_administrator(c, env)
                &&& c.timelock.operations@.contains_key(op_id)
                &&& env.ledger >= op.proposed_ledger + op.delay
            }
        }),
{
}

/// An operation waits as long as is set for its priority, or else as long as is set for all.
pub proof fn delays_follow_the_priority(c: PriceOracleContract, delay: u32)
    ensures
        c.timelock.delay_of(OperationPriority::Urgent) == (if c.timelock.urgent_delay is Some {
            c.timelock.urgent_delay.unwrap()
        } else {
            c.timelock.duration
        }),
        c.timelock.delay_of(OperationPriority::Normal) == (if c.timelock.normal_delay is Some {
            c.timelock.normal_delay.unwrap()
        } else {
            c.timelock.duration
        }),
        c.timelock.delay_of(OperationPriority::LongTerm) == (if c.timelock.long_term_delay is Some {
            c.timelock.long_term_delay.unwrap()
        } else {
            c.timelock.duration
        }),
        forall|p: OperationPriority, q: OperationPriority|
            #![trigger c.timelock.with_delay(p, delay).delay_of(q)]
            c.timelock.with_delay(p, delay).delay_of(q) == (if p == q {
                delay
            } else {
                c.timelock.delay_of(q)
            }),
{
}

/// A batch fails exactly where one of its operations does.
pub proof fn a_batch_succeeds_as_a_whole(c: PriceOracleContract, ops: Seq<BatchOperation>)
    ensures
        c.batch_error(ops) is None <==> forall|i: int|
            #![trigger ops[i]]
            0 <= i < ops.len() ==> c.operation_error(ops[i].op_type, ops[i].data@) is None,
    decreases ops.len(),
{
    if ops.len() > 0 {
        let d = ops.drop_last();
        a_batch_succeeds_as_a_whole(c, d);
        assert(ops[ops.len() - 1] == ops.last());
        assert(forall|i: int| 0 <= i < d.len() ==> #[trigger] d[i] == ops[i]);
        if c.batch_error(d) is Some {
            let i = choose|i: int|
                #![trigger d[i]]
                0 <= i < d.len() && c.operation_error(d[i].op_type, d[i].data@) is Some;
            assert(ops[i] == d[i]);
        } else {
            assert forall|i: int| #![trigger ops[i]] 0 <= i < d.len() implies c.operation_error(
                ops[i].op_type,
                ops[i].data@,
            ) is None by {
                assert(d[i] == ops[i]);
            }
        }
    }
}

/// A batch is executed only by the administrator, only once it has waited, and only where none of its
/// operations fails.
pub proof fn a_batch_waits_its_time(c: PriceOracleContract, env: Env, batch_id: u32)
    ensures
        ({
            let b = c.timelock.batches@[batch_id];
            let ops = b.operations@;
            c.batch_execution_refusal(env, batch_id) is None <==> {
                &&& by_the_administrator(c, env)
                &&& c.timelock.batches@.contains_key(batch_id)
                &&& env.ledger >= b.proposed_ledger + b.delay
                &&& forall|i: int|
                    #![trigger ops[i]]
                    0 <= i < ops.len() ==> c.operation_error(ops[i].op_type, ops[i].data@) is None
            }
        }),
{
    a_batch_succeeds_as_a_whole(c, c.timelock.batches@[batch_id].operations@);
}

/// An operation that carries a number sets the one setting that it is for, and keeps the configuration
/// before as the newest snapshot.
pub proof fn an_operation_changes_one_setting(s: CoreState, ledger: u32, op: OperationType, n: u32)
    requires
        op == OperationType::SetMinSources || op == OperationType::SetMaxHistory || op
            == OperationType::SetResolution || op == OperationType::SetDecimals,
        s.snapshots.len() <= 100,
    ensures
        ({
            let t = s.after(ledger, op, be_bytes(n as nat, 4));
            &&& t.admin == s.admin
            &&& t.description == s.description
            &&& t.snapshots.last().config == s.config
            &&& t.snapshots.last().ledger == ledger
            &&& op == OperationType::SetMinSources ==> t.config == (Config {
                min_sources_required: n,
                ..s.config
            })
            &&& op == OperationType::SetMaxHistory ==> t.config == (Config { max_history_length: n, ..s.config })
            &&& op == OperationType::SetResolution ==> t.config == (Config { resolution: n, ..s.config })
            &&& op == OperationType::SetDecimals ==> t.config == (Config { decimals: n, ..s.config })
        }),
{
    crate::operations::a_number_is_read_back(op, n);
    a_snapshot_is_the_newest(s.snapshots, s.config, ledger);
}

/// An operation can hand over the office, and one can set how far prices may run ahead of the clock.
pub proof fn an_operation_hands_over_the_office(s: CoreState, ledger: u32, a: Address, seconds: u64)
    ensures
        s.after(ledger, OperationType::SetAdmin, crate::submissions::address_bytes(a)) == (CoreState {
            admin: Some(a),
            ..s
        }),
        s.after(ledger, OperationType::SetTimestampThreshold, be_bytes(seconds as nat, 8)).config == (Config {
            timestamp_threshold: seconds,
            ..s.config
        }),
{
    crate::operations::an_address_is_read_back(a);
    crate::operations::seconds_are_read_back(seconds);
}

/// As many sources may be asked for as are registered, and at least one. Where none is registered, any
/// number may be.
pub proof fn no_more_sources_are_needed_than_there_are(c: PriceOracleContract, n: u32)
    ensures
        c.operation_error(OperationType::SetMinSources, be_bytes(n as nat, 4)) is None <==> n > 0 && (
        c.sources.keys().len() == 0 || n <= c.sources.keys().len()),
{
    crate::operations::a_number_is_read_back(OperationType::SetMinSources, n);
}

/// A snapshot that is added is the newest, with the next version. Up to a hundred are kept, and the
/// oldest gives way.
pub proof fn a_snapshot_is_the_newest(s: Seq<ConfigSnapshot>, config: Config, ledger: u32)
    requires
        s.len() <= 100,
    ensures
        ({
            let t = with_snapshot(s, config, ledger);
            &&& 0 < t.len() <= 100
            &&& t.last().config == config
            &&& t.last().ledger == ledger
            &&& s.len() == 0 ==> t.last().version == 1
            &&& s.len() > 0 && s.last().version < u32::MAX ==> t.last().version == s.last().version + 1
            &&& s.len() < 100 ==> t.drop_last() == s
            &&& s.len() == 100 ==> t.drop_last() == s.skip(1)
        }),
{
    let t = with_snapshot(s, config, ledger);
    if s.len() < 100 {
        assert(t.drop_last() =~= s);
    } else {
        assert(t.drop_last() =~= s.skip(1));
    }
}

/// Snapshots are listed from the newest one back, as many as are asked for and there are.
pub proof fn snapshots_are_listed_from_the_newest(s: Seq<ConfigSnapshot>, count: u32)
    ensures
        ({
            let l = newest_first(s, count);
            &&& l.len() <= count && l.len() <= s.len()
            &&& l.len() == count || l.len() == s.len()
            &&& l.len() > 0 ==> l[0] == s.last()
            &&& l == s.skip(s.len() - l.len()).reverse()
        }),
{
    let l = newest_first(s, count);
    assert(l =~= s.skip(s.len() - l.len()).reverse());
}

/// The operation at the head of the queue is executed once enough governors have approved it and the
/// timelock has passed since they did.
pub proof fn a_queued_operation_needs_approval(c: PriceOracleContract, env: Env, executor: Address, op_id: u32)
    ensures
        ({
            let op = c.multisig.queue@[op_id];
            c.ms_execution_refusal(env, executor, op_id) is None <==> {
                &&& !c.entered
                &&& env.authorized@.contains(executor)
                &&& c.admin == Some(executor) || c.multisig.governors@.contains(executor)
                &&& c.multisig.queue@.contains_key(op_id)
                &&& op_id == (if c.multisig.queue.ids().len() > 0 {
                    c.multisig.queue.ids()[0]
                } else {
                    0
                })
                &&& op.approvals@.len() >= c.multisig.required
                &&& op.quorum_ledger matches Some(since) && env.ledger >= since + c.timelock.duration
            }
        }),
{
}

/// The timelock of an approved operation runs from the approval on that made them enough, and not while
/// there are too few.
pub proof fn approvals_start_the_clock_once(before: Option<u32>, count: nat, required: u32, ledger: u32, later: u32)
    ensures
        count < required ==> quorum_since(before, count, required, ledger) is None,
        count >= required && before is None ==> quorum_since(before, count, required, ledger) == Some(ledger),
        count >= required ==> quorum_since(
            quorum_since(before, count, required, ledger),
            count + 1,
            required,
            later,
        ) == quorum_since(before, count, required, ledger),
{
}

/// An update of a channel is taken where it is signed, its prices are numbered upwards, and the first
/// number is above the last one used.
pub proof fn an_update_is_numbered_upwards(
    c: PriceOracleContract,
    source: Address,
    batch: Seq<BatchItem>,
    signature_valid: bool,
)
    ensures
        c.channel_refusal(source, batch, signature_valid) is None <==> {
            &&& signature_valid
            &&& batch.len() > 0
            &&& batch[0].nonce > 0
            &&& c.channels.open@[source].latest matches Some(item) ==> batch[0].nonce > item.nonce
            &&& forall|i: int, j: int|
                0 <= i < j < batch.len() ==> (#[trigger] batch[i]).nonce < (#[trigger] batch[j]).nonce
        },
{
}

/// An aggregate can become final once the window has passed since it was put forward.
pub proof fn finality_comes_after_the_window(c: PriceOracleContract, env: Env, asset: Address)
    requires
        env.ledger + c.finality.ledgers <= u32::MAX,
    ensures
        ({
            let e = c.pending_entry(env, asset);
            &&& e.finality_ledger == env.ledger + c.finality.ledgers
            &&& e.committed_ledger == env.ledger
            &&& e.ledger_hash == env.ledger_hash
            &&& e.aggregate == c.book.aggregates@[asset].aggregate
        }),
        finality_ledger(env.ledger, c.finality.ledgers) == env.ledger + c.finality.ledgers,
{
}

pub(crate) proof fn lemma_count_if(keys: Seq<Address>, pred: spec_fn(Address) -> bool, n: int)
    requires
        0 <= n <= keys.len(),
    ensures
        count_if(keys, pred, n) == keys.take(n).filter(pred).len(),
    decreases n,
{
    reveal(Seq::filter);
    if n > 0 {
        lemma_count_if(keys, pred, n - 1);
        assert(keys.take(n).drop_last() =~= keys.take(n - 1));
    }
}

/// The state at a glance counts the registered sources and assets, those sources that were heard of in
/// time, those that are suspended, those assets that have an
/// aggregate, and those whose aggregate is too old to be reported.
pub proof fn a_glance_counts_what_is_there(c: PriceOracleContract, env: Env)
    requires
        c.sources.keys().len() <= u32::MAX,
        c.book.assets.keys().len() <= u32::MAX,
    ensures
        ({
            let h = c.health(env);
            let sources = c.sources.keys();
            let assets = c.book.assets.keys();
            &&& h.registered_sources == sources.len()
            &&& h.registered_assets == assets.len()
            &&& h.active_sources == sources.filter(|s: Address| !c.source_inactive(env, s)).len()
            &&& h.suspended_sources == sources.filter(
                |s: Address| c.suspended@.contains_key(s) && c.suspended@[s],
            ).len()
            &&& h.priced_assets == assets.filter(|a: Address| c.book.aggregates@.contains_key(a)).len()
            &&& h.stale_prices == assets.filter(
                |a: Address|
                    c.book.aggregates@.contains_key(a) && seconds_reported(c, a) > 0
                        && c.book.aggregates@[a].aggregate.timestamp + seconds_reported(c, a) < env.timestamp,
            ).len()
            &&& h.paused == c.paused
            &&& h.last_aggregation_ledger == c.book.last_aggregation_ledger
        }),
{
    let sources = c.sources.keys();
    let assets = c.book.assets.keys();
    assert(sources.take(sources.len() as int) =~= sources);
    assert(assets.take(assets.len() as int) =~= assets);
    let active = |s: Address| !c.source_inactive(env, s);
    let out = |s: Address| c.suspended@.contains_key(s) && c.suspended@[s];
    let out_too = |s: Address| c.is_suspended(s);
    assert(out =~= out_too);
    let priced = |a: Address| c.book.aggregates@.contains_key(a);
    lemma_count_if(sources, active, sources.len() as int);
    lemma_count_if(sources, out, sources.len() as int);
    lemma_count_if(assets, priced, assets.len() as int);
    let stale = |a: Address|
        c.book.aggregates@.contains_key(a) && seconds_reported(c, a) > 0
            && c.book.aggregates@[a].aggregate.timestamp + seconds_reported(c, a) < env.timestamp;
    let stale_too = |a: Address|
        c.book.aggregates@.contains_key(a) && !c.within_resolution(
            env,
            a,
            c.book.aggregates@[a].aggregate.timestamp,
        );
    assert(stale =~= stale_too);
    lemma_count_if(assets, stale, assets.len() as int);
    lemma_filter_len(assets, stale);
    lemma_filter_len(sources, active);
    lemma_filter_len(sources, out);
    lemma_filter_len(assets, priced);
}

proof fn lemma_filter_len(s: Seq<Address>, pred: spec_fn(Address) -> bool)
    ensures
        s.filter(pred).len() <= s.len(),
    decreases s.len(),
{
    reveal(Seq::filter);
    if s.len() > 0 {
        lemma_filter_len(s.drop_last(), pred);
    }
}

/// A step of a migration handles as many items as it is asked to, fifty where it is not told, and no
/// more than there are.
pub proof fn a_step_handles_its_batch(processed: u32, total: u32, batch_size: u32)
    requires
        processed <= total,
    ensures
        ({
            let batch = if batch_size == 0 {
                50
            } else {
                batch_size as int
            };
            let after = after_step(processed, total, batch_size);
            if processed + batch <= total {
                after == processed + batch
            } else {
                after == total
            }
        }),
{
}

/// An asset is inactive where it is registered, a timeout is set, and more ledgers than that have
/// passed since its last price.
pub proof fn an_asset_without_prices_is_inactive(c: PriceOracleContract, env: Env, asset: Address)
    ensures
        ({
            let timeout = if c.asset_timeouts@.contains_key(asset) {
                c.asset_timeouts@[asset]
            } else {
                c.settings.inactivity_timeout
            };
            c.asset_inactive(env, asset) <==> c.book.assets@.contains_key(asset) && timeout > 0 && env.ledger
                > c.book.assets@[asset] + timeout
        }),
{
}

/// Whoever was granted access may always ask, whoever was blocked may only ask where everyone may, and
/// others may ask unless only those may who were granted access.
pub proof fn access_follows_the_lists(c: PriceOracleContract, consumer: Address)
    ensures
        c.consumers.access@.contains_key(consumer) && c.consumers.access@[consumer] ==> c.may_ask(consumer),
        c.consumers.access@.contains_key(consumer) && !c.consumers.access@[consumer] ==> (c.may_ask(consumer)
            <==> c.consumers.access_mode == ConsumerAccessMode::Public),
        !c.consumers.access@.contains_key(consumer) ==> (c.may_ask(consumer) <==> c.consumers.access_mode
            != ConsumerAccessMode::AllowedOnly),
{
}

/// What another oracle calls an asset is told by the first pair that names it.
pub proof fn the_first_pair_tells_the_name(pairs: Seq<(Address, Address)>, asset: Address)
    ensures
        mapped(pairs, asset) is None ==> forall|i: int| 0 <= i < pairs.len() ==> (#[trigger] pairs[i]).0 != asset,
        mapped(pairs, asset) matches Some(name) ==> exists|i: int|
            {
                &&& 0 <= i < pairs.len()
                &&& #[trigger] pairs[i] == (asset, name)
                &&& forall|j: int| 0 <= j < i ==> (#[trigger] pairs[j]).0 != asset
            },
    decreases pairs.len(),
{
    if pairs.len() > 0 {
        let d = pairs.drop_last();
        the_first_pair_tells_the_name(d, asset);
        assert(pairs[pairs.len() - 1] == pairs.last());
        assert(forall|i: int| 0 <= i < d.len() ==> #[trigger] d[i] == pairs[i]);
        match mapped(d, asset) {
            Some(name) => {
                let i = choose|i: int|
                    {
                        &&& 0 <= i < d.len()
                        &&& #[trigger] d[i] == (asset, name)
                        &&& forall|j: int| 0 <= j < i ==> (#[trigger] d[j]).0 != asset
                    };
                assert(pairs[i] == (asset, name));
                assert forall|j: int| 0 <= j < i implies (#[trigger] pairs[j]).0 != asset by {
                    assert(d[j] == pairs[j]);
                }
            },
            None => {
                assert forall|j: int| 0 <= j < d.len() implies (#[trigger] pairs[j]).0 != asset by {
                    assert(d[j] == pairs[j]);
                }
            },
        }
    }
}

/// A comparison tells both prices and how far apart they are, in ten-thousandths of the other oracle's.
pub proof fn a_comparison_tells_the_distance(c: PriceOracleContract, asset: Address, reference_price: i128)
    ensures
        ({
            let known = c.book.aggregates@.contains_key(asset) && c.book.aggregates@[asset].aggregate.price > 0;
            let ours = c.book.aggregates@[asset].aggregate.price;
            &&& c.comparison(asset, reference_price) is Some <==> known && reference_price > 0 && c.reference_of(
                asset,
            ) is Some
            &&& c.comparison(asset, reference_price) matches Some(r) ==> {
                let apart = if ours >= reference_price {
                    ours - reference_price
                } else {
                    reference_price - ours
                };
                &&& r.our_price == ours
                &&& r.reference_price == reference_price
                &&& r.reference == c.reference_of(asset).unwrap().0
                &&& r.deviation_bps < u32::MAX ==> divides_to(
                    apart * 10_000,
                    reference_price as int,
                    r.deviation_bps as int,
                )
                &&& r.deviation_bps == u32::MAX ==> apart * 10_000 >= u32::MAX * reference_price
            }
        }),
{
    if reference_price > 0 {
        a_deviation_is_in_ten_thousandths(c.book.aggregates@[asset].aggregate.price, reference_price);
    }
}

/// The storage of an asset holds its records, the last prices of its sources, its registration, and
/// its aggregate where there is one. Each entry costs ten thousand a term, and a month has four.
pub proof fn storage_costs_by_the_entry(c: PriceOracleContract, asset: Address)
    requires
        (c.history(asset).len() + c.submissions_for(asset).len() + 2) * 40_000 <= u64::MAX,
    ensures
        ({
            let b = c.budget_of(asset);
            let n = c.history(asset).len() + c.submissions_for(asset).len() + (if c.book.aggregates@.contains_key(
                asset,
            ) {
                2int
            } else {
                1int
            });
            &&& b.history_entries == c.history(asset).len()
            &&& b.submission_entries == c.submissions_for(asset).len()
            &&& b.total_entries == n
            &&& b.term_cost == 10_000 * n
            &&& b.monthly_cost == 40_000 * n
        }),
{
}

/// The storage of several assets holds and costs what that of each does, together.
pub proof fn storage_adds_up(c: PriceOracleContract, assets: Seq<Address>, a: Address)
    requires
        c.total_budget_of(assets).assets < u64::MAX,
        c.total_budget_of(assets).total_entries + c.budget_of(a).total_entries <= u64::MAX,
        c.total_budget_of(assets).term_cost + c.budget_of(a).term_cost <= u64::MAX,
        c.total_budget_of(assets).monthly_cost + c.budget_of(a).monthly_cost <= u64::MAX,
    ensures
        ({
            let t = c.total_budget_of(assets.push(a));
            &&& t.assets == c.total_budget_of(assets).assets + 1
            &&& t.total_entries == c.total_budget_of(assets).total_entries + c.budget_of(a).total_entries
            &&& t.term_cost == c.total_budget_of(assets).term_cost + c.budget_of(a).term_cost
            &&& t.monthly_cost == c.total_budget_of(assets).monthly_cost + c.budget_of(a).monthly_cost
        }),
        c.total_budget_of(Seq::empty()).total_entries == 0,
        c.total_budget_of(Seq::empty()).term_cost == 0,
        c.total_budget_of(Seq::empty()).monthly_cost == 0,
{
    assert(assets.push(a).drop_last() =~= assets);
}

/// The first choice takes the member at the place that the first four bytes name, read as a number with
/// the highest byte first and counted around.
pub proof fn the_first_bytes_choose_first(pool: Seq<Address>, bytes: Seq<u8>, n: nat)
    requires
        n > 0,
        pool.len() > 0,
        bytes.len() == 32,
    ensures
        ({
            let number = ((bytes[0] * 256 + bytes[1]) * 256 + bytes[2]) * 256 + bytes[3];
            &&& chosen(pool, bytes, n, 0).len() > 0
            &&& chosen(pool, bytes, n, 0)[0] == pool[number % (pool.len() as int)]
        }),
{
}

proof fn lemma_valid_count(s: Seq<bool>)
    ensures
        valid_count(s) == s.filter(|b: bool| b).len(),
    decreases s.len(),
{
    reveal(Seq::filter);
    if s.len() > 0 {
        lemma_valid_count(s.drop_last());
    }
}

/// As many validators have signed as there are valid signatures, of which each validator has one.
pub proof fn every_validator_signs_once(validators: nat, signatures_valid: Seq<bool>)
    ensures
        signatures_valid.len() <= validators ==> signed_count(validators, signatures_valid)
            == signatures_valid.filter(|b: bool| b).len(),
        signatures_valid.len() > validators ==> signed_count(validators, signatures_valid)
            == signatures_valid.take(validators as int).filter(|b: bool| b).len(),
{
    lemma_valid_count(signatures_valid);
    lemma_valid_count(signatures_valid.take(validators as int));
}

/// The bits of a path tell, from the lowest up, at which levels the sibling stands on the left.
pub proof fn the_bits_tell_the_side(bits: u32, level: nat)
    ensures
        left_at(bits, level) <==> (bits as int / pow2(level) as int) % 2 == 1,
    decreases level,
{
    vstd::arithmetic::power2::lemma_pow2_pos(level);
    if level == 0 {
        vstd::arithmetic::power2::lemma2_to64();
    } else {
        let l = (level - 1) as nat;
        the_bits_tell_the_side(bits / 2, l);
        vstd::arithmetic::power2::lemma_pow2_pos(l);
        vstd::arithmetic::power2::lemma_pow2_unfold(level);
        vstd::arithmetic::div_mod::lemma_div_denominator(bits as int, 2, pow2(l) as int);
    }
}

/// A proof leads from a leaf over the digests of two neighbours each: at every level the digest so far
/// and its sibling are joined, the one on the left first.
pub proof fn a_proof_joins_neighbours(leaf: Seq<u8>, siblings: Seq<[u8; 32]>, bits: u32, n: nat)
    ensures
        proof_root(leaf, siblings, bits, 0) == leaf,
        (bits as int / pow2(n) as int) % 2 == 1 ==> proof_root(leaf, siblings, bits, n + 1) == sha256_of(
            siblings[n as int]@ + proof_root(leaf, siblings, bits, n),
        ),
        (bits as int / pow2(n) as int) % 2 == 0 ==> proof_root(leaf, siblings, bits, n + 1) == sha256_of(
            proof_root(leaf, siblings, bits, n) + siblings[n as int]@,
        ),
{
    the_bits_tell_the_side(bits, n);
}

/// A submission that is served and accepted has its fee shared out between its source and the treasury,
/// so that nothing is lost. One that is not accepted changes nothing.
pub proof fn a_served_fee_is_shared_out(
    c: PriceOracleContract,
    env: Env,
    s: Seq<QueuedSubmission>,
    x: QueuedSubmission,
)
    requires
        c.fee_market.distribution_ratio <= 100,
    ensures
        ({
            let before = c.after_serving(env, s);
            let after = c.after_serving(env, s.push(x));
            let paid = amount_of(after.source_balances, x.source) - amount_of(before.source_balances, x.source);
            let kept = after.treasury_balance - before.treasury_balance;
            if acceptable(c, env, x.source, x.asset, x.price, x.timestamp) && c.settings.bft_fault_tolerance
                == 0 {
                amount_of(before.source_balances, x.source) + x.priority_fee <= u128::MAX
                    && before.treasury_balance + x.priority_fee <= u128::MAX ==> {
                    &&& divides_to(x.priority_fee * c.fee_market.distribution_ratio, 100, paid)
                    &&& paid + kept == x.priority_fee
                    &&& forall|o: Address|
                        o != x.source ==> #[trigger] amount_of(after.source_balances, o) == amount_of(
                            before.source_balances,
                            o,
                        )
                }
            } else {
                after == before
            }
        }),
{
    assert(s.push(x).drop_last() =~= s);
    a_price_is_accepted_where_nothing_stands_against_it(c, env, x.source, x.asset, x.price, x.timestamp);
    a_fee_is_shared_by_the_ratio(x.priority_fee, c.fee_market.distribution_ratio);
}

/// A relayed batch is taken of an approved relayer who authorizes it, where it holds between one and
/// fifty prices, those that pay more come first, each source authorizes its price, and nothing stands
/// against any of them.
pub proof fn a_relayed_batch_is_taken_as_a_whole(
    c: PriceOracleContract,
    env: Env,
    relayer: Address,
    s: Seq<RelayedSubmission>,
)
    ensures
        c.relayed_batch_refusal(env, relayer, s) is None <==> {
            &&& env.authorized@.contains(relayer)
            &&& c.relayers.approved@.contains_key(relayer)
            &&& 1 <= s.len() <= 50
            &&& forall|i: int, j: int|
                0 <= i < j < s.len() ==> (#[trigger] s[i]).priority_fee >= (#[trigger] s[j]).priority_fee
            &&& c.settings.bft_fault_tolerance == 0
            &&& forall|i: int|
                #![trigger s[i]]
                0 <= i < s.len() ==> env.authorized@.contains(s[i].source) && acceptable(
                    c,
                    env,
                    s[i].source,
                    s[i].asset,
                    s[i].price,
                    s[i].timestamp,
                )
        },
{
    lemma_legs(c, env, s);
    if s.len() > 0 {
        assert(s[0] == s.first());
        if c.legs_refusal(env, s) is None {
            assert(c.leg_refusal(env, s[0]) is None);
        }
        if acceptable(c, env, s[0].source, s[0].asset, s[0].price, s[0].timestamp) {
            assert(!c.halted(env));
        }
        assert forall|i: int| #![trigger s[i]] 0 <= i < s.len() implies (c.leg_refusal(env, s[i]) is None
            <==> env.authorized@.contains(s[i].source) && acceptable(
            c,
            env,
            s[i].source,
            s[i].asset,
            s[i].price,
            s[i].timestamp,
        ) && c.settings.bft_fault_tolerance == 0) by {
            a_price_is_accepted_where_nothing_stands_against_it(
                c,
                env,
                s[i].source,
                s[i].asset,
                s[i].price,
                s[i].timestamp,
            );
        }
    }
}

proof fn lemma_legs(c: PriceOracleContract, env: Env, s: Seq<RelayedSubmission>)
    ensures
        c.legs_refusal(env, s) is None <==> forall|i: int|
            0 <= i < s.len() ==> c.leg_refusal(env, #[trigger] s[i]) is None,
    decreases s.len(),
{
    if s.len() > 0 {
        let d = s.drop_last();
        lemma_legs(c, env, d);
        assert(s[s.len() - 1] == s.last());
        assert(forall|i: int| 0 <= i < d.len() ==> #[trigger] d[i] == s[i]);
        if c.legs_refusal(env, d) is Some {
            let i = choose|i: int| 0 <= i < d.len() && c.leg_refusal(env, #[trigger] d[i]) is Some;
            assert(s[i] == d[i]);
        } else {
            assert forall|i: int| 0 <= i < d.len() implies c.leg_refusal(env, #[trigger] s[i]) is None by {
                assert(d[i] == s[i]);
            }
        }
    }
}

/// Every price that is relayed lengthens the relayer's latency by the seconds since it was observed, and
/// is counted for its asset. Nothing of other relayers changes.
pub proof fn every_relayed_price_counts(
    latencies: Map<Address, u64>,
    counts: Map<(Address, Address), u64>,
    relayer: Address,
    now: u64,
    s: Seq<RelayedSubmission>,
    x: RelayedSubmission,
)
    ensures
        ({
            let before = latencies_after(latencies, relayer, now, s);
            let after = latencies_after(latencies, relayer, now, s.push(x));
            let seconds = if now > x.timestamp {
                now - x.timestamp
            } else {
                0
            };
            &&& count_of(before, relayer) + seconds <= u64::MAX ==> count_of(after, relayer) == count_of(
                before,
                relayer,
            ) + seconds
            &&& forall|o: Address|
                o != relayer ==> #[trigger] count_of(after, o) == count_of(before, o)
        }),
        ({
            let before = asset_counts_after(counts, relayer, s);
            let after = asset_counts_after(counts, relayer, s.push(x));
            &&& count_of(before, (relayer, x.asset)) < u64::MAX ==> count_of(after, (relayer, x.asset))
                == count_of(before, (relayer, x.asset)) + 1
            &&& forall|o: (Address, Address)|
                o != (relayer, x.asset) ==> #[trigger] count_of(after, o) == count_of(before, o)
        }),
        count_of(latencies_after(latencies, relayer, now, Seq::empty()), relayer) == count_of(latencies, relayer),
        asset_counts_after(counts, relayer, Seq::empty()) == counts,
{
    assert(s.push(x).drop_last() =~= s);
}

/// A simulation with the prices that the contributing sources have submitted gives the aggregate.
pub proof fn a_simulation_agrees_with_the_aggregate(c: PriceOracleContract, env: Env, asset: Address)
    requires
        c.rules(env).quorum(c.book.submissions@, asset),
    ensures
        ({
            let k = contributors(c, env, asset);
            let given = k.map_values(|s: Address| (s, asked(c, asset, s)));
            c.simulated(asset, given) == Some(aggregate_price(c, env, asset))
        }),
{
    let k = contributors(c, env, asset);
    let given = k.map_values(|s: Address| (s, asked(c, asset, s)));
    let prices = given.map_values(|x: (Address, i128)| x.1);
    let sources = given.map_values(|x: (Address, i128)| x.0);
    assert(sources =~= k);
    assert(prices =~= crate::price_book::prices_of(c.book.submissions@, asset, k));
    let r = c.rules(env);
    let pred = |s: Address| r.counts(c.book.submissions@, asset, s);
    lemma_filter_members(r.sources, pred);
    assert(crate::aggregation::all_positive(prices)) by {
        assert forall|i: int| 0 <= i < prices.len() implies #[trigger] prices[i] > 0 by {
            assert(r.eligible(c.book.submissions@, asset)[i] == k[i]);
        }
    }
}

/// Approvals of a source are taken of approvers, one of each, as long as the source is not registered
/// yet; the one that makes them enough needs room for the source.
pub proof fn an_approval_is_given_once(c: PriceOracleContract, env: Env, approver: Address, proposal_id: u32)
    ensures
        ({
            let p = c.governance.proposals@[proposal_id];
            c.approval_refusal(env, approver, proposal_id) is None <==> {
                &&& !c.entered
                &&& env.authorized@.contains(approver)
                &&& c.governance.approval matches Some(g) && g.approvers@.contains(approver) && (
                p.approvals@.len() + 1 >= g.threshold ==> !c.sources@.contains_key(p.source) && (
                c.settings.max_sources == 0 || c.sources.keys().len() < c.settings.max_sources))
                &&& c.governance.proposals@.contains_key(proposal_id)
                &&& !p.accepted
                &&& !p.approvals@.contains(approver)
            }
        }),
{
}

/// A guardian approves a recovery once, and all who approve name the same administrator.
pub proof fn guardians_agree_on_one(c: PriceOracleContract, env: Env, guardian: Address, new_admin: Address)
    ensures
        c.recovery_refusal(env, guardian, new_admin) is None <==> {
            &&& !c.entered
            &&& env.authorized@.contains(guardian)
            &&& c.recovery.guardians@.contains(guardian)
            &&& c.recovery.pending matches Some(p) ==> p.new_admin == new_admin && !p.approvals@.contains(guardian)
        },
{
}

/// A holder has every role that was given to it, and no other.
pub proof fn roles_are_those_that_were_given(c: PriceOracleContract, holder: Address, n: int)
    requires
        0 <= n <= c.governance.roles.keys().len(),
    ensures
        forall|i: int|
            0 <= i < n ==> (c.roles_among(holder, n).contains(#[trigger] c.governance.roles.keys()[i]) <==> (
            exists|j: int|
                0 <= j < n && #[trigger] c.governance.roles.keys()[j] == c.governance.roles.keys()[i]
                    && c.holders_of(c.governance.roles.keys()[j]).contains(holder))),
        forall|k: int|
            0 <= k < c.roles_among(holder, n).len() ==> c.holders_of(#[trigger] c.roles_among(holder, n)[k]).contains(
                holder,
            ),
    decreases n,
{
    if n > 0 {
        roles_are_those_that_were_given(c, holder, n - 1);
        let keys = c.governance.roles.keys();
        let b = c.roles_among(holder, n - 1);
        let r = c.roles_among(holder, n);
        assert forall|i: int| 0 <= i < n implies (r.contains(#[trigger] keys[i]) <==> (exists|j: int|
            0 <= j < n && #[trigger] keys[j] == keys[i] && c.holders_of(keys[j]).contains(holder))) by {
            if c.holders_of(keys[i]).contains(holder) {
                assert(keys[i] == keys[i]);
                if i < n - 1 {
                    assert(b.contains(keys[i]));
                    let k = choose|k: int| 0 <= k < b.len() && b[k] == keys[i];
                    assert(r[k] == keys[i]);
                } else {
                    assert(r[r.len() - 1] == keys[i]);
                }
            } else if r.contains(keys[i]) {
                let k = choose|k: int| 0 <= k < r.len() && r[k] == keys[i];
                if k < b.len() {
                    assert(b[k] == keys[i]);
                }
            }
        }
    }
}

/// A simulation counts the operations of a batch that would fail.
pub proof fn a_simulation_counts_failures(c: PriceOracleContract, ops: Seq<BatchOperation>, n: int)
    requires
        0 <= n <= ops.len(),
    ensures
        c.failures(ops, n) == ops.take(n).filter(
            |o: BatchOperation| c.operation_error(o.op_type, o.data@) is Some,
        ).len(),
    decreases n,
{
    reveal(Seq::filter);
    if n > 0 {
        a_simulation_counts_failures(c, ops, n - 1);
        assert(ops.take(n).drop_last() =~= ops.take(n - 1));
    }
}

/// A commitment is gone once its price was revealed, and no other is.
pub proof fn a_revealed_commitment_is_gone(
    m: Map<CommitKey, PriceCommit>,
    source: Address,
    s: Seq<HashedReveal>,
    key: CommitKey,
)
    ensures
        commits_left(m, source, s).contains_key(key) <==> m.contains_key(key) && !(key.0 == source && exists|i: int|
            0 <= i < s.len() && (#[trigger] s[i]).asset == key.1.0 && s[i].round_ledger == key.1.1),
        commits_left(m, source, s).contains_key(key) ==> commits_left(m, source, s)[key] == m[key],
    decreases s.len(),
{
    if s.len() > 0 {
        let d = s.drop_last();
        a_revealed_commitment_is_gone(m, source, d, key);
        assert(s[s.len() - 1] == s.last());
        assert(forall|i: int| 0 <= i < d.len() ==> #[trigger] d[i] == s[i]);
        if exists|i: int| 0 <= i < d.len() && (#[trigger] d[i]).asset == key.1.0 && d[i].round_ledger == key.1.1 {
            let i = choose|i: int|
                0 <= i < d.len() && (#[trigger] d[i]).asset == key.1.0 && d[i].round_ledger == key.1.1;
            assert(s[i] == d[i]);
        }
        if exists|i: int| 0 <= i < s.len() && (#[trigger] s[i]).asset == key.1.0 && s[i].round_ledger == key.1.1 {
            let i = choose|i: int|
                0 <= i < s.len() && (#[trigger] s[i]).asset == key.1.0 && s[i].round_ledger == key.1.1;
            if i < d.len() {
                assert(d[i] == s[i]);
            }
        }
    }
}

/// Dropped records are announced, the oldest first, as many as a call may announce.
pub proof fn dropped_records_are_announced(asset: Address, dropped: Seq<PriceHistoryEntry>, limit: u32)
    ensures
        ({
            let e = pruned_events(asset, dropped, limit);
            &&& e.len() <= limit && e.len() <= dropped.len()
            &&& e.len() == limit || e.len() == dropped.len()
            &&& forall|i: int|
                0 <= i < e.len() ==> #[trigger] e[i] == (Event::HistoryPruned {
                    asset,
                    ledger: dropped[i].ledger,
                })
        }),
{
}

/// What decides an aggregation is what is set: a history keeps to both limits on its length.
pub proof fn aggregation_follows_the_settings(c: PriceOracleContract, env: Env)
    ensures
        ({
            let r = c.rules(env);
            &&& r.ledger == env.ledger && r.now == env.timestamp
            &&& r.sources == c.sources.keys()
            &&& r.weights == c.weights@
            &&& r.min_sources == c.config.min_sources_required
            &&& r.max_sources == c.settings.max_aggregation_sources
            &&& r.min_interval == c.settings.min_submission_interval
            &&& r.round == c.round
            &&& r.method == c.settings.aggregation_method
            &&& r.compaction_threshold == c.settings.compaction_threshold_bps
            &&& r.history_limit <= c.config.max_history_length
            &&& r.history_limit <= c.settings.max_history_per_asset
            &&& r.history_limit == c.config.max_history_length || r.history_limit
                == c.settings.max_history_per_asset
            &&& r.event_limit == c.settings.max_events_per_call
        }),
{
}

/// A source complies where it is registered and its last price is above zero and recent enough.
pub proof fn compliance_is_a_recent_price(c: PriceOracleContract, env: Env, asset: Address, source: Address)
    ensures
        c.compliant_sources(env, asset).contains(source) <==> {
            let e = c.book.submissions@[(asset, source)];
            &&& c.sources.keys().contains(source)
            &&& c.book.submissions@.contains_key((asset, source))
            &&& e.price > 0
            &&& c.settings.min_submission_interval == 0 || env.ledger <= e.ledger
                + c.settings.min_submission_interval
        },
{
    let r = AggregationRules { round: None, ..c.rules(env) };
    let pred = |s: Address| r.counts(c.book.submissions@, asset, s);
    let k = c.sources.keys();
    lemma_filter_members(k, pred);
    if k.contains(source) {
        let j = choose|j: int| 0 <= j < k.len() && k[j] == source;
        assert(k[j] == source);
    }
    if c.compliant_sources(env, asset).contains(source) {
        let f = k.filter(pred);
        let i = choose|i: int| 0 <= i < f.len() && f[i] == source;
        assert(pred(f[i]));
    }
}

/// Figures about the assets count each of them, those with an aggregate, those that are frozen, and
/// what is recorded for them.
pub proof fn an_analysis_counts_every_asset(c: PriceOracleContract, assets: Seq<Address>, a: Address)
    requires
        c.analysis_of(assets).assets < u64::MAX,
        c.analysis_of(assets).priced_assets < u64::MAX,
        c.analysis_of(assets).frozen_assets < u64::MAX,
        c.analysis_of(assets).history_entries + c.history(a).len() <= u64::MAX,
    ensures
        ({
            let x = c.analysis_of(assets);
            let y = c.analysis_of(assets.push(a));
            &&& y.sources == x.sources
            &&& y.assets == x.assets + 1
            &&& y.priced_assets == x.priced_assets + (if c.book.aggregates@.contains_key(a) {
                1int
            } else {
                0
            })
            &&& y.frozen_assets == x.frozen_assets + (if c.frozen@.contains_key(a) {
                1int
            } else {
                0
            })
            &&& y.history_entries == x.history_entries + c.history(a).len()
        }),
{
    assert(assets.push(a).drop_last() =~= assets);
}

proof fn lemma_hash_update(s: Seq<ExportedEntry>, i: int, e: ExportedEntry)
    requires
        0 <= i < s.len(),
    ensures
        hash_of(s.update(i, e)) == hash_of(s) ^ word_of(s[i]) ^ word_of(e),
    decreases s.len(),
{
    let t = s.update(i, e);
    let (h, x, y, z) = (hash_of(s.drop_last()), word_of(s[i]), word_of(e), word_of(s.last()));
    if i == s.len() - 1 {
        assert(t.drop_last() =~= s.drop_last());
        assert(h ^ y == (h ^ x) ^ x ^ y) by (bit_vector);
    } else {
        lemma_hash_update(s.drop_last(), i, e);
        assert(t.drop_last() =~= s.drop_last().update(i, e));
        assert((h ^ x ^ y) ^ z == (h ^ z) ^ x ^ y) by (bit_vector);
    }
}

/// The hash of an export notices when the time or the ledger of one entry was changed.
pub proof fn a_changed_entry_changes_the_hash(s: Seq<ExportedEntry>, i: int, e: ExportedEntry)
    requires
        0 <= i < s.len(),
        e.price == s[i].price,
        (e.timestamp != s[i].timestamp) != (e.ledger != s[i].ledger),
    ensures
        hash_of(s.update(i, e)) != hash_of(s),
{
    lemma_hash_update(s, i, e);
    let h = hash_of(s);
    let p = s[i].price;
    let (a, b) = (p as u64, (p >> 64) as u64);
    let (t, u) = (s[i].timestamp, e.timestamp);
    let (l, m) = (s[i].ledger as u64, e.ledger as u64);
    assert((t != u) != (l != m) ==> h ^ (a ^ b ^ t ^ l) ^ (a ^ b ^ u ^ m) != h) by (bit_vector);
}

/// What is left to the administrator is refused to everyone else.
pub proof fn the_office_is_the_administrators(c: PriceOracleContract, env: Env)
    ensures
        c.admin_refusal(env) is None <==> by_the_administrator(c, env),
        c.guarded_admin_refusal(env) is None <==> by_the_administrator(c, env) && !c.entered,
{
}

/// The administrator proposes operations of eight kinds with three priorities, as long as there are
/// numbers for them. A governor proposes them for approval.
pub proof fn operations_are_proposed_by_those_in_charge(
    c: PriceOracleContract,
    env: Env,
    op_type: u32,
    priority: u32,
    proposer: Address,
)
    ensures
        c.proposal_refusal(env, op_type, priority) is None <==> {
            &&& !c.entered
            &&& op_type < 8
            &&& priority < 3
            &&& by_the_administrator(c, env)
            &&& c.timelock.operations.issued() < u32::MAX
        },
        c.ms_proposal_refusal(env, proposer, op_type) is None <==> {
            &&& !c.entered
            &&& op_type < 8
            &&& env.authorized@.contains(proposer)
            &&& c.multisig.governors@.contains(proposer)
            &&& c.multisig.queue.issued() < u32::MAX
        },
{
}

/// The administrator registers a source that is new, as long as there is room for it and the day's
/// limit is not reached.
pub proof fn a_source_is_registered_where_there_is_room(c: PriceOracleContract, env: Env, source: Address)
    ensures
        c.add_source_refusal(env, source) is None <==> {
            &&& !c.entered
            &&& by_the_administrator(c, env)
            &&& !c.sources@.contains_key(source)
            &&& c.settings.max_sources == 0 || c.sources.keys().len() < c.settings.max_sources
            &&& !c.ops_exhausted(env, crate::sources::OP_ADD_SOURCE)
        },
{
}

/// A proven price is the second public signal, of the time of the third, each read as a number with
/// the highest byte first. It is taken where the proof holds and nothing stands against it.
pub proof fn a_proven_price_is_the_second_signal(
    c: PriceOracleContract,
    env: Env,
    source: Address,
    asset: Address,
    public_signals: Seq<[u8; 32]>,
    price: i128,
    timestamp: u64,
    proof_valid: bool,
)
    requires
        public_signals.len() >= 3,
        price > 0,
        public_signals[1]@ == be_bytes(price as nat, 32),
        public_signals[2]@ == be_bytes(timestamp as nat, 32),
    ensures
        c.proven_refusal(env, source, asset, public_signals, proof_valid) is None <==> {
            &&& !c.entered
            &&& c.submissions.verifying_key is Some
            &&& proof_valid
            &&& acceptable(c, env, source, asset, price, timestamp)
            &&& c.settings.bft_fault_tolerance == 0
        },
{
    lemma_large_power();
    lemma_read_back(price as nat, 32);
    lemma_read_back(timestamp as nat, 32);
    a_price_is_accepted_where_nothing_stands_against_it(c, env, source, asset, price, timestamp);
}

proof fn lemma_read_back(x: nat, n: nat)
    requires
        x < pow(256, n),
    ensures
        value_of(be_bytes(x, n)) == x,
    decreases n,
{
    reveal(pow);
    if n > 0 {
        let m = (n - 1) as nat;
        let p = pow(256, m);
        assert(x / 256 < p) by (nonlinear_arith)
            requires
                x < 256 * p,
        ;
        lemma_read_back(x / 256, m);
        assert(be_bytes(x, n).drop_last() =~= be_bytes(x / 256, m));
    }
}

proof fn lemma_large_power()
    ensures
        pow(256, 32) > i128::MAX,
        pow(256, 32) > u64::MAX,
{
    reveal_with_fuel(pow, 17);
    let p = pow(256, 16);
    assert(p == 0x1_0000_0000_0000_0000_0000_0000_0000_0000);
    vstd::arithmetic::power::lemma_pow_adds(256, 16, 16);
    assert(p * p > p);
}

/// The administrator's time to object runs from the approval on that made them enough, and starts only
/// once.
pub proof fn the_time_to_object_starts_once(before: Option<u32>, count: nat, threshold: u32, ledger: u32)
    ensures
        before matches Some(since) ==> threshold_since(before, count, threshold, ledger) == Some(since),
        before is None && count >= threshold ==> threshold_since(before, count, threshold, ledger) == Some(ledger),
        before is None && count < threshold ==> threshold_since(before, count, threshold, ledger) is None,
{
}

/// The oracle that is asked about an asset is the first one that knows it.
pub proof fn the_first_oracle_that_knows_is_asked(c: PriceOracleContract, asset: Address, n: int)
    requires
        0 <= n <= c.references.oracles.keys().len(),
    ensures
        ({
            let keys = c.references.oracles.keys();
            let pairs = c.references.oracles@;
            match c.reference_among(asset, n) {
                None => forall|i: int| 0 <= i < n ==> mapped(pairs[#[trigger] keys[i]]@, asset) is None,
                Some((o, name)) => exists|i: int|
                    {
                        &&& 0 <= i < n
                        &&& #[trigger] keys[i] == o
                        &&& mapped(pairs[o]@, asset) == Some(name)
                        &&& forall|j: int| 0 <= j < i ==> mapped(pairs[#[trigger] keys[j]]@, asset) is None
                    },
            }
        }),
    decreases n,
{
    if n > 0 {
        the_first_oracle_that_knows_is_asked(c, asset, n - 1);
        let keys = c.references.oracles.keys();
        assert(keys[n - 1] == keys[n - 1]);
    }
}

} // verus!
