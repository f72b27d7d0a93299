//! The state of the oracle.

use crate::aggregation::AggregationMethod;
use crate::bridges::Bridges;
use crate::channels::Channels;
use crate::commit_reveal::CommitReveal;
use crate::config_history::{ConfigHistory, ConfigSnapshot};
use crate::consumers::{ConsumerAccessMode, Consumers};
use crate::directory::Directory;
use crate::env::Env;
use crate::error::ErrorCode;
use crate::events::{Event, Transfer};
use crate::exotic::AssetPricingConfig;
use crate::fee_market::{FeeMarket, QueuedSubmission};
use crate::finality::Finality;
use crate::governance::Governance;
use crate::multisig::MultiSig;
use crate::pools::Pools;
use crate::price_book::{AggregationRound, PriceBook, PriceState};
use crate::recovery::Recovery;
use crate::references::References;
use crate::registry::Registry;
use crate::relayers::Relayers;
use crate::service::{EmergencyPause, Migration};
use crate::submissions::Submissions;
use crate::table::Table;
use crate::timelock::Timelock;
use crate::types::{Address, AggregatePrice};
use vstd::prelude::*;

verus! {

/// The core configuration, of which earlier versions are kept.
#[derive(Clone, Copy, Debug, PartialEq, Eq, Structural)]
pub struct Config {
    /// How many sources an aggregate needs.
    pub min_sources_required: u32,
    /// How many recorded prices are kept for an asset.
    pub max_history_length: u32,
    /// The age in seconds beyond which a price is not reported; `0` for no limit.
    pub resolution: u32,
    /// The decimals of every price.
    pub decimals: u32,
    /// How far ahead of the ledger's time an observation may lie, in seconds.
    pub timestamp_threshold: u64,
    /// The largest deviation of a price, in ten-thousandths.
    pub max_price_deviation: u32,
    /// After how many seconds a silent source counts as inactive.
    pub heartbeat_interval: u64,
    /// How many price queries one ledger may hold.
    pub query_rate_limit: u32,
}

/// The settings of single features.
#[derive(Clone, Copy, Debug, PartialEq, Eq, Structural)]
pub struct Settings {
    pub aggregation_method: AggregationMethod,
    /// How many ledgers lie between two triggered aggregations.
    pub aggregation_cooldown: u32,
    /// How many ledgers a source may stay silent and still count; `0` for no limit.
    pub min_submission_interval: u32,
    /// How many sources may be registered; `0` for no limit.
    pub max_sources: u32,
    pub max_history_per_asset: u32,
    pub max_events_per_call: u32,
    /// How many sources one aggregation uses; `0` for no limit.
    pub max_aggregation_sources: u32,
    pub max_assets: u32,
    /// How many faulty sources are tolerated; above `0` prices must be committed and revealed.
    pub bft_fault_tolerance: u32,
    pub bft_aggregation_method: u32,
    /// After how many silent ledgers a source may be removed.
    pub max_inactive_ledgers: u32,
    /// How many missed heartbeats double the time that a source has for the next one.
    pub heartbeat_window: u32,
    /// After how many ledgers without a price an asset counts as inactive; `0` for never.
    pub inactivity_timeout: u32,
    /// How many ledgers an optimistic proposal may be disputed.
    pub optimistic_dispute_window: u32,
    /// The least bond of an optimistic proposal or dispute.
    pub optimistic_min_bond: i128,
    /// Whether a price between two records is estimated.
    pub interpolation_enabled: bool,
    /// How near recorded prices must lie to be merged, in ten-thousandths; `0` for never.
    pub compaction_threshold_bps: u32,
}

/// How many operations of one kind a day has held.
#[derive(Clone, Copy, Debug, PartialEq, Eq, Structural)]
pub struct DailyCount {
    /// The day, counted from the epoch of the ledger's time.
    pub day: u64,
    pub count: u32,
}

/// The prices that an asset may have.
#[derive(Clone, Copy, Debug, PartialEq, Eq, Structural)]
pub struct PriceBounds {
    pub min_price: i128,
    pub max_price: i128,
    pub max_change_bps_per_ledger: u32,
}

/// How many price queries the ledger of the last one has held.
#[derive(Clone, Copy, Debug, PartialEq, Eq, Structural)]
pub struct QueryCount {
    pub ledger: u32,
    pub count: u32,
}

/// What an operation cost.
#[derive(Debug)]
pub struct GasRecord {
    pub operation: String,
    pub cpu_instructions: u64,
    pub memory_bytes: u64,
}

/// What a compaction did.
#[derive(Clone, Copy, Debug, PartialEq, Eq, Structural)]
pub struct CompactionMetadata {
    pub entries_before: u32,
    pub entries_after: u32,
    /// The ledger of the compaction.
    pub ledger: u32,
}

/// An aggregate that is reported in place of newer ones.
#[derive(Debug)]
pub struct FrozenPrice {
    pub aggregate: AggregatePrice,
    pub reason: String,
    /// The ledger in which the price was frozen.
    pub ledger: u32,
}

/// A multi-source price oracle.
///
/// Sources submit prices; once enough of them have priced an asset, their prices are combined
/// and the result is recorded and reported. A call that is refused changes nothing.
#[derive(Debug)]
pub struct PriceOracleContract {
    /// Whether a call is in progress that must not be entered again.
    pub entered: bool,
    /// The administrator, once the contract is initialized.
    pub admin: Option<Address>,
    pub paused: bool,
    pub emergency: Option<EmergencyPause>,
    pub description: String,
    pub config: Config,
    pub config_history: ConfigHistory,
    pub settings: Settings,
    /// The registered sources, in the order of their registration, with their names.
    pub sources: Table<Address, String>,
    /// The weight of each source in a weighted median; one where none is assigned.
    pub weights: Table<Address, u32>,
    /// The sources that may not submit prices.
    pub suspended: Table<Address, bool>,
    /// The sources that were removed for their silence, with the ledger of their removal.
    pub auto_removed: Table<Address, u32>,
    pub book: PriceBook,
    /// The ledgers whose submissions count, where a round is open.
    pub round: Option<AggregationRound>,
    /// The assets whose price is frozen.
    pub frozen: Table<Address, FrozenPrice>,
    /// The assets for which no price is accepted, with the ledger since when.
    pub paused_assets: Table<Address, u32>,
    pub price_bounds: Table<Address, PriceBounds>,
    /// The resolutions that replace the contract's own for single assets.
    pub asset_resolution: Table<Address, u32>,
    pub queries: QueryCount,
    /// The ledger of the last triggered aggregation by asset.
    pub triggered: Table<Address, u32>,
    pub last_gas: Option<GasRecord>,
    /// The deviations that single sources are allowed, in ten-thousandths.
    pub deviation_tolerance: Table<Address, u32>,
    /// How many administrator's operations of one kind a day may hold.
    pub op_limits: Table<u32, u32>,
    pub op_counts: Table<u32, DailyCount>,
    /// The inactivity timeouts that replace the contract's own for single assets.
    pub asset_timeouts: Table<Address, u32>,
    /// The last compaction by asset.
    pub compactions: Table<Address, CompactionMetadata>,
    /// Up to which ledger the records of an asset lie in weekly buckets.
    pub sharded_upto: Table<Address, u32>,
    pub timelock: Timelock,
    pub multisig: MultiSig,
    pub governance: Governance,
    pub relayers: Relayers,
    pub commit_reveal: CommitReveal,
    pub finality: Finality,
    pub fee_market: FeeMarket,
    pub references: References,
    pub migration: Migration,
    pub consumers: Consumers,
    pub submissions: Submissions,
    pub pools: Pools,
    pub channels: Channels,
    pub recovery: Recovery,
    pub directory: Directory,
    pub bridges: Bridges,
    /// How the assets are priced whose value follows from that of others.
    pub exotics: Table<Address, AssetPricingConfig>,
    /// What was announced and not yet taken.
    pub events: Vec<Event>,
    /// The transfers that were asked for and not yet taken.
    pub transfers: Vec<Transfer>,
}

/// The settings of a contract that was just deployed.
pub open spec fn first_config() -> Config {
    Config {
        min_sources_required: 1,
        max_history_length: 100,
        resolution: 0,
        decimals: 18,
        timestamp_threshold: 300,
        max_price_deviation: 500,
        heartbeat_interval: 3600,
        query_rate_limit: 100,
    }
}

/// The settings of single features of a contract that was just deployed.
pub open spec fn first_settings() -> Settings {
    Settings {
        aggregation_method: AggregationMethod::Median,
        aggregation_cooldown: 10,
        min_submission_interval: 0,
        max_sources: 0,
        max_history_per_asset: 1000,
        max_events_per_call: 20,
        max_aggregation_sources: 0,
        max_assets: 100,
        bft_fault_tolerance: 0,
        bft_aggregation_method: 0,
        max_inactive_ledgers: 64,
        heartbeat_window: 10,
        inactivity_timeout: 0,
        optimistic_dispute_window: 1,
        optimistic_min_bond: 1,
        interpolation_enabled: false,
        compaction_threshold_bps: 0,
    }
}

impl PriceOracleContract {
    /// Whether the contract was just deployed: nothing is registered, and every setting has its
    /// first value.
    pub open spec fn just_deployed(self) -> bool {
        &&& !self.entered
        &&& self.admin is None
        &&& !self.paused
        &&& self.emergency is None
        &&& self.description@ == "Stellar Price Oracle"@
        &&& self.config == first_config()
        &&& self.config_history@ == Seq::<ConfigSnapshot>::empty()
        &&& self.settings == first_settings()
        &&& self.sources.holds_nothing()
        &&& self.weights.holds_nothing()
        &&& self.suspended.holds_nothing()
        &&& self.auto_removed.holds_nothing()
        &&& self.frozen.holds_nothing()
        &&& self.paused_assets.holds_nothing()
        &&& self.price_bounds.holds_nothing()
        &&& self.asset_resolution.holds_nothing()
        &&& self.triggered.holds_nothing()
        &&& self.deviation_tolerance.holds_nothing()
        &&& self.op_limits.holds_nothing()
        &&& self.op_counts.holds_nothing()
        &&& self.asset_timeouts.holds_nothing()
        &&& self.compactions.holds_nothing()
        &&& self.sharded_upto.holds_nothing()
        &&& self.round is None
        &&& self.queries == (QueryCount { ledger: 0, count: 0 })
        &&& self.last_gas is None
        &&& self.book.state(Seq::empty()) == (PriceState {
            submissions: Map::empty(),
            aggregates: Map::empty(),
            histories: Map::empty(),
            deviations: Map::empty(),
            pairs: Map::empty(),
            flags: Map::empty(),
            activity: Map::empty(),
            assets: Map::empty(),
            asset_list: Seq::empty(),
            last_aggregation_ledger: 0,
            events: Seq::empty(),
        })
        &&& self.timelock.duration == 10
        &&& self.timelock.urgent_delay is None
        &&& self.timelock.normal_delay is None
        &&& self.timelock.long_term_delay is None
        &&& self.timelock.operations.holds_nothing()
        &&& self.timelock.batches.holds_nothing()
        &&& self.multisig.governors@ == Seq::<Address>::empty()
        &&& self.multisig.required == 0
        &&& self.multisig.queue.holds_nothing()
        &&& self.governance.roles.holds_nothing()
        &&& self.governance.source_assets.holds_nothing()
        &&& self.governance.verifications.holds_nothing()
        &&& self.governance.reputation_decay_factor == 0
        &&& self.governance.removal_cooldown == 0
        &&& self.governance.removals.holds_nothing()
        &&& self.governance.approval is None
        &&& self.governance.proposals.holds_nothing()
        &&& self.governance.source_bond == 0
        &&& self.governance.source_bonds.holds_nothing()
        &&& self.relayers.approved.holds_nothing()
        &&& self.relayers.fee_per_submission == 0
        &&& self.relayers.fee_balances.holds_nothing()
        &&& self.relayers.submission_counts.holds_nothing()
        &&& self.relayers.asset_counts.holds_nothing()
        &&& self.relayers.latencies.holds_nothing()
        &&& self.relayers.bond_amount == 0
        &&& self.relayers.bonds.holds_nothing()
        &&& self.relayers.failures.holds_nothing()
        &&& self.relayers.slash_percent == 0
        &&& self.relayers.failure_threshold == 0
        &&& self.relayers.reward_rate == 0
        &&& self.relayers.reward_balances.holds_nothing()
        &&& self.relayers.stake_token is None
        &&& self.relayers.treasury == 0
        &&& self.commit_reveal.commit_window == 20
        &&& self.commit_reveal.reveal_window == 20
        &&& self.commit_reveal.commits.holds_nothing()
        &&& self.finality.ledgers == 64
        &&& self.finality.pending.holds_nothing()
        &&& self.finality.finalized.holds_nothing()
        &&& self.fee_market.queue@ == Seq::<QueuedSubmission>::empty()
        &&& self.fee_market.min_priority_fee == 0
        &&& self.fee_market.distribution_ratio == 80
        &&& self.fee_market.source_balances.holds_nothing()
        &&& self.fee_market.treasury_balance == 0
        &&& self.fee_market.treasury_address is None
        &&& self.references.oracles.holds_nothing()
        &&& self.references.deviation_threshold == 500
        &&& !self.references.cross_chain_enabled
        &&& self.references.cross_chain_threshold == 0
        &&& self.references.cross_chain_prices.holds_nothing()
        &&& self.references.asset_decimals.holds_nothing()
        &&& self.migration.storage_version == 1
        &&& self.migration.state is None
        &&& self.consumers.plans.holds_nothing()
        &&& self.consumers.subscriptions.holds_nothing()
        &&& self.consumers.token is None
        &&& self.consumers.access_mode is Public
        &&& self.consumers.access.holds_nothing()
        &&& self.consumers.update_subscribers.holds_nothing()
        &&& self.consumers.notifications.holds_nothing()
        &&& self.submissions.keys.holds_nothing()
        &&& self.submissions.nonces.holds_nothing()
        &&& self.submissions.volumes.holds_nothing()
        &&& self.submissions.triggers.holds_nothing()
        &&& self.submissions.verifying_key is None
        &&& self.pools.amm.holds_nothing()
        &&& self.pools.max_deviation_bps == 500
        &&& self.pools.weights.holds_nothing()
        &&& self.pools.soroswap.holds_nothing()
        &&& self.pools.dex.holds_nothing()
        &&& self.channels.dispute_timeout == 100
        &&& self.channels.open.holds_nothing()
        &&& self.recovery.guardians@ == Seq::<Address>::empty()
        &&& self.recovery.threshold == 0
        &&& self.recovery.delay == 17_280
        &&& self.recovery.pending is None
        &&& self.directory.documents.holds_nothing()
        &&& self.directory.links.holds_nothing()
        &&& self.directory.metadata is None
        &&& self.directory.feeds.holds_nothing()
        &&& self.bridges.oracles.holds_nothing()
        &&& self.bridges.prices.holds_nothing()
        &&& self.bridges.relay is None
        &&& self.bridges.sampling_size == 3
        &&& self.exotics.holds_nothing()
        &&& self.events@ == Seq::<Event>::empty()
        &&& self.transfers@ == Seq::<Transfer>::empty()
    }

    /// A contract that was just deployed.
    pub fn new() -> (c: Self)
        ensures
            c.just_deployed(),
    {
        PriceOracleContract {
            entered: false,
            admin: None,
            paused: false,
            emergency: None,
            description: "Stellar Price Oracle".to_owned(),
            config: Config {
                min_sources_required: 1,
                max_history_length: 100,
                resolution: 0,
                decimals: 18,
                timestamp_threshold: 300,
                max_price_deviation: 500,
                heartbeat_interval: 3600,
                query_rate_limit: 100,
            },
            config_history: ConfigHistory::new(),
            settings: Settings {
                aggregation_method: AggregationMethod::Median,
                aggregation_cooldown: 10,
                min_submission_interval: 0,
                max_sources: 0,
                max_history_per_asset: 1000,
                max_events_per_call: 20,
                max_aggregation_sources: 0,
                max_assets: 100,
                bft_fault_tolerance: 0,
                bft_aggregation_method: 0,
                max_inactive_ledgers: 64,
                heartbeat_window: 10,
                inactivity_timeout: 0,
                optimistic_dispute_window: 1,
                optimistic_min_bond: 1,
                interpolation_enabled: false,
                compaction_threshold_bps: 0,
            },
            sources: Table::new(),
            weights: Table::new(),
            suspended: Table::new(),
            auto_removed: Table::new(),
            frozen: Table::new(),
            paused_assets: Table::new(),
            price_bounds: Table::new(),
            asset_resolution: Table::new(),
            triggered: Table::new(),
            deviation_tolerance: Table::new(),
            op_limits: Table::new(),
            op_counts: Table::new(),
            asset_timeouts: Table::new(),
            compactions: Table::new(),
            sharded_upto: Table::new(),
            book: PriceBook::new(),
            round: None,
            queries: QueryCount { ledger: 0, count: 0 },
            last_gas: None,
            timelock: Timelock {
                duration: 10,
                urgent_delay: None,
                normal_delay: None,
                long_term_delay: None,
                operations: Registry::new(),
                batches: Registry::new(),
            },
            multisig: MultiSig {
                governors: Vec::new(),
                required: 0,
                queue: Registry::new(),
            },
            governance: Governance {
                roles: Table::new(),
                source_assets: Table::new(),
                verifications: Table::new(),
                reputation_decay_factor: 0,
                removal_cooldown: 0,
                removals: Table::new(),
                approval: None,
                proposals: Registry::new(),
                source_bond: 0,
                source_bonds: Table::new(),
            },
            relayers: Relayers {
                approved: Table::new(),
                fee_per_submission: 0,
                fee_balances: Table::new(),
                submission_counts: Table::new(),
                asset_counts: Table::new(),
                latencies: Table::new(),
                bond_amount: 0,
                bonds: Table::new(),
                failures: Table::new(),
                slash_percent: 0,
                failure_threshold: 0,
                reward_rate: 0,
                reward_balances: Table::new(),
                stake_token: None,
                treasury: 0,
            },
            commit_reveal: CommitReveal {
                commit_window: 20,
                reveal_window: 20,
                commits: Table::new(),
            },
            finality: Finality {
                ledgers: 64,
                pending: Table::new(),
                finalized: Table::new(),
            },
            fee_market: FeeMarket {
                queue: Vec::new(),
                min_priority_fee: 0,
                distribution_ratio: 80,
                source_balances: Table::new(),
                treasury_balance: 0,
                treasury_address: None,
            },
            references: References {
                oracles: Table::new(),
                deviation_threshold: 500,
                cross_chain_enabled: false,
                cross_chain_threshold: 0,
                cross_chain_prices: Table::new(),
                asset_decimals: Table::new(),
            },
            migration: Migration {
                storage_version: 1,
                state: None,
            },
            consumers: Consumers {
                plans: Table::new(),
                subscriptions: Table::new(),
                token: None,
                access_mode: ConsumerAccessMode::Public,
                access: Table::new(),
                update_subscribers: Table::new(),
                notifications: Table::new(),
            },
            submissions: Submissions {
                keys: Table::new(),
                nonces: Table::new(),
                volumes: Table::new(),
                triggers: Table::new(),
                verifying_key: None,
            },
            pools: Pools {
                amm: Table::new(),
                max_deviation_bps: 500,
                weights: Table::new(),
                soroswap: Table::new(),
                dex: Table::new(),
            },
            channels: Channels {
                dispute_timeout: 100,
                open: Table::new(),
            },
            recovery: Recovery {
                guardians: Vec::new(),
                threshold: 0,
                delay: 17_280,
                pending: None,
            },
            directory: Directory {
                documents: Table::new(),
                links: Table::new(),
                metadata: None,
                feeds: Table::new(),
            },
            bridges: Bridges {
                oracles: Table::new(),
                prices: Table::new(),
                relay: None,
                sampling_size: 3,
            },
            exotics: Table::new(),
            events: Vec::new(),
            transfers: Vec::new(),
        }
    }
}

impl PriceOracleContract {
    /// Whether the administrator authorizes the call.
    pub open spec fn admin_authorizes(self, env: Env) -> bool {
        self.admin matches Some(a) && env.authorizes(a)
    }

    /// Why an administrator's call is refused, if it is.
    pub open spec fn admin_refusal(self, env: Env) -> Option<ErrorCode> {
        if self.admin_authorizes(env) {
            None
        } else {
            Some(ErrorCode::NotAuthorized)
        }
    }

    /// Why an administrator's call that must not be entered twice is refused, if it is.
    pub open spec fn guarded_admin_refusal(self, env: Env) -> Option<ErrorCode> {
        if self.entered {
            Some(ErrorCode::Reentrancy)
        } else {
            self.admin_refusal(env)
        }
    }

    /// What a reading call answers with `v`, which must not be entered twice.
    pub open spec fn guarded<T>(self, v: T) -> Result<T, ErrorCode> {
        if self.entered {
            Err(ErrorCode::Reentrancy)
        } else {
            Ok(v)
        }
    }

    /// Whether the administrator authorizes the call.
    pub(crate) fn check_admin(&self, env: &Env) -> (r: Option<ErrorCode>)
        ensures
            r == self.admin_refusal(*env),
    {
        match &self.admin {
            Some(a) => {
                if env.is_authorized_by(a) {
                    None
                } else {
                    Some(ErrorCode::NotAuthorized)
                }
            },
            None => Some(ErrorCode::NotAuthorized),
        }
    }

    /// Whether the contract may be entered and the administrator authorizes the call.
    pub(crate) fn check_guarded_admin(&self, env: &Env) -> (r: Option<ErrorCode>)
        ensures
            r == self.guarded_admin_refusal(*env),
    {
        if self.entered {
            Some(ErrorCode::Reentrancy)
        } else {
            self.check_admin(env)
        }
    }

    /// Closes the contract to calls that must not be entered twice, until [`Self::exit`].
    pub fn enter(&mut self) -> (r: Result<(), ErrorCode>)
        ensures
            r == (if old(self).entered {
                Err(ErrorCode::Reentrancy)
            } else {
                Ok(())
            }),
            *final(self) == (PriceOracleContract { entered: true, ..*old(self) }),
    {
        if self.entered {
            Err(ErrorCode::Reentrancy)
        } else {
            self.entered = true;
            Ok(())
        }
    }

    /// Opens the contract again.
    pub fn exit(&mut self)
        ensures
            *final(self) == (PriceOracleContract { entered: false, ..*old(self) }),
    {
        self.entered = false;
    }

    /// Hands out what was announced, in order, and forgets it.
    pub fn take_events(&mut self) -> (r: Vec<Event>)
        ensures
            r@ == old(self).events@,
            final(self).events@ == Seq::<Event>::empty(),
            *final(self) == (PriceOracleContract { events: final(self).events, ..*old(self) }),
    {
        let mut out: Vec<Event> = Vec::new();
        std::mem::swap(&mut out, &mut self.events);
        out
    }

    /// Hands out the transfers that were asked for, in order, and forgets them.
    pub fn take_transfers(&mut self) -> (r: Vec<Transfer>)
        ensures
            r@ == old(self).transfers@,
            final(self).transfers@ == Seq::<Transfer>::empty(),
            *final(self) == (PriceOracleContract { transfers: final(self).transfers, ..*old(self) }),
    {
        let mut out: Vec<Transfer> = Vec::new();
        std::mem::swap(&mut out, &mut self.transfers);
        out
    }
}

} // verus!
