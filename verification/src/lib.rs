//! A price oracle that combines the prices of many sources.
//!
//! [`PriceOracleContract`] holds the whole state. Its methods are the calls of the contract: each
//! takes the circumstances of the call as an [`Env`], refuses it with an [`ErrorCode`] and changes
//! nothing, or performs it. What a call announces or asks the chain to transfer is kept until it is
//! taken with `take_events` and `take_transfers`.
//!
//! The modules, from the ground up: keyed storage ([`table`], [`registry`]), arithmetic ([`arith`]),
//! the ways of combining prices ([`aggregation`]), what was recorded ([`history_log`]), the prices
//! themselves ([`price_book`]), and then one module for each group of calls.

pub mod admin;
pub mod aggregation;
pub mod answer_laws;
pub mod arith;
pub mod assets;
pub mod bridges;
pub mod budget;
pub mod channels;
pub mod commit_reveal;
pub mod config_history;
pub mod consumers;
pub mod contract;
pub mod correlation;
pub mod dashboard;
pub mod digest;
pub mod directory;
pub mod env;
pub mod error;
pub mod events;
pub mod exotic;
pub mod fee_market;
pub mod finality;
pub mod governance;
pub mod history;
pub mod history_log;
pub mod introspection;
pub mod laws;
pub mod market_laws;
pub mod multisig;
pub mod office_laws;
pub mod operations;
pub mod participation_laws;
pub mod pools;
pub mod price_book;
pub mod prices;
pub mod pricing_laws;
pub mod recovery;
pub mod references;
pub mod registry;
pub mod relayers;
pub mod sampling;
pub mod service;
pub mod sources;
pub mod submissions;
pub mod table;
pub mod timelock;
pub mod twap;
pub mod types;
pub mod wide;

pub use aggregation::AggregationMethod;
pub use arith::mul_div;
pub use bridges::{BridgeOracleConfig, BridgedPrice, Bridges, CrossChainRelayConfig, StellarHeader};
pub use budget::{StorageBudget, TotalStorageBudget};
pub use channels::{batch_to_sign, BatchItem, Channels, StateChannel};
pub use commit_reveal::{CommitKey, CommitReveal, HashedReveal, PriceCommit, Reveal, commit_hash};
pub use config_history::{ConfigHistory, ConfigSnapshot};
pub use consumers::{ConsumerAccessMode, Consumers, NotificationPreference, Subscription};
pub use contract::{
    CompactionMetadata, Config, DailyCount, FrozenPrice, GasRecord, PriceBounds,
    PriceOracleContract, QueryCount, Settings,
};
pub use dashboard::RelayerDashboard;
pub use directory::{Directory, EcosystemMetadata, FeedMetadata, SourceDidLink};
pub use env::Env;
pub use error::ErrorCode;
pub use events::{Event, PriceEventPayload, Transfer};
pub use exotic::AssetPricingConfig;
pub use fee_market::{FeeMarket, QueuedSubmission};
pub use finality::{Finality, FinalityStatus, FinalizedPrice, PendingFinalityEntry};
pub use governance::{Governance, SourceGovernance, SourceProposal, SourceVerification};
pub use history::{ExportedEntry, ExportedHistorySnapshot};
pub use history_log::History;
pub use introspection::StateAnalysis;
pub use multisig::{MultiSig, MultiSigOperation};
pub use operations::OperationType;
pub use pools::{AmmPool, AmmWeightConfig, DexPrice, DexSide, Pools, SoroswapPool};
pub use price_book::{Activity, AggregationRound, CorrelationPair, PriceBook, RulesInForce};
pub use recovery::{GuardianRecovery, Recovery};
pub use references::{CrossChainPrice, CrossReferenceResult, References};
pub use registry::Registry;
pub use relayers::{RelayedSubmission, RelayerFailureReason, RelayerInfo, Relayers};
pub use service::{EmergencyPause, HealthReport, Migration, MigrationState};
pub use sources::SourceHealthStatus;
pub use submissions::{DeviationReport, Submissions, Trigger, message_to_sign};
pub use table::{Key, Table};
pub use timelock::{
    BatchOperation, BatchSimulationResult, OperationPriority, OperationSimulationResult,
    PendingBatch, PendingOperation, Timelock,
};
pub use twap::{TwapMethod, geometric_mean};
pub use types::{
    Address, AggregatePrice, Asset, PriceData, PriceEntry, PriceHistoryEntry, Symbol,
    VersionedAggregatePrice,
};
