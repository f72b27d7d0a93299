//! The codes with which a call is refused.

use vstd::prelude::*;

verus! {

/// Why a call was refused. A refused call leaves the contract as it was.
#[derive(Clone, Copy, Debug, PartialEq, Eq, Structural)]
pub enum ErrorCode {
    AlreadyApproved,
    AlreadyCommitted,
    AlreadyFinalized,
    AlreadyInitialized,
    AmmPriceManipulation,
    ApprovalNotFound,
    ArithmeticOverflow,
    AssetAlreadyRegistered,
    AssetNotRegistered,
    BatchEmpty,
    BatchNotFeePrioritized,
    BatchTooLarge,
    ChannelAlreadyOpen,
    ChannelNotFound,
    CommitExpired,
    CommitHashMismatch,
    CommitNotFound,
    CommitRevealRequired,
    ConfigVersionNotFound,
    ContractPaused,
    DailyLimitExceeded,
    DescriptionTooLong,
    ExoticAssetNotConfigured,
    ExoticCycleDetected,
    ExoticCycleLimitExceeded,
    ExportLimitExceeded,
    ExportNotFound,
    FeeMarketBelowMinimum,
    InsufficientFinality,
    InsufficientSources,
    InvalidConfiguration,
    InvalidDuration,
    InvalidGuardianConfig,
    InvalidNonce,
    InvalidOperationType,
    InvalidPageSize,
    InvalidPrice,
    InvalidPriority,
    InvalidTimestamp,
    MaxAssetsReached,
    MaxSourcesReached,
    MsNotQueueHead,
    MsQuorumNotReached,
    NoActiveSubscription,
    NoData,
    NotAuthorized,
    NotGuardian,
    NotificationConfigInvalid,
    OperationNotFound,
    PoolAlreadyExists,
    PoolNotFound,
    PriceBelowMinimum,
    PriceFrozen,
    PriceNotFrozen,
    PriceRetracted,
    RateLimitExceeded,
    ReasonTooLong,
    RecoveryAlreadyApproved,
    RecoveryAlreadyPending,
    RecoveryDelayNotElapsed,
    RecoveryNotPending,
    Reentrancy,
    RelayerAlreadyExists,
    RelayerFailureThresholdNotReached,
    RelayerNotAuthorized,
    RevealWindowClosed,
    SignatureExpired,
    SigningKeyNotRegistered,
    SlippageExceeded,
    SourceAlreadyExists,
    SourceNotFound,
    StakeTokenNotConfigured,
    SubscriptionExpired,
    TimelockNotReady,
    ZkInvalidPublicSignals,
    ZkProofInvalid,
    ZkVkNotSet,
}

/// What a call answers that has nothing to tell: the reason where it was refused.
pub open spec fn reply(refusal: Option<ErrorCode>) -> Result<(), ErrorCode> {
    match refusal {
        Some(e) => Err(e),
        None => Ok(()),
    }
}

/// The refusal `earlier`, or else `e` where `wrong` holds.
pub open spec fn refused_if(earlier: Option<ErrorCode>, wrong: bool, e: ErrorCode) -> Option<ErrorCode> {
    if earlier is Some {
        earlier
    } else if wrong {
        Some(e)
    } else {
        None
    }
}

} // verus!
