//! Aggregates that become final after a while.

use crate::contract::PriceOracleContract;
use crate::env::Env;
use crate::error::{refused_if, reply, ErrorCode};
use crate::events::Event;
use crate::table::Table;
use crate::types::{same_bytes, Address, AggregatePrice};
use vstd::prelude::*;

verus! {

/// How far an aggregate is on its way to finality.
#[derive(Clone, Copy, Debug, PartialEq, Eq, Structural)]
pub enum FinalityStatus {
    Pending,
    Finalized,
    Retracted,
}

/// An aggregate on its way to finality.
#[derive(Clone, Copy, Debug, PartialEq, Eq)]
pub struct PendingFinalityEntry {
    pub aggregate: AggregatePrice,
    /// The ledger in which the aggregate was put forward.
    pub committed_ledger: u32,
    /// The ledger from which on it can become final.
    pub finality_ledger: u32,
    /// The hash of the ledger in which it was put forward.
    pub ledger_hash: [u8; 32],
    pub status: FinalityStatus,
}

/// An aggregate that is final.
#[derive(Clone, Copy, Debug, PartialEq, Eq, Structural)]
pub struct FinalizedPrice {
    pub aggregate: AggregatePrice,
    pub committed_ledger: u32,
    /// The ledger in which it became final.
    pub finalized_ledger: u32,
}

/// The aggregates on their way to finality, and the last final one of each asset.
#[derive(Debug)]
pub struct Finality {
    /// How many ledgers an aggregate waits.
    pub ledgers: u32,
    pub pending: Table<(Address, u32), PendingFinalityEntry>,
    pub finalized: Table<Address, FinalizedPrice>,
}

/// The ledger from which on an aggregate of `ledger` can become final.
pub open spec fn finality_ledger(ledger: u32, window: u32) -> u32 {
    if ledger + window > u32::MAX {
        u32::MAX
    } else {
        (ledger + window) as u32
    }
}

impl PriceOracleContract {
    /// What the aggregate of `asset` becomes when it is put forward.
    pub open spec fn pending_entry(self, env: Env, asset: Address) -> PendingFinalityEntry {
        PendingFinalityEntry {
            aggregate: self.book.aggregates@[asset].aggregate,
            committed_ledger: env.ledger,
            finality_ledger: finality_ledger(env.ledger, self.finality.ledgers),
            ledger_hash: env.ledger_hash,
            status: FinalityStatus::Pending,
        }
    }

    /// Puts the aggregate of `asset` forward, which is announced. It can become final once the
    /// finality window has passed.
    pub fn mark_price_pending(&mut self, env: &Env, asset: Address) -> (r: Result<(), ErrorCode>)
        ensures
            r == (if old(self).entered {
                Err(ErrorCode::Reentrancy)
            } else if !old(self).book.assets@.contains_key(asset) {
                Err(ErrorCode::AssetNotRegistered)
            } else if !old(self).book.aggregates@.contains_key(asset) {
                Err(ErrorCode::NoData)
            } else {
                Ok(())
            }),
            r is Err ==> *final(self) == *old(self),
            r is Ok ==> {
                let e = old(self).pending_entry(*env, asset);
                &&& final(self).finality.pending@ == old(self).finality.pending@.insert(
                    (asset, env.ledger),
                    e,
                )
                &&& final(self).events@ == old(self).events@.push(
                    Event::PricePendingFinality {
                        asset,
                        committed_ledger: e.committed_ledger,
                        finality_ledger: e.finality_ledger,
                    },
                )
            },
            *final(self) == (PriceOracleContract {
                finality: Finality { pending: final(self).finality.pending, ..old(self).finality },
                events: final(self).events,
                ..*old(self)
            }),
    {
        if self.entered {
            return Err(ErrorCode::Reentrancy);
        }
        if !self.book.assets.contains_key(&asset) {
            return Err(ErrorCode::AssetNotRegistered);
        }
        let aggregate: AggregatePrice = match self.book.aggregates.get(&asset) {
            Some(v) => v.aggregate,
            None => {
                return Err(ErrorCode::NoData);
            },
        };
        let finality_ledger: u32 = if env.ledger > u32::MAX - self.finality.ledgers {
            u32::MAX
        } else {
            env.ledger + self.finality.ledgers
        };
        self.finality.pending.insert(
            (asset, env.ledger),
            PendingFinalityEntry {
                aggregate,
                committed_ledger: env.ledger,
                finality_ledger,
                ledger_hash: env.ledger_hash,
                status: FinalityStatus::Pending,
            },
        );
        self.events.push(
            Event::PricePendingFinality { asset, committed_ledger: env.ledger, finality_ledger },
        );
        Ok(())
    }

    /// Why nothing can be done about an aggregate that was put forward, if that is so.
    pub open spec fn settled_refusal(self, asset: Address, committed_ledger: u32) -> Option<ErrorCode> {
        if !self.finality.pending@.contains_key((asset, committed_ledger)) {
            Some(ErrorCode::NoData)
        } else {
            match self.finality.pending@[(asset, committed_ledger)].status {
                FinalityStatus::Pending => None,
                FinalityStatus::Finalized => Some(ErrorCode::AlreadyFinalized),
                FinalityStatus::Retracted => Some(ErrorCode::PriceRetracted),
            }
        }
    }

    fn pending_of(&self, asset: &Address, committed_ledger: u32) -> (r: Result<
        PendingFinalityEntry,
        ErrorCode,
    >)
        ensures
            r == (match self.settled_refusal(*asset, committed_ledger) {
                Some(e) => Err(e),
                None => Ok(self.finality.pending@[(*asset, committed_ledger)]),
            }),
    {
        match self.finality.pending.get(&(*asset, committed_ledger)) {
            None => Err(ErrorCode::NoData),
            Some(e) => match e.status {
                FinalityStatus::Pending => Ok(*e),
                FinalityStatus::Finalized => Err(ErrorCode::AlreadyFinalized),
                FinalityStatus::Retracted => Err(ErrorCode::PriceRetracted),
            },
        }
    }

    /// Makes an aggregate final that was put forward in `committed_ledger`, if its time has
    /// come, and tells whether it has.
    pub fn try_finalize_price(&mut self, env: &Env, asset: Address, committed_ledger: u32) -> (r: Result<
        bool,
        ErrorCode,
    >)
        ensures
            ({
                let e = old(self).finality.pending@[(asset, committed_ledger)];
                &&& r == (if old(self).entered {
                    Err(ErrorCode::Reentrancy)
                } else {
                    match old(self).settled_refusal(asset, committed_ledger) {
                        Some(code) => Err(code),
                        None => Ok(env.ledger >= e.finality_ledger),
                    }
                })
                &&& r == Ok::<bool, ErrorCode>(true) ==> {
                    &&& final(self).finality.pending@ == old(self).finality.pending@.insert(
                        (asset, committed_ledger),
                        PendingFinalityEntry { status: FinalityStatus::Finalized, ..e },
                    )
                    &&& final(self).finality.finalized@ == old(self).finality.finalized@.insert(
                        asset,
                        FinalizedPrice {
                            aggregate: e.aggregate,
                            committed_ledger: e.committed_ledger,
                            finalized_ledger: env.ledger,
                        },
                    )
                }
            }),
            r != Ok::<bool, ErrorCode>(true) ==> *final(self) == *old(self),
            *final(self) == (PriceOracleContract {
                finality: Finality {
                    pending: final(self).finality.pending,
                    finalized: final(self).finality.finalized,
                    ..old(self).finality
                },
                ..*old(self)
            }),
    {
        if self.entered {
            return Err(ErrorCode::Reentrancy);
        }
        let e: PendingFinalityEntry = match self.pending_of(&asset, committed_ledger) {
            Ok(e) => e,
            Err(code) => {
                return Err(code);
            },
        };
        if env.ledger < e.finality_ledger {
            return Ok(false);
        }
        self.finality.pending.insert(
            (asset, committed_ledger),
            PendingFinalityEntry { status: FinalityStatus::Finalized, ..e },
        );
        self.finality.finalized.insert(
            asset,
            FinalizedPrice {
                aggregate: e.aggregate,
                committed_ledger: e.committed_ledger,
                finalized_ledger: env.ledger,
            },
        );
        Ok(true)
    }

    /// The last final aggregate of `asset`, if it was put forward at least `min_finality`
    /// ledgers ago.
    pub fn get_finalized_price(&self, env: &Env, asset: Address, min_finality: u32) -> (r: Result<
        FinalizedPrice,
        ErrorCode,
    >)
        ensures
            r == (if !self.finality.finalized@.contains_key(asset) {
                Err(ErrorCode::NoData)
            } else if env.ledger - self.finality.finalized@[asset].committed_ledger < min_finality {
                Err(ErrorCode::InsufficientFinality)
            } else {
                Ok(self.finality.finalized@[asset])
            }),
    {
        match self.finality.finalized.get(&asset) {
            None => Err(ErrorCode::NoData),
            Some(f) => {
                if (env.ledger as i64) - (f.committed_ledger as i64) < min_finality as i64 {
                    Err(ErrorCode::InsufficientFinality)
                } else {
                    Ok(*f)
                }
            },
        }
    }

    /// How far the aggregate that was put forward in `committed_ledger` is.
    pub fn get_finality_status(&self, asset: Address, committed_ledger: u32) -> (r: Result<
        FinalityStatus,
        ErrorCode,
    >)
        ensures
            r == (if self.finality.pending@.contains_key((asset, committed_ledger)) {
                Ok(self.finality.pending@[(asset, committed_ledger)].status)
            } else {
                Err(ErrorCode::NoData)
            }),
    {
        match self.finality.pending.get(&(asset, committed_ledger)) {
            Some(e) => Ok(e.status),
            None => Err(ErrorCode::NoData),
        }
    }

    /// Takes an aggregate back that was put forward, which is announced. It must not have
    /// reached its finality yet.
    pub fn retract_price(&mut self, env: &Env, asset: Address, committed_ledger: u32) -> (r: Result<
        (),
        ErrorCode,
    >)
        ensures
            ({
                let e = old(self).finality.pending@[(asset, committed_ledger)];
                &&& r == (if old(self).guarded_admin_refusal(*env) is Some {
                    reply(old(self).guarded_admin_refusal(*env))
                } else if old(self).settled_refusal(asset, committed_ledger) is Some {
                    reply(old(self).settled_refusal(asset, committed_ledger))
                } else if env.ledger >= e.finality_ledger {
                    Err(ErrorCode::AlreadyFinalized)
                } else {
                    Ok(())
                })
                &&& r is Ok ==> final(self).finality.pending@ == old(self).finality.pending@.insert(
                    (asset, committed_ledger),
                    PendingFinalityEntry { status: FinalityStatus::Retracted, ..e },
                ) && final(self).events@ == old(self).events@.push(
                    Event::PriceRetracted { asset, committed_ledger },
                )
            }),
            r is Err ==> *final(self) == *old(self),
            *final(self) == (PriceOracleContract {
                finality: Finality { pending: final(self).finality.pending, ..old(self).finality },
                events: final(self).events,
                ..*old(self)
            }),
    {
        if let Some(code) = self.check_guarded_admin(env) {
            return Err(code);
        }
        let e: PendingFinalityEntry = match self.pending_of(&asset, committed_ledger) {
            Ok(e) => e,
            Err(code) => {
                return Err(code);
            },
        };
        if env.ledger >= e.finality_ledger {
            return Err(ErrorCode::AlreadyFinalized);
        }
        self.finality.pending.insert(
            (asset, committed_ledger),
            PendingFinalityEntry { status: FinalityStatus::Retracted, ..e },
        );
        self.events.push(Event::PriceRetracted { asset, committed_ledger });
        Ok(())
    }

    /// Sets how many ledgers an aggregate waits before it can become final.
    pub fn set_finality_ledgers(&mut self, env: &Env, ledgers: u32) -> (r: Result<(), ErrorCode>)
        ensures
            r == reply(
                refused_if(
                    old(self).admin_refusal(*env),
                    ledgers == 0,
                    ErrorCode::InvalidConfiguration,
                ),
            ),
            *final(self) == (if r is Ok {
                PriceOracleContract {
                    finality: Finality { ledgers, ..old(self).finality },
                    ..*old(self)
                }
            } else {
                *old(self)
            }),
    {
        if let Some(e) = self.check_admin(env) {
            return Err(e);
        }
        if ledgers == 0 {
            return Err(ErrorCode::InvalidConfiguration);
        }
        self.finality.ledgers = ledgers;
        Ok(())
    }

    /// How many ledgers an aggregate waits before it can become final.
    pub fn get_finality_ledgers(&self) -> (r: u32)
        ensures
            r == self.finality.ledgers,
    {
        self.finality.ledgers
    }

    /// Whether the hash of `suspect_ledger` has changed since an aggregate of `asset` was put
    /// forward in it. Only the current ledger can be looked at.
    pub fn check_reorg(&self, env: &Env, asset: Address, suspect_ledger: u32) -> (r: bool)
        ensures
            r == (suspect_ledger == env.ledger && self.finality.pending@.contains_key(
                (asset, suspect_ledger),
            ) && self.finality.pending@[(asset, suspect_ledger)].ledger_hash != env.ledger_hash),
    {
        if suspect_ledger != env.ledger {
            return false;
        }
        match self.finality.pending.get(&(asset, suspect_ledger)) {
            Some(e) => !same_bytes(&e.ledger_hash, &env.ledger_hash),
            None => false,
        }
    }
}

/// An aggregate that was put forward can become final exactly as it was put forward, from its
/// finality ledger on and not before.
pub proof fn a_marked_price_can_be_finalized(
    before: PriceOracleContract,
    after: PriceOracleContract,
    env: Env,
    asset: Address,
)
    requires
        after.finality.pending@ == before.finality.pending@.insert(
            (asset, env.ledger),
            before.pending_entry(env, asset),
        ),
    ensures
        after.settled_refusal(asset, env.ledger) is None,
        after.finality.pending@[(asset, env.ledger)].aggregate
            == before.book.aggregates@[asset].aggregate,
        after.finality.pending@[(asset, env.ledger)].finality_ledger == finality_ledger(
            env.ledger,
            before.finality.ledgers,
        ),
{
}

} // verus!
