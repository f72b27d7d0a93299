//! Pausing, health and the migration of stored data.

use crate::contract::PriceOracleContract;
use crate::env::Env;
use crate::error::{refused_if, reply, ErrorCode};
use crate::events::Event;
use crate::prices::MAX_TEXT;
use crate::types::Address;
use vstd::prelude::*;

verus! {

/// The version of the storage schema that a migration leads to.
pub const CURRENT_VERSION: u32 = 2;

/// How many items one step of a migration handles where the caller does not say.
pub const DEFAULT_BATCH: u32 = 50;

/// How far a migration is.
#[derive(Clone, Copy, Debug, PartialEq, Eq, Structural)]
pub struct MigrationState {
    pub from_version: u32,
    pub to_version: u32,
    /// How many items are done.
    pub processed: u32,
    /// How many items there are.
    pub total: u32,
}

/// The storage schema and its migration.
#[derive(Debug)]
pub struct Migration {
    pub storage_version: u32,
    pub state: Option<MigrationState>,
}

/// The state of the contract at a glance.
#[derive(Clone, Copy, Debug, PartialEq, Eq, Structural)]
pub struct HealthReport {
    pub registered_sources: u32,
    /// How many sources do not count as inactive.
    pub active_sources: u32,
    pub registered_assets: u32,
    /// How many assets have an aggregate.
    pub priced_assets: u32,
    pub paused: bool,
    pub last_aggregation_ledger: u32,
    /// How many aggregates are older than the resolution allows.
    pub stale_prices: u32,
    pub suspended_sources: u32,
}

/// A count as far as it can be told.
pub open spec fn told(n: nat) -> u32 {
    if n > u32::MAX {
        u32::MAX
    } else {
        n as u32
    }
}

/// How many of the first `n` keys have a property.
pub open spec fn count_if(keys: Seq<Address>, pred: spec_fn(Address) -> bool, n: int) -> nat
    decreases n,
{
    if n <= 0 {
        0
    } else {
        count_if(keys, pred, n - 1) + if pred(keys[n - 1]) {
            1nat
        } else {
            0nat
        }
    }
}

/// How many items a step of a migration handles.
pub open spec fn step_size(batch_size: u32) -> u32 {
    if batch_size == 0 {
        DEFAULT_BATCH
    } else {
        batch_size
    }
}

/// How many items are done after a step.
pub open spec fn after_step(processed: u32, total: u32, batch_size: u32) -> u32 {
    if processed + step_size(batch_size) < total {
        (processed + step_size(batch_size)) as u32
    } else {
        total
    }
}

/// A step of a migration that is not done yet gets further, or finishes it.
pub proof fn a_migration_gets_further(processed: u32, total: u32, batch_size: u32)
    requires
        processed < total,
    ensures
        processed < after_step(processed, total, batch_size) <= total,
{
}

/// A stop of the submission of prices that ends by itself.
#[derive(Debug)]
pub struct EmergencyPause {
    pub reason: String,
    /// The ledger in which it began.
    pub started_ledger: u32,
    /// The ledger in which it ends.
    pub until_ledger: u32,
}

/// The ledger that lies `n` ledgers after `ledger`, as far as there is one.
pub open spec fn ledgers_later(ledger: u32, n: u32) -> u32 {
    if ledger + n > u32::MAX {
        u32::MAX
    } else {
        (ledger + n) as u32
    }
}

fn add_ledgers(ledger: u32, n: u32) -> (r: u32)
    ensures
        r == ledgers_later(ledger, n),
{
    if ledger > u32::MAX - n {
        u32::MAX
    } else {
        ledger + n
    }
}

impl PriceOracleContract {
    /// Whether an emergency stops the submission of prices.
    pub open spec fn in_emergency(self, env: Env) -> bool {
        self.emergency matches Some(p) && env.ledger < p.until_ledger
    }

    /// Whether the submission of prices is stopped.
    pub open spec fn halted(self, env: Env) -> bool {
        self.paused || self.in_emergency(env)
    }

    /// Whether the submission of prices is stopped.
    pub(crate) fn is_halted(&self, env: &Env) -> (r: bool)
        ensures
            r == self.halted(*env),
    {
        self.paused || self.is_emergency_pause_active(env)
    }

    /// Whether an emergency stops the submission of prices.
    pub fn is_emergency_pause_active(&self, env: &Env) -> (r: bool)
        ensures
            r == self.in_emergency(*env),
    {
        match &self.emergency {
            Some(p) => env.ledger < p.until_ledger,
            None => false,
        }
    }

    /// Stops the submission of prices for some ledgers.
    pub fn emergency_pause(&mut self, env: &Env, reason: String, auto_unpause_ledgers: u32) -> (r: Result<
        (),
        ErrorCode,
    >)
        ensures
            r == reply(
                refused_if(
                    refused_if(
                        old(self).admin_refusal(*env),
                        reason@.len() > MAX_TEXT,
                        ErrorCode::ReasonTooLong,
                    ),
                    auto_unpause_ledgers == 0,
                    ErrorCode::InvalidConfiguration,
                ),
            ),
            *final(self) == (if r is Ok {
                PriceOracleContract {
                    emergency: Some(
                        EmergencyPause {
                            reason,
                            started_ledger: env.ledger,
                            until_ledger: ledgers_later(env.ledger, auto_unpause_ledgers),
                        },
                    ),
                    ..*old(self)
                }
            } else {
                *old(self)
            }),
    {
        if let Some(e) = self.check_admin(env) {
            return Err(e);
        }
        if reason.as_str().unicode_len() > MAX_TEXT {
            return Err(ErrorCode::ReasonTooLong);
        }
        if auto_unpause_ledgers == 0 {
            return Err(ErrorCode::InvalidConfiguration);
        }
        self.emergency = Some(
            EmergencyPause {
                reason,
                started_ledger: env.ledger,
                until_ledger: add_ledgers(env.ledger, auto_unpause_ledgers),
            },
        );
        Ok(())
    }

    /// Prolongs an emergency.
    pub fn extend_emergency_pause(&mut self, env: &Env, additional_ledgers: u32) -> (r: Result<(), ErrorCode>)
        ensures
            r == reply(
                refused_if(
                    old(self).admin_refusal(*env),
                    !old(self).in_emergency(*env),
                    ErrorCode::NoData,
                ),
            ),
            *final(self) == (if r is Ok {
                PriceOracleContract {
                    emergency: Some(
                        EmergencyPause {
                            until_ledger: ledgers_later(
                                old(self).emergency.unwrap().until_ledger,
                                additional_ledgers,
                            ),
                            ..old(self).emergency.unwrap()
                        },
                    ),
                    ..*old(self)
                }
            } else {
                *old(self)
            }),
    {
        if let Some(e) = self.check_admin(env) {
            return Err(e);
        }
        if !self.is_emergency_pause_active(env) {
            return Err(ErrorCode::NoData);
        }
        let mut taken: Option<EmergencyPause> = None;
        std::mem::swap(&mut taken, &mut self.emergency);
        match taken {
            Some(p) => {
                self.emergency = Some(
                    EmergencyPause {
                        reason: p.reason,
                        started_ledger: p.started_ledger,
                        until_ledger: add_ledgers(p.until_ledger, additional_ledgers),
                    },
                );
                Ok(())
            },
            None => Err(ErrorCode::NoData),
        }
    }

    /// Ends an emergency.
    pub fn cancel_emergency_pause(&mut self, env: &Env) -> (r: Result<(), ErrorCode>)
        ensures
            r == reply(
                refused_if(
                    old(self).admin_refusal(*env),
                    !old(self).in_emergency(*env),
                    ErrorCode::NoData,
                ),
            ),
            *final(self) == (if r is Ok {
                PriceOracleContract { emergency: None, ..*old(self) }
            } else {
                *old(self)
            }),
    {
        if let Some(e) = self.check_admin(env) {
            return Err(e);
        }
        if !self.is_emergency_pause_active(env) {
            return Err(ErrorCode::NoData);
        }
        self.emergency = None;
        Ok(())
    }

    /// The last emergency that was not ended early, if there was one.
    pub fn get_emergency_pause(&self) -> (r: Option<&EmergencyPause>)
        ensures
            r == (match &self.emergency {
                Some(p) => Some(p),
                None => None,
            }),
    {
        match &self.emergency {
            Some(p) => Some(p),
            None => None,
        }
    }

    /// Stops the submission of prices.
    pub fn pause(&mut self, env: &Env) -> (r: Result<(), ErrorCode>)
        ensures
            r == reply(old(self).guarded_admin_refusal(*env)),
            *final(self) == (if r is Ok {
                PriceOracleContract { paused: true, ..*old(self) }
            } else {
                *old(self)
            }),
    {
        self.set_pause_flag(env, true)
    }

    /// Allows the submission of prices again.
    pub fn unpause(&mut self, env: &Env) -> (r: Result<(), ErrorCode>)
        ensures
            r == reply(old(self).guarded_admin_refusal(*env)),
            *final(self) == (if r is Ok {
                PriceOracleContract { paused: false, ..*old(self) }
            } else {
                *old(self)
            }),
    {
        self.set_pause_flag(env, false)
    }

    /// Stops the submission of prices, or allows it again.
    pub fn set_pause_flag(&mut self, env: &Env, paused: bool) -> (r: Result<(), ErrorCode>)
        ensures
            r == reply(old(self).guarded_admin_refusal(*env)),
            *final(self) == (if r is Ok {
                PriceOracleContract { paused, ..*old(self) }
            } else {
                *old(self)
            }),
    {
        if let Some(e) = self.check_guarded_admin(env) {
            return Err(e);
        }
        self.paused = paused;
        Ok(())
    }

    /// Whether the submission of prices is stopped.
    pub fn is_paused(&self) -> (r: Result<bool, ErrorCode>)
        ensures
            r == self.guarded(self.paused),
    {
        if self.entered {
            return Err(ErrorCode::Reentrancy);
        }
        Ok(self.paused)
    }

    /// The state of the contract at a glance.
    pub open spec fn health(self, env: Env) -> HealthReport {
        let sources = self.sources.keys();
        let assets = self.book.assets.keys();
        HealthReport {
            registered_sources: told(sources.len()),
            active_sources: told(
                count_if(sources, |s: Address| !self.source_inactive(env, s), sources.len() as int),
            ),
            registered_assets: told(assets.len()),
            priced_assets: told(
                count_if(
                    assets,
                    |a: Address| self.book.aggregates@.contains_key(a),
                    assets.len() as int,
                ),
            ),
            paused: self.paused,
            last_aggregation_ledger: self.book.last_aggregation_ledger,
            stale_prices: told(
                count_if(
                    assets,
                    |a: Address|
                        self.book.aggregates@.contains_key(a) && !self.within_resolution(
                            env,
                            a,
                            self.book.aggregates@[a].aggregate.timestamp,
                        ),
                    assets.len() as int,
                ),
            ),
            suspended_sources: told(
                count_if(sources, |s: Address| self.is_suspended(s), sources.len() as int),
            ),
        }
    }

    /// The state of the contract at a glance.
    pub fn health_check(&self, env: &Env) -> (r: HealthReport)
        ensures
            r == self.health(*env),
    {
        let ghost sources = self.sources.keys();
        let ghost assets = self.book.assets.keys();
        let ghost active = |s: Address| !self.source_inactive(*env, s);
        let ghost barred = |s: Address| self.is_suspended(s);
        let ghost priced = |a: Address| self.book.aggregates@.contains_key(a);
        let ghost stale = |a: Address|
            self.book.aggregates@.contains_key(a) && !self.within_resolution(
                *env,
                a,
                self.book.aggregates@[a].aggregate.timestamp,
            );
        let mut active_sources: u32 = 0;
        let mut suspended_sources: u32 = 0;
        let mut i: usize = 0;
        while i < self.sources.len()
            invariant
                i <= sources.len(),
                sources == self.sources.keys(),
                active == (|s: Address| !self.source_inactive(*env, s)),
                barred == (|s: Address| self.is_suspended(s)),
                active_sources == told(count_if(sources, active, i as int)),
                suspended_sources == told(count_if(sources, barred, i as int)),
            decreases sources.len() - i,
        {
            let s: Address = self.sources.key_at(i);
            if !self.counts_as_inactive(env, &s) && active_sources < u32::MAX {
                active_sources += 1;
            }
            let suspended: bool = match self.suspended.get(&s) {
                Some(b) => *b,
                None => false,
            };
            if suspended && suspended_sources < u32::MAX {
                suspended_sources += 1;
            }
            i += 1;
        }
        let mut priced_assets: u32 = 0;
        let mut stale_prices: u32 = 0;
        let mut k: usize = 0;
        while k < self.book.assets.len()
            invariant
                k <= assets.len(),
                assets == self.book.assets.keys(),
                priced == (|a: Address| self.book.aggregates@.contains_key(a)),
                stale == (|a: Address|
                    self.book.aggregates@.contains_key(a) && !self.within_resolution(
                        *env,
                        a,
                        self.book.aggregates@[a].aggregate.timestamp,
                    )),
                priced_assets == told(count_if(assets, priced, k as int)),
                stale_prices == told(count_if(assets, stale, k as int)),
            decreases assets.len() - k,
        {
            let a: Address = self.book.assets.key_at(k);
            if let Some(v) = self.book.aggregates.get(&a) {
                if priced_assets < u32::MAX {
                    priced_assets += 1;
                }
                if !self.passes_resolution(env, &a, v.aggregate.timestamp) && stale_prices < u32::MAX {
                    stale_prices += 1;
                }
            }
            k += 1;
        }
        let registered_sources: u32 = if self.sources.len() > u32::MAX as usize {
            u32::MAX
        } else {
            self.sources.len() as u32
        };
        let registered_assets: u32 = if self.book.assets.len() > u32::MAX as usize {
            u32::MAX
        } else {
            self.book.assets.len() as u32
        };
        HealthReport {
            registered_sources,
            active_sources,
            registered_assets,
            priced_assets,
            paused: self.paused,
            last_aggregation_ledger: self.book.last_aggregation_ledger,
            stale_prices,
            suspended_sources,
        }
    }

    /// Where a migration stands before its next step.
    pub open spec fn migration_now(self) -> MigrationState {
        match self.migration.state {
            Some(s) => s,
            None => MigrationState {
                from_version: self.migration.storage_version,
                to_version: CURRENT_VERSION,
                processed: 0,
                total: told(self.book.assets.keys().len()),
            },
        }
    }

    /// Takes a migration one step further: it begins, goes on, or comes to its end, which is
    /// announced. A `batch_size` of `0` stands for the usual size of a step. Nothing happens once
    /// the schema is current.
    pub fn migrate_storage(&mut self, env: &Env, batch_size: u32) -> (r: Result<(), ErrorCode>)
        ensures
            r == reply(old(self).admin_refusal(*env)),
            r is Err || (old(self).migration.state is None && old(self).migration.storage_version
                >= CURRENT_VERSION) ==> *final(self) == *old(self),
            r is Ok && (old(self).migration.state is Some || old(self).migration.storage_version
                < CURRENT_VERSION) ==> {
                let now = old(self).migration_now();
                let done = after_step(now.processed, now.total, batch_size);
                let begun = if old(self).migration.state is None {
                    Event::MigrationStarted {
                        from_version: now.from_version,
                        to_version: now.to_version,
                    }
                } else {
                    Event::MigrationResumed { processed: now.processed }
                };
                &&& done < now.total ==> {
                    &&& final(self).migration.state == Some(
                        MigrationState { processed: done, ..now },
                    )
                    &&& final(self).migration.storage_version == old(self).migration.storage_version
                    &&& final(self).events@ == old(self).events@.push(begun)
                }
                &&& done >= now.total ==> {
                    &&& final(self).migration.state is None
                    &&& final(self).migration.storage_version == now.to_version
                    &&& final(self).events@ == old(self).events@.push(begun).push(
                        Event::MigrationCompleted { version: now.to_version },
                    )
                }
            },
            *final(self) == (PriceOracleContract {
                migration: final(self).migration,
                events: final(self).events,
                ..*old(self)
            }),
    {
        if let Some(e) = self.check_admin(env) {
            return Err(e);
        }
        let now: MigrationState = match &self.migration.state {
            Some(s) => {
                self.events.push(Event::MigrationResumed { processed: s.processed });
                *s
            },
            None => {
                if self.migration.storage_version >= CURRENT_VERSION {
                    return Ok(());
                }
                let total: u32 = if self.book.assets.len() > u32::MAX as usize {
                    u32::MAX
                } else {
                    self.book.assets.len() as u32
                };
                let s = MigrationState {
                    from_version: self.migration.storage_version,
                    to_version: CURRENT_VERSION,
                    processed: 0,
                    total,
                };
                self.events.push(
                    Event::MigrationStarted {
                        from_version: s.from_version,
                        to_version: s.to_version,
                    },
                );
                s
            },
        };
        let step: u32 = if batch_size == 0 {
            DEFAULT_BATCH
        } else {
            batch_size
        };
        if now.processed <= u32::MAX - step && now.processed + step < now.total {
            self.migration.state = Some(MigrationState { processed: now.processed + step, ..now });
        } else {
            self.migration.state = None;
            self.migration.storage_version = now.to_version;
            self.events.push(Event::MigrationCompleted { version: now.to_version });
        }
        Ok(())
    }

    /// The version of the storage schema.
    pub fn get_storage_version(&self) -> (r: u32)
        ensures
            r == self.migration.storage_version,
    {
        self.migration.storage_version
    }

    /// How far the migration is, if one runs.
    pub fn get_migration_state(&self) -> (r: Option<MigrationState>)
        ensures
            r == self.migration.state,
    {
        self.migration.state
    }
}

} // verus!
