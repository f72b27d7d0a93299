//! The registry of sources and their liveness.

use crate::contract::{DailyCount, PriceOracleContract, Settings};
use crate::env::Env;
use crate::error::{refused_if, reply, ErrorCode};
use crate::events::Event;
use crate::price_book::{activity_of, Activity, AggregationRound, PriceBook};
use crate::table::{Key, Table};
use crate::types::Address;
use vstd::prelude::*;

verus! {

/// The kind of administrator's operation that registers a source.
pub const OP_ADD_SOURCE: u32 = 0;

/// The kind of administrator's operation that removes a source.
pub const OP_REMOVE_SOURCE: u32 = 1;

/// The seconds of a day.
pub const DAY_SECONDS: u64 = 86_400;

/// When a source was last heard of: its last heartbeat, or its registration where it sent none.
pub open spec fn last_heard(a: Activity) -> u64 {
    if a.last_heartbeat == 0 {
        a.registered_at
    } else {
        a.last_heartbeat
    }
}

/// Whether a source counts as inactive at `now`.
pub open spec fn inactive_at(a: Activity, now: u64, interval: u64) -> bool {
    a.marked_inactive || now - last_heard(a) > interval
}

/// Whether a source was silent for more than `limit` ledgers at ledger `now`.
pub open spec fn silent_at(a: Activity, now: u32, limit: u32) -> bool {
    now - a.last_active_ledger > limit
}

/// How many missed heartbeats make a source inactive.
pub const MISS_THRESHOLD: u32 = 3;

/// How alive a source is.
#[derive(Clone, Copy, Debug, PartialEq, Eq, Structural)]
pub enum SourceHealthStatus {
    /// It missed no heartbeat and sent a price in time.
    Healthy,
    /// It missed some heartbeats, but not too many, or sent no price in time.
    Degraded,
    /// It missed too many heartbeats, was marked as inactive, or is not known.
    Inactive,
    /// It was removed for its silence.
    AutoRemoved,
}

/// How many heartbeats a source has missed in a row at `now`.
pub open spec fn missed_at(a: Activity, now: u64, interval: u64) -> u32 {
    let missed = if interval == 0 || now <= last_heard(a) {
        0
    } else {
        (now - last_heard(a)) / interval as int
    };
    if missed > u32::MAX {
        u32::MAX
    } else {
        missed as u32
    }
}

/// Whether a source sent its last price no longer than `interval` seconds before `now`.
pub open spec fn priced_within(a: Activity, now: u64, interval: u64) -> bool {
    a.last_price_at matches Some(at) && now - at <= interval
}

/// How many of the first `n` sources are removed, where a silent source is removed unless too
/// few would stay.
pub open spec fn removed_count(
    sources: Seq<Address>,
    silent: spec_fn(Address) -> bool,
    min: int,
    n: int,
) -> int
    decreases n,
{
    if n <= 0 {
        0
    } else {
        let r = removed_count(sources, silent, min, n - 1);
        if silent(sources[n - 1]) && sources.len() - r > min {
            r + 1
        } else {
            r
        }
    }
}

/// Which of the first `n` sources stay.
pub open spec fn kept_sources(
    sources: Seq<Address>,
    silent: spec_fn(Address) -> bool,
    min: int,
    n: int,
) -> Seq<Address>
    decreases n,
{
    if n <= 0 {
        Seq::empty()
    } else {
        let k = kept_sources(sources, silent, min, n - 1);
        if silent(sources[n - 1]) && sources.len() - removed_count(sources, silent, min, n - 1) > min {
            k
        } else {
            k.push(sources[n - 1])
        }
    }
}

proof fn lemma_kept(sources: Seq<Address>, silent: spec_fn(Address) -> bool, min: int, n: int)
    requires
        0 <= n <= sources.len(),
        0 <= min,
    ensures
        0 <= removed_count(sources, silent, min, n) <= n,
        kept_sources(sources, silent, min, n).len() == n - removed_count(sources, silent, min, n),
        sources.len() - removed_count(sources, silent, min, n) >= min || removed_count(
            sources,
            silent,
            min,
            n,
        ) == 0,
    decreases n,
{
    if n > 0 {
        lemma_kept(sources, silent, min, n - 1);
    }
}

/// Removing silent sources leaves as many as an aggregate needs, where so many were registered.
pub proof fn pruning_keeps_enough_sources(sources: Seq<Address>, silent: spec_fn(Address) -> bool, min: u32)
    requires
        sources.len() >= min,
    ensures
        kept_sources(sources, silent, min as int, sources.len() as int).len() >= min,
{
    lemma_kept(sources, silent, min as int, sources.len() as int);
}

proof fn lemma_remove_value(s: Seq<Address>, i: int)
    requires
        s.no_duplicates(),
        0 <= i < s.len(),
    ensures
        s.remove_value(s[i]) == s.remove(i),
{
    s.index_of_first_ensures(s[i]);
}

impl PriceOracleContract {
    /// The day of the call.
    pub open spec fn day_of(env: Env) -> u64 {
        env.timestamp / DAY_SECONDS
    }

    /// How many operations of the kind `op_type` the day of the call has held.
    pub open spec fn ops_today(self, env: Env, op_type: u32) -> u32 {
        if self.op_counts@.contains_key(op_type) && self.op_counts@[op_type].day == Self::day_of(env) {
            self.op_counts@[op_type].count
        } else {
            0
        }
    }

    /// Whether the day of the call may hold no further operation of the kind `op_type`.
    pub open spec fn ops_exhausted(self, env: Env, op_type: u32) -> bool {
        self.op_limits@.contains_key(op_type) && self.ops_today(env, op_type)
            >= self.op_limits@[op_type]
    }

    /// The counts after one more operation of the kind `op_type`.
    pub open spec fn counts_with(self, env: Env, op_type: u32) -> Map<u32, DailyCount> {
        let today = self.ops_today(env, op_type);
        self.op_counts@.insert(
            op_type,
            DailyCount {
                day: Self::day_of(env),
                count: if today == u32::MAX {
                    today
                } else {
                    (today + 1) as u32
                },
            },
        )
    }

    /// How many operations of the kind `op_type` the day of the call has held.
    pub fn get_admin_op_daily_count(&self, env: &Env, op_type: u32) -> (r: u32)
        ensures
            r == self.ops_today(*env, op_type),
    {
        match self.op_counts.get(&op_type) {
            Some(c) => if c.day == env.timestamp / DAY_SECONDS {
                c.count
            } else {
                0
            },
            None => 0,
        }
    }

    /// How many operations of the kind `op_type` a day may hold; `0` where no limit is set.
    pub fn get_admin_op_daily_limit(&self, op_type: u32) -> (r: u32)
        ensures
            r == (if self.op_limits@.contains_key(op_type) {
                self.op_limits@[op_type]
            } else {
                0
            }),
    {
        match self.op_limits.get(&op_type) {
            Some(l) => *l,
            None => 0,
        }
    }

    /// Limits how many operations of the kind `op_type` a day may hold.
    pub fn set_admin_op_daily_limit(&mut self, env: &Env, op_type: u32, daily_limit: u32) -> (r: Result<
        (),
        ErrorCode,
    >)
        ensures
            r == reply(
                refused_if(
                    old(self).admin_refusal(*env),
                    daily_limit == 0,
                    ErrorCode::InvalidConfiguration,
                ),
            ),
            r is Ok ==> final(self).op_limits@ == old(self).op_limits@.insert(op_type, daily_limit),
            *final(self) == (PriceOracleContract { op_limits: final(self).op_limits, ..*old(self) }),
            r is Err ==> *final(self) == *old(self),
    {
        if let Some(e) = self.check_admin(env) {
            return Err(e);
        }
        if daily_limit == 0 {
            return Err(ErrorCode::InvalidConfiguration);
        }
        self.op_limits.insert(op_type, daily_limit);
        Ok(())
    }

    fn has_exhausted(&self, env: &Env, op_type: u32) -> (r: bool)
        ensures
            r == self.ops_exhausted(*env, op_type),
    {
        match self.op_limits.get(&op_type) {
            Some(l) => self.get_admin_op_daily_count(env, op_type) >= *l,
            None => false,
        }
    }

    fn count_op(&mut self, env: &Env, op_type: u32)
        ensures
            final(self).op_counts@ == old(self).counts_with(*env, op_type),
            *final(self) == (PriceOracleContract { op_counts: final(self).op_counts, ..*old(self) }),
    {
        let today: u32 = self.get_admin_op_daily_count(env, op_type);
        let count: u32 = if today == u32::MAX {
            today
        } else {
            today + 1
        };
        self.op_counts.insert(op_type, DailyCount { day: env.timestamp / DAY_SECONDS, count });
    }

    /// Whether as many sources are registered as may be.
    pub open spec fn sources_full(self) -> bool {
        self.settings.max_sources > 0 && self.sources.keys().len() >= self.settings.max_sources
    }

    /// Why the registration of `source` is refused, if it is.
    pub open spec fn add_source_refusal(self, env: Env, source: Address) -> Option<ErrorCode> {
        if self.guarded_admin_refusal(env) is Some {
            self.guarded_admin_refusal(env)
        } else if self.sources@.contains_key(source) {
            Some(ErrorCode::SourceAlreadyExists)
        } else if self.sources_full() {
            Some(ErrorCode::MaxSourcesReached)
        } else if self.ops_exhausted(env, OP_ADD_SOURCE) {
            Some(ErrorCode::DailyLimitExceeded)
        } else {
            None
        }
    }

    /// Registers `source`, which may then submit prices.
    pub fn add_source(&mut self, env: &Env, source: Address, name: String) -> (r: Result<(), ErrorCode>)
        ensures
            r == reply(old(self).add_source_refusal(*env, source)),
            r is Err ==> *final(self) == *old(self),
            r is Ok ==> {
                &&& final(self).op_counts@ == old(self).counts_with(*env, OP_ADD_SOURCE)
                &&& PriceOracleContract::source_registered(
                    PriceOracleContract { op_counts: final(self).op_counts, ..*old(self) },
                    *final(self),
                    *env,
                    source,
                    name,
                )
            },
    {
        if let Some(e) = self.check_guarded_admin(env) {
            return Err(e);
        }
        if self.sources.contains_key(&source) {
            return Err(ErrorCode::SourceAlreadyExists);
        }
        if self.has_room() {
            if self.has_exhausted(env, OP_ADD_SOURCE) {
                return Err(ErrorCode::DailyLimitExceeded);
            }
            self.count_op(env, OP_ADD_SOURCE);
            self.register_source(env, source, name);
            Ok(())
        } else {
            Err(ErrorCode::MaxSourcesReached)
        }
    }

    /// Whether another source may be registered.
    pub(crate) fn has_room(&self) -> (r: bool)
        ensures
            r == !self.sources_full(),
    {
        self.settings.max_sources == 0 || self.sources.len() < self.settings.max_sources as usize
    }

    /// Whether `post` is `pre` with the source `source`, of which nothing was heard yet.
    pub open spec fn source_registered(pre: Self, post: Self, env: Env, source: Address, name: String) -> bool {
        &&& post.sources@ == pre.sources@.insert(source, name)
        &&& post.sources.keys() == pre.sources.keys().push(source)
        &&& post.book.activity@ == pre.book.activity@.insert(
            source,
            Activity {
                registered_at: env.timestamp,
                last_heartbeat: 0,
                last_active_ledger: env.ledger,
                last_price_ledger: 0,
                last_price_at: None,
                marked_inactive: false,
            },
        )
        &&& post.auto_removed@ == pre.auto_removed@.remove(source)
        &&& post == (PriceOracleContract {
            sources: post.sources,
            auto_removed: post.auto_removed,
            book: PriceBook { activity: post.book.activity, ..pre.book },
            ..pre
        })
    }

    pub(crate) fn register_source(&mut self, env: &Env, source: Address, name: String)
        requires
            !old(self).sources@.contains_key(source),
        ensures
            PriceOracleContract::source_registered(*old(self), *final(self), *env, source, name),
    {
        self.sources.insert(source, name);
        let _ = self.auto_removed.remove(&source);
        self.book.activity.insert(
            source,
            Activity {
                registered_at: env.timestamp,
                last_heartbeat: 0,
                last_active_ledger: env.ledger,
                last_price_ledger: 0,
                last_price_at: None,
                marked_inactive: false,
            },
        );
    }

    /// Removes `source`. What it submitted stays and counts no longer.
    pub fn remove_source(&mut self, env: &Env, source: Address) -> (r: Result<(), ErrorCode>)
        ensures
            r == reply(
                refused_if(
                    refused_if(
                        old(self).guarded_admin_refusal(*env),
                        !old(self).sources@.contains_key(source),
                        ErrorCode::SourceNotFound,
                    ),
                    old(self).ops_exhausted(*env, OP_REMOVE_SOURCE),
                    ErrorCode::DailyLimitExceeded,
                ),
            ),
            r is Err ==> *final(self) == *old(self),
            r is Ok ==> {
                &&& final(self).sources@ == old(self).sources@.remove(source)
                &&& final(self).sources.keys() == old(self).sources.keys().remove_value(source)
                &&& final(self).op_counts@ == old(self).counts_with(*env, OP_REMOVE_SOURCE)
            },
            *final(self) == (PriceOracleContract {
                sources: final(self).sources,
                op_counts: final(self).op_counts,
                ..*old(self)
            }),
    {
        if let Some(e) = self.check_guarded_admin(env) {
            return Err(e);
        }
        if !self.sources.contains_key(&source) {
            return Err(ErrorCode::SourceNotFound);
        }
        if self.has_exhausted(env, OP_REMOVE_SOURCE) {
            return Err(ErrorCode::DailyLimitExceeded);
        }
        self.count_op(env, OP_REMOVE_SOURCE);
        let _ = self.sources.remove(&source);
        Ok(())
    }

    /// Whether `source` is registered.
    pub fn is_source(&self, source: Address) -> (r: Result<bool, ErrorCode>)
        ensures
            r == self.guarded(self.sources@.contains_key(source)),
    {
        if self.entered {
            return Err(ErrorCode::Reentrancy);
        }
        Ok(self.sources.contains_key(&source))
    }

    /// The registered sources, in the order of their registration.
    pub fn get_sources(&self) -> (r: Vec<Address>)
        ensures
            r@ == self.sources.keys(),
    {
        let mut r: Vec<Address> = Vec::new();
        let mut i: usize = 0;
        while i < self.sources.len()
            invariant
                i <= self.sources.keys().len(),
                r@ == self.sources.keys().take(i as int),
            decreases self.sources.keys().len() - i,
        {
            r.push(self.sources.key_at(i));
            i += 1;
            assert(r@ =~= self.sources.keys().take(i as int));
        }
        assert(r@ =~= self.sources.keys());
        r
    }

    /// The registered sources with their names, in the order of their registration.
    pub fn get_oracle_sources(&self) -> (r: Result<Vec<(Address, &String)>, ErrorCode>)
        ensures
            match r {
                Err(e) => self.entered && e == ErrorCode::Reentrancy,
                Ok(list) => !self.entered && list@.len() == self.sources.keys().len() && forall|i: int|
                    0 <= i < list@.len() ==> (#[trigger] list@[i]).0 == self.sources.keys()[i]
                        && *list@[i].1 == self.sources@[self.sources.keys()[i]],
            },
    {
        if self.entered {
            return Err(ErrorCode::Reentrancy);
        }
        let mut r: Vec<(Address, &String)> = Vec::new();
        let mut i: usize = 0;
        while i < self.sources.len()
            invariant
                i <= self.sources.keys().len(),
                r@.len() == i,
                forall|j: int|
                    0 <= j < i ==> (#[trigger] r@[j]).0 == self.sources.keys()[j] && *r@[j].1
                        == self.sources@[self.sources.keys()[j]],
            decreases self.sources.keys().len() - i,
        {
            let source: Address = self.sources.key_at(i);
            if let Some(name) = self.sources.get(&source) {
                r.push((source, name));
            }
            i += 1;
        }
        Ok(r)
    }

    /// Takes a sign of life of `source`. A source that was marked as inactive is active again,
    /// which is announced.
    pub fn submit_heartbeat(&mut self, env: &Env, source: Address) -> (r: Result<(), ErrorCode>)
        ensures
            r == (if old(self).entered {
                Err(ErrorCode::Reentrancy)
            } else if !env.authorizes(source) {
                Err(ErrorCode::NotAuthorized)
            } else if !old(self).sources@.contains_key(source) {
                Err(ErrorCode::SourceNotFound)
            } else {
                Ok(())
            }),
            r is Err ==> *final(self) == *old(self),
            r is Ok ==> {
                let before = activity_of(old(self).book.activity@, source);
                &&& final(self).book.activity@ == old(self).book.activity@.insert(
                    source,
                    Activity {
                        last_heartbeat: env.timestamp,
                        last_active_ledger: env.ledger,
                        marked_inactive: false,
                        ..before
                    },
                )
                &&& final(self).events@ == (if before.marked_inactive {
                    old(self).events@.push(Event::SourceActiveAgain { source })
                } else {
                    old(self).events@
                })
            },
            *final(self) == (PriceOracleContract {
                book: PriceBook { activity: final(self).book.activity, ..old(self).book },
                events: final(self).events,
                ..*old(self)
            }),
    {
        if self.entered {
            return Err(ErrorCode::Reentrancy);
        }
        if !env.is_authorized_by(&source) {
            return Err(ErrorCode::NotAuthorized);
        }
        if !self.sources.contains_key(&source) {
            return Err(ErrorCode::SourceNotFound);
        }
        let before: Activity = self.book.activity_of(&source);
        if before.marked_inactive {
            self.events.push(Event::SourceActiveAgain { source });
        }
        self.book.activity.insert(
            source,
            Activity {
                last_heartbeat: env.timestamp,
                last_active_ledger: env.ledger,
                marked_inactive: false,
                ..before
            },
        );
        Ok(())
    }

    /// Marks `source` as inactive until its next heartbeat.
    pub fn mark_source_inactive(&mut self, env: &Env, source: Address) -> (r: Result<(), ErrorCode>)
        ensures
            r == reply(
                refused_if(
                    old(self).admin_refusal(*env),
                    !old(self).sources@.contains_key(source),
                    ErrorCode::SourceNotFound,
                ),
            ),
            r is Err ==> *final(self) == *old(self),
            r is Ok ==> final(self).book.activity@ == old(self).book.activity@.insert(
                source,
                Activity { marked_inactive: true, ..activity_of(old(self).book.activity@, source) },
            ),
            *final(self) == (PriceOracleContract {
                book: PriceBook { activity: final(self).book.activity, ..old(self).book },
                ..*old(self)
            }),
    {
        if let Some(e) = self.check_admin(env) {
            return Err(e);
        }
        if !self.sources.contains_key(&source) {
            return Err(ErrorCode::SourceNotFound);
        }
        let before: Activity = self.book.activity_of(&source);
        self.book.activity.insert(source, Activity { marked_inactive: true, ..before });
        Ok(())
    }

    /// Whether `source` counts as inactive.
    pub open spec fn source_inactive(self, env: Env, source: Address) -> bool {
        inactive_at(
            activity_of(self.book.activity@, source),
            env.timestamp,
            self.config.heartbeat_interval,
        )
    }

    pub(crate) fn counts_as_inactive(&self, env: &Env, source: &Address) -> (r: bool)
        ensures
            r == self.source_inactive(*env, *source),
    {
        let a: Activity = self.book.activity_of(source);
        let heard: u64 = if a.last_heartbeat == 0 {
            a.registered_at
        } else {
            a.last_heartbeat
        };
        a.marked_inactive || (env.timestamp > heard && env.timestamp - heard
            > self.config.heartbeat_interval)
    }

    /// Whether `source` counts as inactive: it was marked so, or it was silent for longer than
    /// the heartbeat interval.
    pub fn is_source_inactive(&self, env: &Env, source: Address) -> (r: Result<bool, ErrorCode>)
        ensures
            r == self.guarded(self.source_inactive(*env, source)),
    {
        if self.entered {
            return Err(ErrorCode::Reentrancy);
        }
        Ok(self.counts_as_inactive(env, &source))
    }

    /// How many of the first `n` registered sources count as inactive.
    pub open spec fn inactive_count(self, env: Env, n: int) -> nat
        decreases n,
    {
        if n <= 0 {
            0
        } else {
            self.inactive_count(env, n - 1) + if self.source_inactive(env, self.sources.keys()[n - 1]) {
                1nat
            } else {
                0nat
            }
        }
    }

    pub(crate) fn count_inactive(&self, env: &Env) -> (r: u32)
        ensures
            r == (if self.inactive_count(*env, self.sources.keys().len() as int) > u32::MAX {
                u32::MAX as nat
            } else {
                self.inactive_count(*env, self.sources.keys().len() as int)
            }),
    {
        let mut n: u32 = 0;
        let mut i: usize = 0;
        while i < self.sources.len()
            invariant
                i <= self.sources.keys().len(),
                n == (if self.inactive_count(*env, i as int) > u32::MAX {
                    u32::MAX as nat
                } else {
                    self.inactive_count(*env, i as int)
                }),
            decreases self.sources.keys().len() - i,
        {
            let source: Address = self.sources.key_at(i);
            if self.counts_as_inactive(env, &source) && n < u32::MAX {
                n += 1;
            }
            i += 1;
        }
        n
    }

    /// How many registered sources count as inactive.
    pub fn get_inactive_sources(&self, env: &Env) -> (r: Result<u32, ErrorCode>)
        ensures
            match r {
                Err(e) => self.entered && e == ErrorCode::Reentrancy,
                Ok(n) => !self.entered && n == (if self.inactive_count(
                    *env,
                    self.sources.keys().len() as int,
                ) > u32::MAX {
                    u32::MAX as nat
                } else {
                    self.inactive_count(*env, self.sources.keys().len() as int)
                }),
            },
    {
        if self.entered {
            return Err(ErrorCode::Reentrancy);
        }
        Ok(self.count_inactive(env))
    }

    /// How many heartbeats `source` has missed in a row.
    pub open spec fn missed_by(self, env: Env, source: Address) -> u32 {
        missed_at(
            activity_of(self.book.activity@, source),
            env.timestamp,
            self.config.heartbeat_interval,
        )
    }

    /// How many heartbeats `source` has missed in a row.
    pub fn get_missed_heartbeats(&self, env: &Env, source: Address) -> (r: u32)
        ensures
            r == self.missed_by(*env, source),
    {
        let a: Activity = self.book.activity_of(&source);
        let heard: u64 = if a.last_heartbeat == 0 {
            a.registered_at
        } else {
            a.last_heartbeat
        };
        let interval: u64 = self.config.heartbeat_interval;
        if interval == 0 || env.timestamp <= heard {
            return 0;
        }
        let missed: u64 = (env.timestamp - heard) / interval;
        if missed > u32::MAX as u64 {
            u32::MAX
        } else {
            missed as u32
        }
    }

    /// How alive `source` is. The time that it has for its next price is the one that it has for
    /// its next heartbeat.
    pub open spec fn health_of(self, env: Env, source: Address) -> SourceHealthStatus {
        if !self.sources@.contains_key(source) {
            if self.auto_removed@.contains_key(source) {
                SourceHealthStatus::AutoRemoved
            } else {
                SourceHealthStatus::Inactive
            }
        } else {
            let a = activity_of(self.book.activity@, source);
            let missed = self.missed_by(env, source);
            let interval = adaptive_interval(
                self.config.heartbeat_interval,
                missed,
                self.settings.heartbeat_window,
            );
            if a.marked_inactive || missed >= MISS_THRESHOLD {
                SourceHealthStatus::Inactive
            } else if missed == 0 && priced_within(a, env.timestamp, interval) {
                SourceHealthStatus::Healthy
            } else {
                SourceHealthStatus::Degraded
            }
        }
    }

    /// How alive `source` is.
    pub fn get_source_health(&self, env: &Env, source: Address) -> (r: SourceHealthStatus)
        ensures
            r == self.health_of(*env, source),
    {
        if !self.sources.contains_key(&source) {
            return if self.auto_removed.contains_key(&source) {
                SourceHealthStatus::AutoRemoved
            } else {
                SourceHealthStatus::Inactive
            };
        }
        let a: Activity = self.book.activity_of(&source);
        let missed: u32 = self.get_missed_heartbeats(env, source);
        if a.marked_inactive || missed >= MISS_THRESHOLD {
            return SourceHealthStatus::Inactive;
        }
        let interval: u64 = self.compute_adaptive_interval(missed);
        let priced: bool = match a.last_price_at {
            Some(at) => env.timestamp <= at || env.timestamp - at <= interval,
            None => false,
        };
        if missed == 0 && priced {
            SourceHealthStatus::Healthy
        } else {
            SourceHealthStatus::Degraded
        }
    }

    /// When `source` last sent a heartbeat, in seconds; `0` for never.
    pub fn get_source_last_heartbeat(&self, source: Address) -> (r: Result<u64, ErrorCode>)
        ensures
            r == self.guarded(activity_of(self.book.activity@, source).last_heartbeat),
    {
        if self.entered {
            return Err(ErrorCode::Reentrancy);
        }
        Ok(self.book.activity_of(&source).last_heartbeat)
    }

    /// The ledger in which `source` last submitted a price; `0` for never.
    pub fn get_last_price_ledger(&self, source: Address) -> (r: u32)
        ensures
            r == activity_of(self.book.activity@, source).last_price_ledger,
    {
        self.book.activity_of(&source).last_price_ledger
    }

    /// The reputation of `source`, which is its weight in a weighted median.
    pub fn get_source_reputation(&self, source: Address) -> (r: i128)
        ensures
            r == crate::price_book::weight_of(self.weights@, source),
    {
        match self.weights.get(&source) {
            Some(w) => *w as i128,
            None => 1,
        }
    }

    /// Records what was decided of a source: whether it may submit prices, and its weight.
    pub fn record_source_standing(
        &mut self,
        env: &Env,
        source: Address,
        suspended: bool,
        reputation: u32,
    ) -> (r: Result<(), ErrorCode>)
        ensures
            r == reply(
                refused_if(
                    old(self).admin_refusal(*env),
                    !old(self).sources@.contains_key(source),
                    ErrorCode::SourceNotFound,
                ),
            ),
            r is Err ==> *final(self) == *old(self),
            r is Ok ==> final(self).suspended@ == old(self).suspended@.insert(source, suspended)
                && final(self).weights@ == old(self).weights@.insert(source, reputation),
            *final(self) == (PriceOracleContract {
                suspended: final(self).suspended,
                weights: final(self).weights,
                ..*old(self)
            }),
    {
        if let Some(e) = self.check_admin(env) {
            return Err(e);
        }
        if !self.sources.contains_key(&source) {
            return Err(ErrorCode::SourceNotFound);
        }
        self.suspended.insert(source, suspended);
        self.weights.insert(source, reputation);
        Ok(())
    }

    /// Allows `source` a deviation of its own, in ten-thousandths; `0` takes it back.
    pub fn set_source_deviation_tolerance(&mut self, env: &Env, source: Address, tolerance_bps: u32) -> (r:
        Result<(), ErrorCode>)
        ensures
            r == reply(old(self).admin_refusal(*env)),
            r is Err ==> *final(self) == *old(self),
            r is Ok ==> final(self).deviation_tolerance@ == (if tolerance_bps == 0 {
                old(self).deviation_tolerance@.remove(source)
            } else {
                old(self).deviation_tolerance@.insert(source, tolerance_bps)
            }),
            *final(self) == (PriceOracleContract {
                deviation_tolerance: final(self).deviation_tolerance,
                ..*old(self)
            }),
    {
        if let Some(e) = self.check_admin(env) {
            return Err(e);
        }
        if tolerance_bps == 0 {
            let _ = self.deviation_tolerance.remove(&source);
        } else {
            self.deviation_tolerance.insert(source, tolerance_bps);
        }
        Ok(())
    }

    /// The deviation that `source` alone is allowed, in ten-thousandths, if there is one.
    pub fn get_source_deviation_tolerance(&self, source: Address) -> (r: Option<u32>)
        ensures
            r == crate::price_book::lookup(self.deviation_tolerance@, source),
    {
        match self.deviation_tolerance.get(&source) {
            Some(t) => Some(*t),
            None => None,
        }
    }

    /// Sets after how many silent ledgers a source may be removed.
    pub fn set_max_inactive_ledgers(&mut self, env: &Env, ledgers: u32) -> (r: Result<(), ErrorCode>)
        ensures
            r == reply(
                refused_if(
                    old(self).admin_refusal(*env),
                    ledgers == 0,
                    ErrorCode::InvalidConfiguration,
                ),
            ),
            *final(self) == (if r is Ok {
                PriceOracleContract {
                    settings: Settings { max_inactive_ledgers: ledgers, ..old(self).settings },
                    ..*old(self)
                }
            } else {
                *old(self)
            }),
    {
        if let Some(e) = self.check_admin(env) {
            return Err(e);
        }
        if ledgers == 0 {
            return Err(ErrorCode::InvalidConfiguration);
        }
        self.settings.max_inactive_ledgers = ledgers;
        Ok(())
    }

    /// After how many silent ledgers a source may be removed.
    pub fn get_max_inactive_ledgers(&self) -> (r: u32)
        ensures
            r == self.settings.max_inactive_ledgers,
    {
        self.settings.max_inactive_ledgers
    }

    /// Sets how many missed heartbeats double the time that a source has for the next one.
    pub fn set_heartbeat_window(&mut self, env: &Env, window: u32) -> (r: Result<(), ErrorCode>)
        ensures
            r == reply(
                refused_if(
                    old(self).admin_refusal(*env),
                    window == 0,
                    ErrorCode::InvalidConfiguration,
                ),
            ),
            *final(self) == (if r is Ok {
                PriceOracleContract {
                    settings: Settings { heartbeat_window: window, ..old(self).settings },
                    ..*old(self)
                }
            } else {
                *old(self)
            }),
    {
        if let Some(e) = self.check_admin(env) {
            return Err(e);
        }
        if window == 0 {
            return Err(ErrorCode::InvalidConfiguration);
        }
        self.settings.heartbeat_window = window;
        Ok(())
    }

    /// How many missed heartbeats double the time that a source has for the next one.
    pub fn get_heartbeat_window(&self) -> (r: u32)
        ensures
            r == self.settings.heartbeat_window,
    {
        self.settings.heartbeat_window
    }

    /// The time in seconds that a source has for its next heartbeat once it missed `missed` of
    /// them: it grows with their number, up to three times the heartbeat interval.
    pub fn compute_adaptive_interval(&self, missed: u32) -> (r: u64)
        ensures
            r == adaptive_interval(
                self.config.heartbeat_interval,
                missed,
                self.settings.heartbeat_window,
            ),
    {
        adaptive(self.config.heartbeat_interval, missed, self.settings.heartbeat_window)
    }

    /// Removes the sources that were silent for too long, as long as enough of them stay for an
    /// aggregate, and tells how many it removed. Anyone may ask for it.
    pub fn check_and_prune_inactive_sources(&mut self, env: &Env) -> (r: u32)
        ensures
            ({
                let keys = old(self).sources.keys();
                let silent = |s: Address|
                    silent_at(
                        activity_of(old(self).book.activity@, s),
                        env.ledger,
                        old(self).settings.max_inactive_ledgers,
                    );
                let min = old(self).config.min_sources_required as int;
                let removed = removed_count(keys, silent, min, keys.len() as int);
                &&& r == (if removed > u32::MAX {
                    u32::MAX as int
                } else {
                    removed
                })
                &&& final(self).sources.keys() == kept_sources(keys, silent, min, keys.len() as int)
                &&& final(self).sources@ == old(self).sources@.restrict(
                    final(self).sources.keys().to_set(),
                )
                &&& forall|s: Address| #[trigger]
                    final(self).auto_removed@.contains_key(s) <==> old(self).auto_removed@.contains_key(s)
                        || (old(self).sources@.contains_key(s) && !final(self).sources@.contains_key(s))
            }),
            *final(self) == (PriceOracleContract {
                sources: final(self).sources,
                auto_removed: final(self).auto_removed,
                ..*old(self)
            }),
    {
        let all: Vec<Address> = self.get_sources();
        let ghost keys = self.sources.keys();
        let ghost silent = |s: Address|
            silent_at(
                activity_of(old(self).book.activity@, s),
                env.ledger,
                old(self).settings.max_inactive_ledgers,
            );
        let ghost min = self.config.min_sources_required as int;
        self.sources.know_keys();
        let mut removed: u32 = 0;
        let mut i: usize = 0;
        assert(self.sources.keys() =~= kept_sources(keys, silent, min, 0) + keys.skip(0));
        while i < all.len()
            invariant
                i <= keys.len(),
                all@ == keys,
                keys == old(self).sources.keys(),
                keys.no_duplicates(),
                min == self.config.min_sources_required,
                silent == (|s: Address|
                    silent_at(
                        activity_of(old(self).book.activity@, s),
                        env.ledger,
                        old(self).settings.max_inactive_ledgers,
                    )),
                self.sources.keys() == kept_sources(keys, silent, min, i as int) + keys.skip(i as int),
                removed == (if removed_count(keys, silent, min, i as int) > u32::MAX {
                    u32::MAX as int
                } else {
                    removed_count(keys, silent, min, i as int)
                }),
                forall|k: Address| #[trigger]
                    self.sources@.contains_key(k) ==> old(self).sources@.contains_key(k)
                        && self.sources@[k] == old(self).sources@[k],
                forall|s: Address| #[trigger]
                    self.auto_removed@.contains_key(s) <==> old(self).auto_removed@.contains_key(s) || (old(
                        self,
                    ).sources@.contains_key(s) && !self.sources@.contains_key(s)),
                *self == (PriceOracleContract {
                    sources: self.sources,
                    auto_removed: self.auto_removed,
                    ..*old(self)
                }),
            decreases keys.len() - i,
        {
            let source: Address = all[i];
            let a: Activity = self.book.activity_of(&source);
            let quiet: bool = env.ledger > a.last_active_ledger && env.ledger - a.last_active_ledger
                > self.settings.max_inactive_ledgers;
            self.sources.know_keys();
            let ghost here = self.sources.keys();
            let ghost kept = kept_sources(keys, silent, min, i as int);
            proof {
                lemma_kept(keys, silent, min, i as int);
                assert(here[kept.len() as int] == source);
                assert(here.len() == keys.len() - removed_count(keys, silent, min, i as int));
            }
            if quiet && self.sources.len() > self.config.min_sources_required as usize {
                proof {
                    lemma_remove_value(here, kept.len() as int);
                }
                let _ = self.sources.remove(&source);
                self.auto_removed.insert(source, env.ledger);
                if removed < u32::MAX {
                    removed += 1;
                }
                assert(self.sources.keys() =~= kept + keys.skip(i + 1));
            } else {
                assert(self.sources.keys() =~= kept.push(source) + keys.skip(i + 1));
            }
            i += 1;
        }
        assert(self.sources.keys() =~= kept_sources(keys, silent, min, keys.len() as int));
        self.sources.know_keys();
        assert(self.sources@ =~= old(self).sources@.restrict(self.sources.keys().to_set()));
        removed
    }

    /// Opens a round: until it is closed, only submissions of the ledgers from `start_ledger` to
    /// `end_ledger` count.
    pub fn start_aggregation_round(&mut self, env: &Env, start_ledger: u32, end_ledger: u32) -> (r: Result<
        (),
        ErrorCode,
    >)
        ensures
            r == reply(
                refused_if(
                    old(self).admin_refusal(*env),
                    end_ledger <= start_ledger,
                    ErrorCode::InvalidConfiguration,
                ),
            ),
            *final(self) == (if r is Ok {
                PriceOracleContract {
                    round: Some(AggregationRound { start_ledger, end_ledger }),
                    ..*old(self)
                }
            } else {
                *old(self)
            }),
    {
        if let Some(e) = self.check_admin(env) {
            return Err(e);
        }
        if end_ledger <= start_ledger {
            return Err(ErrorCode::InvalidConfiguration);
        }
        self.round = Some(AggregationRound { start_ledger, end_ledger });
        Ok(())
    }

    /// The open round, if there is one.
    pub fn get_current_aggregation_round(&self) -> (r: Option<AggregationRound>)
        ensures
            r == self.round,
    {
        self.round
    }

    /// Closes the round: submissions of any ledger count again.
    pub fn clear_aggregation_round(&mut self, env: &Env) -> (r: Result<(), ErrorCode>)
        ensures
            r == reply(old(self).admin_refusal(*env)),
            *final(self) == (if r is Ok {
                PriceOracleContract { round: None, ..*old(self) }
            } else {
                *old(self)
            }),
    {
        if let Some(e) = self.check_admin(env) {
            return Err(e);
        }
        self.round = None;
        Ok(())
    }
}

/// The time that a source has for its next heartbeat once it missed `missed` of them.
pub open spec fn adaptive_interval(base: u64, missed: u32, window: u32) -> u64 {
    let grown = if window == 0 {
        3 * base
    } else {
        base * (window + missed) / (window as int)
    };
    let capped = if grown > 3 * base {
        3 * base
    } else {
        grown
    };
    if capped > u64::MAX {
        u64::MAX
    } else {
        capped as u64
    }
}

fn adaptive(base: u64, missed: u32, window: u32) -> (r: u64)
    ensures
        r == adaptive_interval(base, missed, window),
{
    let most: u128 = 3 * (base as u128);
    let grown: u128 = if window == 0 {
        most
    } else {
        proof {
            assert(base * (window + missed) <= u64::MAX * (2 * u32::MAX)) by (nonlinear_arith)
                requires
                    base <= u64::MAX,
                    window + missed <= 2 * u32::MAX,
            ;
        }
        (base as u128) * (window as u128 + missed as u128) / (window as u128)
    };
    let capped: u128 = if grown > most {
        most
    } else {
        grown
    };
    if capped > u64::MAX as u128 {
        u64::MAX
    } else {
        capped as u64
    }
}

} // verus!
