//! Earlier versions of the core configuration.

use crate::contract::{Config, PriceOracleContract};
use crate::env::Env;
use crate::error::ErrorCode;
use vstd::prelude::*;

verus! {

/// How many snapshots are kept.
pub const MAX_SNAPSHOTS: u32 = 100;

/// The core configuration as it stood before a change.
#[derive(Clone, Copy, Debug, PartialEq, Eq, Structural)]
pub struct ConfigSnapshot {
    /// Counts the snapshots from one on.
    pub version: u32,
    /// The ledger of the change.
    pub ledger: u32,
    pub config: Config,
}

/// The snapshots that are kept, oldest first.
#[derive(Debug)]
pub struct ConfigHistory {
    pub snapshots: Vec<ConfigSnapshot>,
}

impl View for ConfigHistory {
    type V = Seq<ConfigSnapshot>;

    open spec fn view(&self) -> Seq<ConfigSnapshot> {
        self.snapshots@
    }
}

/// The version of the snapshot that comes next. It stays at the last one that there is.
pub open spec fn next_version(s: Seq<ConfigSnapshot>) -> u32 {
    if s.len() == 0 {
        1
    } else if s.last().version < u32::MAX {
        (s.last().version + 1) as u32
    } else {
        u32::MAX
    }
}

/// The snapshots after `config` was added in `ledger`, the oldest dropped where there are too many.
pub open spec fn with_snapshot(s: Seq<ConfigSnapshot>, config: Config, ledger: u32) -> Seq<ConfigSnapshot> {
    let t = s.push(ConfigSnapshot { version: next_version(s), ledger, config });
    if t.len() > MAX_SNAPSHOTS {
        t.drop_first()
    } else {
        t
    }
}

/// Whether `s` holds a snapshot of `version`.
pub open spec fn has_version(s: Seq<ConfigSnapshot>, version: u32) -> bool {
    exists|i: int| 0 <= i < s.len() && (#[trigger] s[i]).version == version
}

/// Whether the versions of the snapshots strictly increase.
pub open spec fn versions_increase(s: Seq<ConfigSnapshot>) -> bool {
    forall|i: int, j: int| 0 <= i < j < s.len() ==> (#[trigger] s[i]).version < (#[trigger] s[j]).version
}

/// The newest `count` snapshots, newest first.
pub open spec fn newest_first(s: Seq<ConfigSnapshot>, count: u32) -> Seq<ConfigSnapshot> {
    let n = if count < s.len() {
        count as nat
    } else {
        s.len()
    };
    Seq::new(n, |i: int| s[s.len() - 1 - i])
}

impl ConfigHistory {
    /// No snapshots.
    pub fn new() -> (h: Self)
        ensures
            h@ == Seq::<ConfigSnapshot>::empty(),
    {
        ConfigHistory { snapshots: Vec::new() }
    }

    /// Adds a snapshot of `config`.
    pub fn record(&mut self, config: Config, ledger: u32)
        ensures
            final(self)@ == with_snapshot(old(self)@, config, ledger),
    {
        let n: usize = self.snapshots.len();
        let version: u32 = if n == 0 {
            1
        } else if self.snapshots[n - 1].version < u32::MAX {
            self.snapshots[n - 1].version + 1
        } else {
            u32::MAX
        };
        self.snapshots.push(ConfigSnapshot { version, ledger, config });
        if self.snapshots.len() > MAX_SNAPSHOTS as usize {
            let _ = self.snapshots.remove(0);
            assert(self@ =~= with_snapshot(old(self)@, config, ledger));
        }
    }

    /// The last snapshot of `version`.
    pub fn find(&self, version: u32) -> (r: Option<ConfigSnapshot>)
        ensures
            r is Some <==> has_version(self@, version),
            r matches Some(s) ==> s.version == version && self@.contains(s),
    {
        let mut k: usize = self.snapshots.len();
        while k > 0
            invariant
                k <= self@.len(),
                forall|i: int| k <= i < self@.len() ==> (#[trigger] self@[i]).version != version,
            decreases k,
        {
            let s: ConfigSnapshot = self.snapshots[k - 1];
            if s.version == version {
                assert(self@[k - 1] == s);
                return Some(s);
            }
            k -= 1;
        }
        None
    }
}

impl PriceOracleContract {
    /// Whether `post` is `pre` with the core configuration `config`, the one before kept as a
    /// snapshot.
    pub open spec fn configured(pre: Self, post: Self, env: Env, config: Config) -> bool {
        &&& post == (PriceOracleContract { config, config_history: post.config_history, ..pre })
        &&& post.config_history@ == with_snapshot(pre.config_history@, pre.config, env.ledger)
    }

    /// Puts `config` into force and keeps a snapshot of the one before.
    pub(crate) fn configure(&mut self, env: &Env, config: Config)
        ensures
            PriceOracleContract::configured(*old(self), *final(self), *env, config),
    {
        self.config_history.record(self.config, env.ledger);
        self.config = config;
    }

    /// The newest `count` snapshots of the core configuration, newest first.
    pub fn get_config_history(&self, count: u32) -> (r: Vec<ConfigSnapshot>)
        ensures
            r@ == newest_first(self.config_history@, count),
    {
        let snapshots = &self.config_history.snapshots;
        let mut r: Vec<ConfigSnapshot> = Vec::new();
        let mut k: usize = snapshots.len();
        while k > 0 && r.len() < count as usize
            invariant
                snapshots@ == self.config_history@,
                k + r@.len() == snapshots@.len(),
                r@.len() <= count,
                forall|i: int| 0 <= i < r@.len() ==> r@[i] == snapshots@[snapshots@.len() - 1 - i],
            decreases k,
        {
            r.push(snapshots[k - 1]);
            k -= 1;
        }
        assert(r@ =~= newest_first(self.config_history@, count));
        r
    }

    /// Puts the configuration of an earlier snapshot into force again. The one in force before
    /// is kept as a snapshot of its own.
    pub fn rollback_config(&mut self, env: &Env, version: u32) -> (r: Result<(), ErrorCode>)
        ensures
            r == (match old(self).guarded_admin_refusal(*env) {
                Some(e) => Err(e),
                None => if has_version(old(self).config_history@, version) {
                    Ok(())
                } else {
                    Err(ErrorCode::ConfigVersionNotFound)
                },
            }),
            r is Ok ==> exists|s: ConfigSnapshot|
                old(self).config_history@.contains(s) && s.version == version
                    && #[trigger] PriceOracleContract::configured(
                    *old(self),
                    *final(self),
                    *env,
                    s.config,
                ),
            r is Err ==> *final(self) == *old(self),
    {
        if let Some(e) = self.check_guarded_admin(env) {
            return Err(e);
        }
        match self.config_history.find(version) {
            Some(s) => {
                self.configure(env, s.config);
                Ok(())
            },
            None => Err(ErrorCode::ConfigVersionNotFound),
        }
    }
}

proof fn lemma_versions_increase(s: Seq<ConfigSnapshot>, config: Config, ledger: u32)
    requires
        versions_increase(s),
        s.len() > 0 ==> s.last().version < u32::MAX,
    ensures
        versions_increase(with_snapshot(s, config, ledger)),
{
    let t = s.push(ConfigSnapshot { version: next_version(s), ledger, config });
    assert forall|i: int, j: int| 0 <= i < j < t.len() implies (#[trigger] t[i]).version < (
    #[trigger] t[j]).version by {
        if j == s.len() && i < s.len() - 1 {
            assert(s[i].version < s[s.len() - 1].version);
        }
    }
}

/// Changing the configuration and rolling back to the snapshot that the change left behind
/// brings the configuration back, and both snapshots stay in the history, in order.
pub proof fn rollback_undoes_a_change(
    history: Seq<ConfigSnapshot>,
    before: Config,
    after: Config,
    ledger1: u32,
    ledger2: u32,
)
    requires
        versions_increase(history),
        history.len() > 0 ==> history.last().version < u32::MAX - 1,
    ensures
        ({
            let h1 = with_snapshot(history, before, ledger1);
            let version = next_version(history);
            &&& has_version(h1, version)
            &&& forall|s: ConfigSnapshot| h1.contains(s) && s.version == version ==> s.config == before
            &&& versions_increase(with_snapshot(h1, after, ledger2))
            &&& with_snapshot(h1, after, ledger2).last().config == after
            &&& with_snapshot(h1, after, ledger2).len() <= MAX_SNAPSHOTS || history.len() > MAX_SNAPSHOTS
        }),
{
    let h1 = with_snapshot(history, before, ledger1);
    let version = next_version(history);
    lemma_versions_increase(history, before, ledger1);
    let last = h1.len() - 1;
    assert(h1[last].version == version && h1[last].config == before);
    assert forall|s: ConfigSnapshot| h1.contains(s) && s.version == version implies s.config
        == before by {
        let i = choose|i: int| 0 <= i < h1.len() && h1[i] == s;
        if i < last {
            assert(h1[i].version < h1[last].version);
        }
    }
    lemma_versions_increase(h1, after, ledger2);
}

} // verus!
