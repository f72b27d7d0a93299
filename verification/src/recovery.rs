//! How guardians replace an administrator who has lost their key.

use crate::contract::PriceOracleContract;
use crate::env::Env;
use crate::error::{refused_if, reply, ErrorCode};
use crate::multisig::quorum_since;
use crate::table::Key;
use crate::timelock::{elapsed, has_elapsed};
use crate::types::{contains_address, Address};
use vstd::prelude::*;

verus! {

/// A replacement of the administrator that waits.
#[derive(Debug)]
pub struct GuardianRecovery {
    pub new_admin: Address,
    /// Which guardians approve it.
    pub approvals: Vec<Address>,
    /// The ledger in which enough guardians had approved.
    pub threshold_ledger: Option<u32>,
}

/// The guardians and what they have begun.
#[derive(Debug)]
pub struct Recovery {
    pub guardians: Vec<Address>,
    /// How many guardians must approve.
    pub threshold: u32,
    /// How many ledgers the administrator has to object.
    pub delay: u32,
    pub pending: Option<GuardianRecovery>,
}

/// Since when enough guardians approve, with `count` approvals in `ledger`.
pub open spec fn threshold_since(before: Option<u32>, count: nat, threshold: u32, ledger: u32) -> Option<u32> {
    if before is Some {
        before
    } else if count >= threshold {
        Some(ledger)
    } else {
        None
    }
}

impl Recovery {
    /// Whether no approval counts twice, none comes from a stranger, and the administrator's time
    /// to object runs only where enough guardians approve.
    pub open spec fn sound(self) -> bool {
        self.pending matches Some(p) ==> {
            &&& p.approvals@.no_duplicates()
            &&& forall|i: int|
                0 <= i < p.approvals@.len() ==> self.guardians@.contains(#[trigger] p.approvals@[i])
            &&& p.threshold_ledger is Some ==> p.approvals@.len() >= self.threshold
        }
    }
}

/// The approvals that come from `guardians`.
pub open spec fn approvals_of(approvals: Seq<Address>, guardians: Seq<Address>) -> Seq<Address> {
    approvals.filter(|a: Address| guardians.contains(a))
}

/// Whether `post` is what a change to `guardians` and `threshold` in `ledger` leaves of the recovery
/// `pre`: the approvals of those who are still guardians. A recovery that nobody approves any more
/// is dropped, and the administrator's time to object runs only where enough approve.
pub open spec fn recounted(
    pre: Option<GuardianRecovery>,
    post: Option<GuardianRecovery>,
    guardians: Seq<Address>,
    threshold: u32,
    ledger: u32,
) -> bool {
    match pre {
        None => post is None,
        Some(p) => {
            let left = approvals_of(p.approvals@, guardians);
            if left.len() == 0 {
                post is None
            } else {
                &&& post matches Some(q)
                &&& q.new_admin == p.new_admin
                &&& q.approvals@ == left
                &&& q.threshold_ledger == quorum_since(
                    p.threshold_ledger,
                    left.len(),
                    threshold,
                    ledger,
                )
            }
        },
    }
}

proof fn lemma_approvals_of(approvals: Seq<Address>, guardians: Seq<Address>)
    ensures
        forall|i: int|
            0 <= i < approvals_of(approvals, guardians).len() ==> guardians.contains(
                #[trigger] approvals_of(approvals, guardians)[i],
            ) && approvals.contains(approvals_of(approvals, guardians)[i]),
        approvals.no_duplicates() ==> approvals_of(approvals, guardians).no_duplicates(),
    decreases approvals.len(),
{
    reveal(Seq::filter);
    if approvals.len() > 0 {
        let front = approvals.drop_last();
        let kept = approvals_of(front, guardians);
        let all = approvals_of(approvals, guardians);
        lemma_approvals_of(front, guardians);
        assert forall|i: int| 0 <= i < all.len() implies guardians.contains(#[trigger] all[i])
            && approvals.contains(all[i]) by {
            if i < kept.len() {
                assert(all[i] == kept[i]);
                let j = choose|j: int| 0 <= j < front.len() && front[j] == kept[i];
                assert(approvals[j] == all[i]);
            } else {
                assert(approvals[approvals.len() - 1] == all[i]);
            }
        }
        if approvals.no_duplicates() {
            assert(front.no_duplicates());
            assert forall|i: int, j: int| 0 <= i < all.len() && 0 <= j < all.len() && i != j implies all[i]
                != all[j] by {
                if i < kept.len() {
                    assert(all[i] == kept[i]);
                    let k = choose|k: int| 0 <= k < front.len() && front[k] == kept[i];
                    assert(approvals[k] == all[i]);
                }
                if j < kept.len() {
                    assert(all[j] == kept[j]);
                    let k = choose|k: int| 0 <= k < front.len() && front[k] == kept[j];
                    assert(approvals[k] == all[j]);
                }
            }
        }
    }
}

/// The approvals that come from `guardians`.
fn keep_approvals(approvals: &Vec<Address>, guardians: &Vec<Address>) -> (r: Vec<Address>)
    ensures
        r@ == approvals_of(approvals@, guardians@),
{
    let mut r: Vec<Address> = Vec::new();
    let mut i: usize = 0;
    let ghost pred = |a: Address| guardians@.contains(a);
    proof {
        reveal(Seq::filter);
        assert(approvals@.take(0).filter(pred) =~= Seq::<Address>::empty());
    }
    while i < approvals.len()
        invariant
            i <= approvals@.len(),
            pred == (|a: Address| guardians@.contains(a)),
            r@ == approvals@.take(i as int).filter(pred),
        decreases approvals@.len() - i,
    {
        proof {
            reveal(Seq::filter);
            assert(approvals@.take(i + 1).drop_last() =~= approvals@.take(i as int));
            assert(approvals@.take(i + 1).last() == approvals@[i as int]);
        }
        if contains_address(guardians, &approvals[i]) {
            r.push(approvals[i]);
        }
        i += 1;
    }
    assert(approvals@.take(approvals@.len() as int) =~= approvals@);
    r
}

impl PriceOracleContract {
    /// Sets who the guardians are and how many of them must approve. Of a recovery that was begun
    /// only the approvals of those who are guardians from now on count.
    pub fn recovery_set_guardians(&mut self, env: &Env, guardians: Vec<Address>, threshold: u32) -> (r: Result<
        (),
        ErrorCode,
    >)
        ensures
            r == reply(
                refused_if(
                    old(self).admin_refusal(*env),
                    threshold == 0 || threshold > guardians@.len(),
                    ErrorCode::InvalidGuardianConfig,
                ),
            ),
            *final(self) == (if r is Ok {
                PriceOracleContract {
                    recovery: Recovery {
                        guardians,
                        threshold,
                        pending: final(self).recovery.pending,
                        ..old(self).recovery
                    },
                    ..*old(self)
                }
            } else {
                *old(self)
            }),
            r is Ok ==> recounted(
                old(self).recovery.pending,
                final(self).recovery.pending,
                guardians@,
                threshold,
                env.ledger,
            ),
            old(self).recovery.sound() ==> final(self).recovery.sound(),
    {
        if let Some(e) = self.check_admin(env) {
            return Err(e);
        }
        if threshold == 0 || threshold as usize > guardians.len() {
            return Err(ErrorCode::InvalidGuardianConfig);
        }
        let mut taken: Option<GuardianRecovery> = None;
        std::mem::swap(&mut taken, &mut self.recovery.pending);
        if let Some(p) = taken {
            proof {
                lemma_approvals_of(p.approvals@, guardians@);
            }
            let approvals: Vec<Address> = keep_approvals(&p.approvals, &guardians);
            if approvals.len() > 0 {
                let threshold_ledger: Option<u32> = if approvals.len() < threshold as usize {
                    None
                } else if p.threshold_ledger.is_some() {
                    p.threshold_ledger
                } else {
                    Some(env.ledger)
                };
                self.recovery.pending = Some(
                    GuardianRecovery { new_admin: p.new_admin, approvals, threshold_ledger },
                );
            }
        }
        self.recovery.guardians = guardians;
        self.recovery.threshold = threshold;
        Ok(())
    }

    /// The guardians.
    pub fn recovery_get_guardians(&self) -> (r: &Vec<Address>)
        ensures
            r == self.recovery.guardians,
    {
        &self.recovery.guardians
    }

    /// How many guardians must approve.
    pub fn recovery_get_threshold(&self) -> (r: u32)
        ensures
            r == self.recovery.threshold,
    {
        self.recovery.threshold
    }

    /// Why an approval is refused, if it is.
    pub open spec fn recovery_refusal(self, env: Env, guardian: Address, new_admin: Address) -> Option<
        ErrorCode,
    > {
        if self.entered {
            Some(ErrorCode::Reentrancy)
        } else if !env.authorizes(guardian) {
            Some(ErrorCode::NotAuthorized)
        } else if !self.recovery.guardians@.contains(guardian) {
            Some(ErrorCode::NotGuardian)
        } else {
            match self.recovery.pending {
                Some(p) => if p.new_admin != new_admin {
                    Some(ErrorCode::RecoveryAlreadyPending)
                } else if p.approvals@.contains(guardian) {
                    Some(ErrorCode::RecoveryAlreadyApproved)
                } else {
                    None
                },
                None => None,
            }
        }
    }

    /// Approves that `new_admin` becomes the administrator. The first approval begins the
    /// recovery; from the one on that makes them enough, the administrator's time to object runs.
    pub fn recovery_approve(&mut self, env: &Env, guardian: Address, new_admin: Address) -> (r: Result<
        (),
        ErrorCode,
    >)
        ensures
            r == reply(old(self).recovery_refusal(*env, guardian, new_admin)),
            r is Err ==> *final(self) == *old(self),
            r is Ok ==> {
                let approvals = match old(self).recovery.pending {
                    Some(p) => p.approvals@,
                    None => Seq::empty(),
                };
                let since = match old(self).recovery.pending {
                    Some(p) => p.threshold_ledger,
                    None => None,
                };
                &&& final(self).recovery.pending matches Some(q)
                &&& q.new_admin == new_admin
                &&& q.approvals@ == approvals.push(guardian)
                &&& q.threshold_ledger == threshold_since(
                    since,
                    approvals.len() + 1,
                    old(self).recovery.threshold,
                    env.ledger,
                )
            },
            old(self).recovery.sound() ==> final(self).recovery.sound(),
            *final(self) == (PriceOracleContract {
                recovery: Recovery { pending: final(self).recovery.pending, ..old(self).recovery },
                ..*old(self)
            }),
    {
        if self.entered {
            return Err(ErrorCode::Reentrancy);
        }
        if !env.is_authorized_by(&guardian) {
            return Err(ErrorCode::NotAuthorized);
        }
        if !contains_address(&self.recovery.guardians, &guardian) {
            return Err(ErrorCode::NotGuardian);
        }
        if let Some(p) = &self.recovery.pending {
            if !p.new_admin.same(&new_admin) {
                return Err(ErrorCode::RecoveryAlreadyPending);
            }
            if contains_address(&p.approvals, &guardian) {
                return Err(ErrorCode::RecoveryAlreadyApproved);
            }
        }
        let mut taken: Option<GuardianRecovery> = None;
        std::mem::swap(&mut taken, &mut self.recovery.pending);
        let (mut approvals, since) = match taken {
            Some(p) => (p.approvals, p.threshold_ledger),
            None => (Vec::new(), None),
        };
        approvals.push(guardian);
        let threshold_ledger: Option<u32> = if since.is_some() {
            since
        } else if approvals.len() >= self.recovery.threshold as usize {
            Some(env.ledger)
        } else {
            None
        };
        self.recovery.pending = Some(GuardianRecovery { new_admin, approvals, threshold_ledger });
        Ok(())
    }

    /// Stops the recovery that was begun.
    pub fn recovery_cancel(&mut self, env: &Env) -> (r: Result<(), ErrorCode>)
        ensures
            r == reply(
                refused_if(
                    old(self).guarded_admin_refusal(*env),
                    old(self).recovery.pending is None,
                    ErrorCode::RecoveryNotPending,
                ),
            ),
            *final(self) == (if r is Ok {
                PriceOracleContract {
                    recovery: Recovery { pending: None, ..old(self).recovery },
                    ..*old(self)
                }
            } else {
                *old(self)
            }),
            old(self).recovery.sound() ==> final(self).recovery.sound(),
    {
        if let Some(e) = self.check_guarded_admin(env) {
            return Err(e);
        }
        if self.recovery.pending.is_none() {
            return Err(ErrorCode::RecoveryNotPending);
        }
        self.recovery.pending = None;
        Ok(())
    }

    /// Puts the new administrator into office once enough guardians have approved and the
    /// administrator has had their time to object. Anyone may ask for it.
    pub fn recovery_execute(&mut self, env: &Env) -> (r: Result<(), ErrorCode>)
        ensures
            r == (if old(self).entered {
                Err(ErrorCode::Reentrancy)
            } else {
                match old(self).recovery.pending {
                    None => Err(ErrorCode::RecoveryNotPending),
                    Some(p) => if p.threshold_ledger matches Some(since) && elapsed(
                        since,
                        env.ledger,
                        old(self).recovery.delay,
                    ) {
                        Ok(())
                    } else {
                        Err(ErrorCode::RecoveryDelayNotElapsed)
                    },
                }
            }),
            *final(self) == (if r is Ok {
                PriceOracleContract {
                    admin: Some(old(self).recovery.pending.unwrap().new_admin),
                    recovery: Recovery { pending: None, ..old(self).recovery },
                    ..*old(self)
                }
            } else {
                *old(self)
            }),
            old(self).recovery.sound() ==> final(self).recovery.sound(),
    {
        if self.entered {
            return Err(ErrorCode::Reentrancy);
        }
        let new_admin: Address = match &self.recovery.pending {
            None => {
                return Err(ErrorCode::RecoveryNotPending);
            },
            Some(p) => match p.threshold_ledger {
                None => {
                    return Err(ErrorCode::RecoveryDelayNotElapsed);
                },
                Some(since) => if has_elapsed(since, env.ledger, self.recovery.delay) {
                    p.new_admin
                } else {
                    return Err(ErrorCode::RecoveryDelayNotElapsed);
                },
            },
        };
        self.admin = Some(new_admin);
        self.recovery.pending = None;
        Ok(())
    }

    /// The recovery that was begun, if there is one.
    pub fn recovery_get_pending(&self) -> (r: Option<&GuardianRecovery>)
        ensures
            r == (match &self.recovery.pending {
                Some(p) => Some(p),
                None => None,
            }),
    {
        match &self.recovery.pending {
            Some(p) => Some(p),
            None => None,
        }
    }

    /// Sets how many ledgers the administrator has to object.
    pub fn recovery_set_delay(&mut self, env: &Env, delay_ledgers: u32) -> (r: Result<(), ErrorCode>)
        ensures
            r == reply(
                refused_if(
                    old(self).admin_refusal(*env),
                    delay_ledgers == 0,
                    ErrorCode::InvalidConfiguration,
                ),
            ),
            *final(self) == (if r is Ok {
                PriceOracleContract {
                    recovery: Recovery { delay: delay_ledgers, ..old(self).recovery },
                    ..*old(self)
                }
            } else {
                *old(self)
            }),
            old(self).recovery.sound() ==> final(self).recovery.sound(),
    {
        if let Some(e) = self.check_admin(env) {
            return Err(e);
        }
        if delay_ledgers == 0 {
            return Err(ErrorCode::InvalidConfiguration);
        }
        self.recovery.delay = delay_ledgers;
        Ok(())
    }

    /// How many ledgers the administrator has to object.
    pub fn recovery_get_delay(&self) -> (r: u32)
        ensures
            r == self.recovery.delay,
    {
        self.recovery.delay
    }
}

} // verus!
