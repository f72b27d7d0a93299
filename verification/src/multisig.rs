//! Operations that need the approval of several governors.

use crate::contract::PriceOracleContract;
use crate::env::Env;
use crate::error::{refused_if, reply, ErrorCode};
use crate::operations::{code_to_install, OperationType};
use crate::registry::Registry;
use crate::table::Key;
use crate::timelock::{elapsed, has_elapsed};
use crate::types::{contains_address, Address};
use vstd::prelude::*;

verus! {

/// An operation that waits for approvals.
#[derive(Debug)]
pub struct MultiSigOperation {
    pub op_type: OperationType,
    /// The bytes that say what to do it with.
    pub data: Vec<u8>,
    pub proposer: Address,
    /// Who approves the operation.
    pub approvals: Vec<Address>,
    /// The ledger in which enough governors had approved, as long as enough do.
    pub quorum_ledger: Option<u32>,
}

/// The governors and the operations that they decide on, first come first served.
#[derive(Debug)]
pub struct MultiSig {
    pub governors: Vec<Address>,
    /// How many governors must approve an operation.
    pub required: u32,
    pub queue: Registry<MultiSigOperation>,
}

/// Whether `post` is `pre` with other approvals.
pub open spec fn same_proposal(pre: MultiSigOperation, post: MultiSigOperation) -> bool {
    post == (MultiSigOperation {
        approvals: post.approvals,
        quorum_ledger: post.quorum_ledger,
        ..pre
    })
}

/// Since when enough governors approve, once there are `count` approvals in `ledger`.
pub open spec fn quorum_since(before: Option<u32>, count: nat, required: u32, ledger: u32) -> Option<u32> {
    if count < required {
        None
    } else if before is Some {
        before
    } else {
        Some(ledger)
    }
}

impl PriceOracleContract {
    /// Whether `a` authorizes the call as a governor.
    pub open spec fn governor_authorizes(self, env: Env, a: Address) -> bool {
        env.authorizes(a) && self.multisig.governors@.contains(a)
    }

    /// Whether `a` authorizes the call as the administrator or as a governor.
    pub open spec fn keeper_authorizes(self, env: Env, a: Address) -> bool {
        env.authorizes(a) && (self.admin == Some(a) || self.multisig.governors@.contains(a))
    }

    fn is_governor(&self, env: &Env, a: &Address) -> (r: bool)
        ensures
            r == self.governor_authorizes(*env, *a),
    {
        env.is_authorized_by(a) && contains_address(&self.multisig.governors, a)
    }

    fn is_keeper(&self, env: &Env, a: &Address) -> (r: bool)
        ensures
            r == self.keeper_authorizes(*env, *a),
    {
        if !env.is_authorized_by(a) {
            return false;
        }
        if let Some(admin) = &self.admin {
            if admin.same(a) {
                return true;
            }
        }
        contains_address(&self.multisig.governors, a)
    }

    /// Sets who the governors are and how many of them must approve an operation.
    pub fn ms_set_governors(&mut self, env: &Env, governors: Vec<Address>, required: u32) -> (r: Result<
        (),
        ErrorCode,
    >)
        ensures
            r == reply(
                refused_if(
                    old(self).admin_refusal(*env),
                    required == 0 || required > governors@.len(),
                    ErrorCode::InvalidConfiguration,
                ),
            ),
            *final(self) == (if r is Ok {
                PriceOracleContract {
                    multisig: MultiSig { governors, required, ..old(self).multisig },
                    ..*old(self)
                }
            } else {
                *old(self)
            }),
    {
        if let Some(e) = self.check_admin(env) {
            return Err(e);
        }
        if required == 0 || required as usize > governors.len() {
            return Err(ErrorCode::InvalidConfiguration);
        }
        self.multisig.governors = governors;
        self.multisig.required = required;
        Ok(())
    }

    /// The governors.
    pub fn ms_get_governors(&self) -> (r: &Vec<Address>)
        ensures
            r == self.multisig.governors,
    {
        &self.multisig.governors
    }

    /// How many governors must approve an operation.
    pub fn ms_get_required_approvals(&self) -> (r: u32)
        ensures
            r == self.multisig.required,
    {
        self.multisig.required
    }

    /// Why a proposal of `proposer` is refused, if it is. All numbers may be used up.
    pub open spec fn ms_proposal_refusal(self, env: Env, proposer: Address, op_type: u32) -> Option<
        ErrorCode,
    > {
        if self.entered {
            Some(ErrorCode::Reentrancy)
        } else if op_type > 7 {
            Some(ErrorCode::InvalidOperationType)
        } else if !self.governor_authorizes(env, proposer) {
            Some(ErrorCode::NotAuthorized)
        } else if self.multisig.queue.issued() == u32::MAX {
            Some(ErrorCode::ArithmeticOverflow)
        } else {
            None
        }
    }

    /// Proposes an operation, which waits at the end of the queue for approvals, and gives back
    /// its number.
    pub fn ms_propose_operation(&mut self, env: &Env, proposer: Address, op_type: u32, data: Vec<u8>) -> (r:
        Result<u32, ErrorCode>)
        ensures
            match r {
                Err(e) => Some(e) == old(self).ms_proposal_refusal(*env, proposer, op_type) && *final(self)
                    == *old(self),
                Ok(id) => {
                    let queue = final(self).multisig.queue;
                    &&& old(self).ms_proposal_refusal(*env, proposer, op_type) is None
                    &&& id == old(self).multisig.queue.issued() + 1
                    &&& !old(self).multisig.queue@.contains_key(id)
                    &&& queue.issued() == id
                    &&& queue.ids() == old(self).multisig.queue.ids().push(id)
                    &&& queue@.contains_key(id)
                    &&& queue@.remove(id) == old(self).multisig.queue@
                    &&& queue@[id].op_type.number() == op_type
                    &&& queue@[id].data == data
                    &&& queue@[id].proposer == proposer
                    &&& queue@[id].approvals@ == Seq::<Address>::empty()
                    &&& queue@[id].quorum_ledger is None
                },
            },
            PriceOracleContract::only_queue_differs(*old(self), *final(self)),
    {
        if self.entered {
            return Err(ErrorCode::Reentrancy);
        }
        let op: OperationType = match OperationType::from_number(op_type) {
            Some(op) => op,
            None => {
                return Err(ErrorCode::InvalidOperationType);
            },
        };
        if !self.is_governor(env, &proposer) {
            return Err(ErrorCode::NotAuthorized);
        }
        let entry = MultiSigOperation {
            op_type: op,
            data,
            proposer,
            approvals: Vec::new(),
            quorum_ledger: None,
        };
        match self.multisig.queue.issue(entry) {
            Some(id) => {
                assert(self.multisig.queue@.remove(id) =~= old(self).multisig.queue@);
                Ok(id)
            },
            None => Err(ErrorCode::ArithmeticOverflow),
        }
    }

    /// Whether `post` differs from `pre` only in the queue.
    pub open spec fn only_queue_differs(pre: Self, post: Self) -> bool {
        post == (PriceOracleContract {
            multisig: MultiSig { queue: post.multisig.queue, ..pre.multisig },
            ..pre
        })
    }

    /// Approves an operation. From the approval on that makes them enough, its time runs.
    pub fn ms_approve_operation(&mut self, env: &Env, governor: Address, op_id: u32) -> (r: Result<
        (),
        ErrorCode,
    >)
        ensures
            r == (if old(self).entered {
                Err(ErrorCode::Reentrancy)
            } else if !old(self).governor_authorizes(*env, governor) {
                Err(ErrorCode::NotAuthorized)
            } else if !old(self).multisig.queue@.contains_key(op_id) {
                Err(ErrorCode::OperationNotFound)
            } else if old(self).multisig.queue@[op_id].approvals@.contains(governor) {
                Err(ErrorCode::AlreadyApproved)
            } else {
                Ok(())
            }),
            r is Err ==> *final(self) == *old(self),
            r is Ok ==> {
                let before = old(self).multisig.queue@[op_id];
                let after = final(self).multisig.queue@[op_id];
                &&& final(self).multisig.queue@ == old(self).multisig.queue@.insert(op_id, after)
                &&& final(self).multisig.queue.ids() == old(self).multisig.queue.ids()
                &&& final(self).multisig.queue.issued() == old(self).multisig.queue.issued()
                &&& same_proposal(before, after)
                &&& after.approvals@ == before.approvals@.push(governor)
                &&& after.quorum_ledger == quorum_since(
                    before.quorum_ledger,
                    after.approvals@.len(),
                    old(self).multisig.required,
                    env.ledger,
                )
                &&& before.approvals@.no_duplicates() ==> after.approvals@.no_duplicates()
            },
            PriceOracleContract::only_queue_differs(*old(self), *final(self)),
    {
        if self.entered {
            return Err(ErrorCode::Reentrancy);
        }
        if !self.is_governor(env, &governor) {
            return Err(ErrorCode::NotAuthorized);
        }
        match self.multisig.queue.get(op_id) {
            None => {
                return Err(ErrorCode::OperationNotFound);
            },
            Some(op) => if contains_address(&op.approvals, &governor) {
                return Err(ErrorCode::AlreadyApproved);
            },
        }
        let required: u32 = self.multisig.required;
        if let Some(op) = self.take_queued(op_id) {
            let ghost taken = self.multisig.queue@;
            let mut approvals: Vec<Address> = op.approvals;
            approvals.push(governor);
            let quorum_ledger: Option<u32> = if approvals.len() < required as usize {
                None
            } else if op.quorum_ledger.is_some() {
                op.quorum_ledger
            } else {
                Some(env.ledger)
            };
            self.multisig.queue.replace(
                op_id,
                MultiSigOperation {
                    op_type: op.op_type,
                    data: op.data,
                    proposer: op.proposer,
                    approvals,
                    quorum_ledger,
                },
            );
            proof {
                let after = self.multisig.queue@[op_id];
                let was = old(self).multisig.queue@;
                assert(self.multisig.queue@ =~= taken.remove(op_id).insert(op_id, after));
                assert(was.insert(op_id, after) =~= was.remove(op_id).insert(op_id, after));
            }
        }
        Ok(())
    }

    /// Takes a queued operation out for a change, and leaves an empty one in its place.
    fn take_queued(&mut self, op_id: u32) -> (r: Option<MultiSigOperation>)
        ensures
            r == (if old(self).multisig.queue@.contains_key(op_id) {
                Some(old(self).multisig.queue@[op_id])
            } else {
                None
            }),
            final(self).multisig.queue@.remove(op_id) == old(self).multisig.queue@.remove(op_id),
            final(self).multisig.queue@.contains_key(op_id) == old(self).multisig.queue@.contains_key(
                op_id,
            ),
            final(self).multisig.queue.ids() == old(self).multisig.queue.ids(),
            final(self).multisig.queue.issued() == old(self).multisig.queue.issued(),
            PriceOracleContract::only_queue_differs(*old(self), *final(self)),
    {
        let proposer: Address = match self.multisig.queue.get(op_id) {
            Some(op) => op.proposer,
            None => {
                return None;
            },
        };
        let r = self.multisig.queue.exchange(
            op_id,
            MultiSigOperation {
                op_type: OperationType::Upgrade,
                data: Vec::new(),
                proposer,
                approvals: Vec::new(),
                quorum_ledger: None,
            },
        );
        assert(self.multisig.queue@.remove(op_id) =~= old(self).multisig.queue@.remove(op_id));
        Some(r)
    }

    /// Takes an approval back. Once too few are left, the operation's time does not run.
    pub fn ms_retract_approval(&mut self, env: &Env, governor: Address, op_id: u32) -> (r: Result<
        (),
        ErrorCode,
    >)
        ensures
            r == (if old(self).entered {
                Err(ErrorCode::Reentrancy)
            } else if !old(self).governor_authorizes(*env, governor) {
                Err(ErrorCode::NotAuthorized)
            } else if !old(self).multisig.queue@.contains_key(op_id) {
                Err(ErrorCode::OperationNotFound)
            } else if !old(self).multisig.queue@[op_id].approvals@.contains(governor) {
                Err(ErrorCode::ApprovalNotFound)
            } else {
                Ok(())
            }),
            r is Err ==> *final(self) == *old(self),
            r is Ok ==> {
                let before = old(self).multisig.queue@[op_id];
                let after = final(self).multisig.queue@[op_id];
                &&& final(self).multisig.queue@ == old(self).multisig.queue@.insert(op_id, after)
                &&& final(self).multisig.queue.ids() == old(self).multisig.queue.ids()
                &&& final(self).multisig.queue.issued() == old(self).multisig.queue.issued()
                &&& same_proposal(before, after)
                &&& after.approvals@ == before.approvals@.remove_value(governor)
                &&& after.quorum_ledger == quorum_since(
                    before.quorum_ledger,
                    after.approvals@.len(),
                    old(self).multisig.required,
                    env.ledger,
                )
            },
            PriceOracleContract::only_queue_differs(*old(self), *final(self)),
    {
        if self.entered {
            return Err(ErrorCode::Reentrancy);
        }
        if !self.is_governor(env, &governor) {
            return Err(ErrorCode::NotAuthorized);
        }
        match self.multisig.queue.get(op_id) {
            None => {
                return Err(ErrorCode::OperationNotFound);
            },
            Some(op) => if !contains_address(&op.approvals, &governor) {
                return Err(ErrorCode::ApprovalNotFound);
            },
        }
        let required: u32 = self.multisig.required;
        if let Some(op) = self.take_queued(op_id) {
            let ghost taken = self.multisig.queue@;
            let approvals: Vec<Address> = without_first(op.approvals, &governor);
            let quorum_ledger: Option<u32> = if approvals.len() < required as usize {
                None
            } else if op.quorum_ledger.is_some() {
                op.quorum_ledger
            } else {
                Some(env.ledger)
            };
            self.multisig.queue.replace(
                op_id,
                MultiSigOperation {
                    op_type: op.op_type,
                    data: op.data,
                    proposer: op.proposer,
                    approvals,
                    quorum_ledger,
                },
            );
            proof {
                let after = self.multisig.queue@[op_id];
                let was = old(self).multisig.queue@;
                assert(self.multisig.queue@ =~= taken.remove(op_id).insert(op_id, after));
                assert(was.insert(op_id, after) =~= was.remove(op_id).insert(op_id, after));
            }
        }
        Ok(())
    }

    /// The number of the operation at the head of the queue; `0` where the queue is empty.
    pub open spec fn queue_head(self) -> u32 {
        if self.multisig.queue.ids().len() == 0 {
            0
        } else {
            self.multisig.queue.ids()[0]
        }
    }

    /// The number of the operation at the head of the queue; `0` where the queue is empty.
    pub fn ms_get_queue_head(&self) -> (r: u32)
        ensures
            r == self.queue_head(),
    {
        match self.multisig.queue.first() {
            Some(id) => id,
            None => 0,
        }
    }

    /// Why an execution is refused, if it is.
    pub open spec fn ms_execution_refusal(self, env: Env, executor: Address, op_id: u32) -> Option<
        ErrorCode,
    > {
        if self.entered {
            Some(ErrorCode::Reentrancy)
        } else if !self.keeper_authorizes(env, executor) {
            Some(ErrorCode::NotAuthorized)
        } else if op_id != self.queue_head() || !self.multisig.queue@.contains_key(op_id) {
            Some(ErrorCode::MsNotQueueHead)
        } else {
            let op = self.multisig.queue@[op_id];
            if op.approvals@.len() < self.multisig.required {
                Some(ErrorCode::MsQuorumNotReached)
            } else {
                match op.quorum_ledger {
                    Some(since) => if elapsed(since, env.ledger, self.timelock.duration) {
                        None
                    } else {
                        Some(ErrorCode::TimelockNotReady)
                    },
                    None => Some(ErrorCode::TimelockNotReady),
                }
            }
        }
    }

    /// Executes the operation at the head of the queue once it is approved and has waited for
    /// its time. It leaves the queue, whether it succeeds or not; its own outcome holds the hash
    /// of the code to install, if any.
    pub fn ms_execute_operation(&mut self, env: &Env, executor: Address, op_id: u32) -> (r: Result<
        Result<Option<[u8; 32]>, ErrorCode>,
        ErrorCode,
    >)
        ensures
            match r {
                Err(e) => Some(e) == old(self).ms_execution_refusal(*env, executor, op_id) && *final(self)
                    == *old(self),
                Ok(outcome) => {
                    let op = old(self).multisig.queue@[op_id];
                    &&& old(self).ms_execution_refusal(*env, executor, op_id) is None
                    &&& final(self).multisig.queue@ == old(self).multisig.queue@.remove(op_id)
                    &&& final(self).multisig.queue.ids() == old(self).multisig.queue.ids().remove_value(
                        op_id,
                    )
                    &&& final(self).multisig.queue.issued() == old(self).multisig.queue.issued()
                    &&& outcome == (match old(self).operation_error(op.op_type, op.data@) {
                        Some(e) => Err(e),
                        None => Ok(code_to_install(op.op_type, op.data@)),
                    })
                    &&& final(self).core_state() == (if outcome is Ok {
                        old(self).core_state().after(env.ledger, op.op_type, op.data@)
                    } else {
                        old(self).core_state()
                    })
                    &&& PriceOracleContract::only_core_differs(
                        PriceOracleContract {
                            multisig: MultiSig {
                                queue: final(self).multisig.queue,
                                ..old(self).multisig
                            },
                            ..*old(self)
                        },
                        *final(self),
                    )
                },
            },
    {
        if self.entered {
            return Err(ErrorCode::Reentrancy);
        }
        if !self.is_keeper(env, &executor) {
            return Err(ErrorCode::NotAuthorized);
        }
        if op_id != self.ms_get_queue_head() {
            return Err(ErrorCode::MsNotQueueHead);
        }
        match self.multisig.queue.get(op_id) {
            None => {
                return Err(ErrorCode::MsNotQueueHead);
            },
            Some(op) => {
                if op.approvals.len() < self.multisig.required as usize {
                    return Err(ErrorCode::MsQuorumNotReached);
                }
                match op.quorum_ledger {
                    None => {
                        return Err(ErrorCode::TimelockNotReady);
                    },
                    Some(since) => if !has_elapsed(since, env.ledger, self.timelock.duration) {
                        return Err(ErrorCode::TimelockNotReady);
                    },
                }
            },
        }
        match self.multisig.queue.remove(op_id) {
            None => Err(ErrorCode::MsNotQueueHead),
            Some(op) => {
                if let Some(e) = self.check_operation(op.op_type, &op.data) {
                    return Ok(Err(e));
                }
                Ok(Ok(self.perform(env, op.op_type, &op.data)))
            },
        }
    }

    /// Takes an operation out of the queue without executing it.
    pub fn ms_cancel_operation(&mut self, env: &Env, canceller: Address, op_id: u32) -> (r: Result<
        (),
        ErrorCode,
    >)
        ensures
            r == (if old(self).entered {
                Err(ErrorCode::Reentrancy)
            } else if !old(self).keeper_authorizes(*env, canceller) {
                Err(ErrorCode::NotAuthorized)
            } else if !old(self).multisig.queue@.contains_key(op_id) {
                Err(ErrorCode::OperationNotFound)
            } else {
                Ok(())
            }),
            r is Err ==> *final(self) == *old(self),
            r is Ok ==> final(self).multisig.queue@ == old(self).multisig.queue@.remove(op_id)
                && final(self).multisig.queue.ids() == old(self).multisig.queue.ids().remove_value(op_id),
            final(self).multisig.queue.issued() == old(self).multisig.queue.issued(),
            PriceOracleContract::only_queue_differs(*old(self), *final(self)),
    {
        if self.entered {
            return Err(ErrorCode::Reentrancy);
        }
        if !self.is_keeper(env, &canceller) {
            return Err(ErrorCode::NotAuthorized);
        }
        if self.multisig.queue.get(op_id).is_none() {
            return Err(ErrorCode::OperationNotFound);
        }
        let _ = self.multisig.queue.remove(op_id);
        Ok(())
    }

    /// A queued operation.
    pub fn ms_get_operation(&self, op_id: u32) -> (r: Result<&MultiSigOperation, ErrorCode>)
        ensures
            r == (if self.multisig.queue@.contains_key(op_id) {
                Ok(&self.multisig.queue@[op_id])
            } else {
                Err(ErrorCode::OperationNotFound)
            }),
    {
        match self.multisig.queue.get(op_id) {
            Some(op) => Ok(op),
            None => Err(ErrorCode::OperationNotFound),
        }
    }
}

/// `whole` without the first `a`.
pub(crate) fn without_first(whole: Vec<Address>, a: &Address) -> (r: Vec<Address>)
    ensures
        r@ == whole@.remove_value(*a),
{
    let ghost before = whole@;
    let mut list = whole;
    let mut i: usize = 0;
    while i < list.len()
        invariant
            i <= list@.len(),
            list@ == before,
            before == whole@,
            forall|j: int| 0 <= j < i ==> list@[j] != *a,
        decreases list@.len() - i,
    {
        if list[i].same(a) {
            let _ = list.remove(i);
            proof {
                assert(before[i as int] == *a);
                before.index_of_first_ensures(*a);
                assert(before.index_of_first(*a) == Some(i as int));
            }
            return list;
        }
        i += 1;
    }
    proof {
        before.index_of_first_ensures(*a);
    }
    list
}

} // verus!
