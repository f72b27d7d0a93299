//! Operations that wait before they are executed.

use crate::contract::PriceOracleContract;
use crate::env::Env;
use crate::error::{refused_if, reply, ErrorCode};
use crate::operations::{code_to_install, encode_address, CoreState, OperationType};
use crate::submissions::address_bytes;
use crate::registry::Registry;
use crate::types::Address;
use vstd::prelude::*;

verus! {

/// How long an operation waits.
#[derive(Clone, Copy, Debug, PartialEq, Eq, Structural)]
pub enum OperationPriority {
    Urgent,
    Normal,
    LongTerm,
}

impl OperationPriority {
    /// The number that stands for the priority.
    pub open spec fn number(self) -> u32 {
        match self {
            OperationPriority::Urgent => 0,
            OperationPriority::Normal => 1,
            OperationPriority::LongTerm => 2,
        }
    }

    /// The priority that a number stands for, if it stands for one.
    pub fn from_number(n: u32) -> (r: Option<OperationPriority>)
        ensures
            r is Some <==> n <= 2,
            r matches Some(p) ==> p.number() == n,
    {
        match n {
            0 => Some(OperationPriority::Urgent),
            1 => Some(OperationPriority::Normal),
            2 => Some(OperationPriority::LongTerm),
            _ => None,
        }
    }
}

/// An operation that waits.
#[derive(Debug)]
pub struct PendingOperation {
    pub op_type: OperationType,
    /// The bytes that say what to do it with.
    pub data: Vec<u8>,
    /// The ledger in which the operation was proposed.
    pub proposed_ledger: u32,
    /// How many ledgers it waits from then on.
    pub delay: u32,
}

/// One operation of a batch.
#[derive(Debug)]
pub struct BatchOperation {
    pub op_type: OperationType,
    /// The bytes that say what to do it with.
    pub data: Vec<u8>,
}

/// Operations that wait together and are executed together.
#[derive(Debug)]
pub struct PendingBatch {
    pub operations: Vec<BatchOperation>,
    pub proposed_ledger: u32,
    pub delay: u32,
}

/// What would become of one operation.
#[derive(Clone, Copy, Debug, PartialEq, Eq, Structural)]
pub struct OperationSimulationResult {
    pub op_type: OperationType,
    /// Why the operation would fail, if it would.
    pub error: Option<ErrorCode>,
}

/// What would become of a batch.
#[derive(Debug)]
pub struct BatchSimulationResult {
    pub results: Vec<OperationSimulationResult>,
    /// How many of the operations would fail.
    pub warning_count: usize,
    pub all_succeed: bool,
}

/// The operations that wait.
#[derive(Debug)]
pub struct Timelock {
    /// How many ledgers an operation waits.
    pub duration: u32,
    /// The delays that replace the duration for single priorities.
    pub urgent_delay: Option<u32>,
    pub normal_delay: Option<u32>,
    pub long_term_delay: Option<u32>,
    pub operations: Registry<PendingOperation>,
    pub batches: Registry<PendingBatch>,
}

/// Whether at least `delay` ledgers lie between `since` and `now`.
pub open spec fn elapsed(since: u32, now: u32, delay: u32) -> bool {
    now - since >= delay
}

/// Whether at least `delay` ledgers lie between `since` and `now`.
pub fn has_elapsed(since: u32, now: u32, delay: u32) -> (r: bool)
    ensures
        r == elapsed(since, now, delay),
{
    now >= since && now - since >= delay
}

impl Timelock {
    /// How many ledgers an operation of `priority` waits.
    pub open spec fn delay_of(self, priority: OperationPriority) -> u32 {
        let own = match priority {
            OperationPriority::Urgent => self.urgent_delay,
            OperationPriority::Normal => self.normal_delay,
            OperationPriority::LongTerm => self.long_term_delay,
        };
        match own {
            Some(d) => d,
            None => self.duration,
        }
    }

    fn delay(&self, priority: OperationPriority) -> (r: u32)
        ensures
            r == self.delay_of(priority),
    {
        let own: Option<u32> = match priority {
            OperationPriority::Urgent => self.urgent_delay,
            OperationPriority::Normal => self.normal_delay,
            OperationPriority::LongTerm => self.long_term_delay,
        };
        match own {
            Some(d) => d,
            None => self.duration,
        }
    }

    /// With the delay of `priority` set to `delay`.
    pub open spec fn with_delay(self, priority: OperationPriority, delay: u32) -> Timelock {
        match priority {
            OperationPriority::Urgent => Timelock { urgent_delay: Some(delay), ..self },
            OperationPriority::Normal => Timelock { normal_delay: Some(delay), ..self },
            OperationPriority::LongTerm => Timelock { long_term_delay: Some(delay), ..self },
        }
    }
}

impl CoreState {
    /// After all operations of a batch, one after the other.
    pub open spec fn after_all(self, ledger: u32, ops: Seq<BatchOperation>) -> CoreState
        decreases ops.len(),
    {
        if ops.len() == 0 {
            self
        } else {
            self.after_all(ledger, ops.drop_last()).after(ledger, ops.last().op_type, ops.last().data@)
        }
    }
}

/// The hash of the code that the last upgrade of a batch installs, if there is one.
pub open spec fn batch_code(ops: Seq<BatchOperation>) -> Option<[u8; 32]>
    decreases ops.len(),
{
    if ops.len() == 0 {
        None
    } else {
        match code_to_install(ops.last().op_type, ops.last().data@) {
            Some(h) => Some(h),
            None => batch_code(ops.drop_last()),
        }
    }
}

impl PriceOracleContract {
    /// Whether `post` is `pre` with an operation that waits `delay` ledgers under the number `id`.
    pub open spec fn proposed(
        pre: Self,
        post: Self,
        env: Env,
        op_type: u32,
        data: Seq<u8>,
        delay: u32,
        id: u32,
    ) -> bool {
        &&& id == pre.timelock.operations.issued() + 1
        &&& !pre.timelock.operations@.contains_key(id)
        &&& post.timelock.operations.issued() == id
        &&& post.timelock.operations@.dom() == pre.timelock.operations@.dom().insert(id)
        &&& pre.timelock.operations@ == post.timelock.operations@.remove(id)
        &&& post.timelock.operations@[id].op_type.number() == op_type
        &&& post.timelock.operations@[id].data@ == data
        &&& post.timelock.operations@[id].proposed_ledger == env.ledger
        &&& post.timelock.operations@[id].delay == delay
        &&& post == (PriceOracleContract {
            timelock: Timelock { operations: post.timelock.operations, ..pre.timelock },
            ..pre
        })
    }

    fn enqueue(&mut self, env: &Env, op_type: OperationType, data: Vec<u8>, delay: u32) -> (r: Result<
        u32,
        ErrorCode,
    >)
        ensures
            match r {
                Ok(id) => PriceOracleContract::proposed(
                    *old(self),
                    *final(self),
                    *env,
                    op_type.number(),
                    data@,
                    delay,
                    id,
                ),
                Err(e) => e == ErrorCode::ArithmeticOverflow && *final(self) == *old(self),
            },
            r is Ok <==> old(self).timelock.operations.issued() < u32::MAX,
    {
        let op = PendingOperation { op_type, data, proposed_ledger: env.ledger, delay };
        match self.timelock.operations.issue(op) {
            Some(id) => {
                assert(old(self).timelock.operations@ =~= self.timelock.operations@.remove(id));
                Ok(id)
            },
            None => Err(ErrorCode::ArithmeticOverflow),
        }
    }

    /// Why a proposal is refused, if it is. All numbers may be used up.
    pub open spec fn proposal_refusal(self, env: Env, op_type: u32, priority: u32) -> Option<ErrorCode> {
        if self.entered {
            Some(ErrorCode::Reentrancy)
        } else if op_type > 7 {
            Some(ErrorCode::InvalidOperationType)
        } else if priority > 2 {
            Some(ErrorCode::InvalidPriority)
        } else if self.admin_refusal(env) is Some {
            self.admin_refusal(env)
        } else if self.timelock.operations.issued() == u32::MAX {
            Some(ErrorCode::ArithmeticOverflow)
        } else {
            None
        }
    }

    /// Proposes an operation, which can be executed once the timelock's duration has passed,
    /// and gives back its number.
    pub fn propose_operation(&mut self, env: &Env, op_type: u32, data: Vec<u8>) -> (r: Result<u32, ErrorCode>)
        ensures
            match r {
                Err(e) => Some(e) == old(self).proposal_refusal(*env, op_type, 0) && *final(self) == *old(
                    self,
                ),
                Ok(id) => old(self).proposal_refusal(*env, op_type, 0) is None
                    && PriceOracleContract::proposed(
                    *old(self),
                    *final(self),
                    *env,
                    op_type,
                    data@,
                    old(self).timelock.duration,
                    id,
                ),
            },
    {
        if self.entered {
            return Err(ErrorCode::Reentrancy);
        }
        let op: OperationType = match OperationType::from_number(op_type) {
            Some(op) => op,
            None => {
                return Err(ErrorCode::InvalidOperationType);
            },
        };
        if let Some(e) = self.check_admin(env) {
            return Err(e);
        }
        let delay: u32 = self.timelock.duration;
        self.enqueue(env, op, data, delay)
    }

    /// Proposes to make `new_admin` the administrator, and gives back the number of the proposal.
    pub fn propose_set_admin(&mut self, env: &Env, new_admin: Address) -> (r: Result<u32, ErrorCode>)
        ensures
            match r {
                Err(e) => Some(e) == old(self).proposal_refusal(*env, 1, 0) && *final(self) == *old(self),
                Ok(id) => old(self).proposal_refusal(*env, 1, 0) is None && PriceOracleContract::proposed(
                    *old(self),
                    *final(self),
                    *env,
                    1,
                    address_bytes(new_admin),
                    old(self).timelock.duration,
                    id,
                ),
            },
    {
        self.propose_operation(env, 1, encode_address(&new_admin))
    }

    /// Proposes an operation, which can be executed once the delay of its priority has passed:
    /// `0` for urgent, `1` for normal, `2` for long-term.
    pub fn propose_operation_with_priority(
        &mut self,
        env: &Env,
        op_type: u32,
        data: Vec<u8>,
        priority: u32,
    ) -> (r: Result<u32, ErrorCode>)
        ensures
            match r {
                Err(e) => Some(e) == old(self).proposal_refusal(*env, op_type, priority) && *final(self)
                    == *old(self),
                Ok(id) => {
                    &&& old(self).proposal_refusal(*env, op_type, priority) is None
                    &&& exists|p: OperationPriority|
                        p.number() == priority && #[trigger] PriceOracleContract::proposed(
                            *old(self),
                            *final(self),
                            *env,
                            op_type,
                            data@,
                            old(self).timelock.delay_of(p),
                            id,
                        )
                },
            },
    {
        if self.entered {
            return Err(ErrorCode::Reentrancy);
        }
        let op: OperationType = match OperationType::from_number(op_type) {
            Some(op) => op,
            None => {
                return Err(ErrorCode::InvalidOperationType);
            },
        };
        let p: OperationPriority = match OperationPriority::from_number(priority) {
            Some(p) => p,
            None => {
                return Err(ErrorCode::InvalidPriority);
            },
        };
        if let Some(e) = self.check_admin(env) {
            return Err(e);
        }
        let delay: u32 = self.timelock.delay(p);
        self.enqueue(env, op, data, delay)
    }

    /// Why an execution is refused, if it is.
    pub open spec fn execution_refusal(self, env: Env, op_id: u32) -> Option<ErrorCode> {
        if self.guarded_admin_refusal(env) is Some {
            self.guarded_admin_refusal(env)
        } else if !self.timelock.operations@.contains_key(op_id) {
            Some(ErrorCode::OperationNotFound)
        } else {
            let op = self.timelock.operations@[op_id];
            if elapsed(op.proposed_ledger, env.ledger, op.delay) {
                None
            } else {
                Some(ErrorCode::TimelockNotReady)
            }
        }
    }

    /// Executes an operation that has waited for its time. It is proposed no longer, whether it
    /// succeeds or not; its own outcome holds the hash of the code to install, if any.
    pub fn execute_operation(&mut self, env: &Env, op_id: u32) -> (r: Result<
        Result<Option<[u8; 32]>, ErrorCode>,
        ErrorCode,
    >)
        ensures
            match r {
                Err(e) => Some(e) == old(self).execution_refusal(*env, op_id) && *final(self) == *old(self),
                Ok(outcome) => {
                    let op = old(self).timelock.operations@[op_id];
                    &&& old(self).execution_refusal(*env, op_id) is None
                    &&& final(self).timelock.operations@ == old(self).timelock.operations@.remove(op_id)
                    &&& final(self).timelock.operations.issued() == old(self).timelock.operations.issued()
                    &&& outcome == (match old(self).operation_error(op.op_type, op.data@) {
                        Some(e) => Err(e),
                        None => Ok(code_to_install(op.op_type, op.data@)),
                    })
                    &&& final(self).core_state() == (if outcome is Ok {
                        old(self).core_state().after(env.ledger, op.op_type, op.data@)
                    } else {
                        old(self).core_state()
                    })
                    &&& PriceOracleContract::only_core_differs(
                        PriceOracleContract {
                            timelock: Timelock {
                                operations: final(self).timelock.operations,
                                ..old(self).timelock
                            },
                            ..*old(self)
                        },
                        *final(self),
                    )
                },
            },
    {
        if let Some(e) = self.check_guarded_admin(env) {
            return Err(e);
        }
        match self.timelock.operations.get(op_id) {
            None => {
                return Err(ErrorCode::OperationNotFound);
            },
            Some(op) => if !has_elapsed(op.proposed_ledger, env.ledger, op.delay) {
                return Err(ErrorCode::TimelockNotReady);
            },
        }
        match self.timelock.operations.remove(op_id) {
            None => Err(ErrorCode::OperationNotFound),
            Some(op) => {
                if let Some(e) = self.check_operation(op.op_type, &op.data) {
                    return Ok(Err(e));
                }
                Ok(Ok(self.perform(env, op.op_type, &op.data)))
            },
        }
    }

    /// Takes an operation back that was proposed.
    pub fn cancel_operation(&mut self, env: &Env, op_id: u32) -> (r: Result<(), ErrorCode>)
        ensures
            r == reply(
                refused_if(
                    old(self).guarded_admin_refusal(*env),
                    !old(self).timelock.operations@.contains_key(op_id),
                    ErrorCode::OperationNotFound,
                ),
            ),
            r is Err ==> *final(self) == *old(self),
            r is Ok ==> final(self).timelock.operations@ == old(self).timelock.operations@.remove(op_id),
            final(self).timelock.operations.issued() == old(self).timelock.operations.issued(),
            *final(self) == (PriceOracleContract {
                timelock: Timelock {
                    operations: final(self).timelock.operations,
                    ..old(self).timelock
                },
                ..*old(self)
            }),
    {
        if let Some(e) = self.check_guarded_admin(env) {
            return Err(e);
        }
        if self.timelock.operations.get(op_id).is_none() {
            return Err(ErrorCode::OperationNotFound);
        }
        let _ = self.timelock.operations.remove(op_id);
        Ok(())
    }

    /// How many ledgers a proposed operation waits.
    pub fn get_timelock_duration(&self) -> (r: Result<u32, ErrorCode>)
        ensures
            r == self.guarded(self.timelock.duration),
    {
        if self.entered {
            return Err(ErrorCode::Reentrancy);
        }
        Ok(self.timelock.duration)
    }

    /// Sets how many ledgers a proposed operation waits.
    pub fn set_timelock_duration(&mut self, env: &Env, duration: u32) -> (r: Result<(), ErrorCode>)
        ensures
            r == reply(old(self).guarded_admin_refusal(*env)),
            *final(self) == (if r is Ok {
                PriceOracleContract {
                    timelock: Timelock { duration, ..old(self).timelock },
                    ..*old(self)
                }
            } else {
                *old(self)
            }),
    {
        if let Some(e) = self.check_guarded_admin(env) {
            return Err(e);
        }
        self.timelock.duration = duration;
        Ok(())
    }

    /// How many ledgers an operation of a priority waits.
    pub fn get_priority_delay(&self, priority: u32) -> (r: Result<u32, ErrorCode>)
        ensures
            match r {
                Err(e) => e == ErrorCode::InvalidPriority && priority > 2,
                Ok(d) => exists|p: OperationPriority|
                    p.number() == priority && d == #[trigger] self.timelock.delay_of(p),
            },
    {
        match OperationPriority::from_number(priority) {
            Some(p) => Ok(self.timelock.delay(p)),
            None => Err(ErrorCode::InvalidPriority),
        }
    }

    /// Sets how many ledgers an operation of a priority waits.
    pub fn set_priority_delay(&mut self, env: &Env, priority: u32, delay: u32) -> (r: Result<(), ErrorCode>)
        ensures
            r == (if old(self).entered {
                Err(ErrorCode::Reentrancy)
            } else if priority > 2 {
                Err(ErrorCode::InvalidPriority)
            } else {
                reply(old(self).admin_refusal(*env))
            }),
            r is Err ==> *final(self) == *old(self),
            r is Ok ==> exists|p: OperationPriority|
                p.number() == priority && *final(self) == (PriceOracleContract {
                    timelock: #[trigger] old(self).timelock.with_delay(p, delay),
                    ..*old(self)
                }),
    {
        if self.entered {
            return Err(ErrorCode::Reentrancy);
        }
        let p: OperationPriority = match OperationPriority::from_number(priority) {
            Some(p) => p,
            None => {
                return Err(ErrorCode::InvalidPriority);
            },
        };
        if let Some(e) = self.check_admin(env) {
            return Err(e);
        }
        match p {
            OperationPriority::Urgent => {
                self.timelock.urgent_delay = Some(delay);
            },
            OperationPriority::Normal => {
                self.timelock.normal_delay = Some(delay);
            },
            OperationPriority::LongTerm => {
                self.timelock.long_term_delay = Some(delay);
            },
        }
        assert(self.timelock == old(self).timelock.with_delay(p, delay));
        Ok(())
    }

    /// Why the first operation of a batch that fails does so, if one does.
    pub open spec fn batch_error(self, ops: Seq<BatchOperation>) -> Option<ErrorCode>
        decreases ops.len(),
    {
        if ops.len() == 0 {
            None
        } else {
            match self.batch_error(ops.drop_last()) {
                Some(e) => Some(e),
                None => self.operation_error(ops.last().op_type, ops.last().data@),
            }
        }
    }

    proof fn lemma_batch_error(self, ops: Seq<BatchOperation>, n: int)
        requires
            0 <= n <= ops.len(),
        ensures
            self.batch_error(ops.take(n)) is Some ==> self.batch_error(ops) == self.batch_error(
                ops.take(n),
            ),
            self.batch_error(ops) is None ==> forall|j: int|
                n <= j < ops.len() ==> self.operation_error(
                    (#[trigger] ops[j]).op_type,
                    ops[j].data@,
                ) is None,
        decreases ops.len() - n,
    {
        if n < ops.len() {
            assert(ops.take(n + 1).drop_last() =~= ops.take(n));
            assert(ops.take(n + 1).last() == ops[n]);
            self.lemma_batch_error(ops, n + 1);
        } else {
            assert(ops.take(n) =~= ops);
        }
    }

    /// Why the first operation of a batch that fails does so, if one does.
    fn check_batch(&self, ops: &Vec<BatchOperation>) -> (r: Option<ErrorCode>)
        ensures
            r == self.batch_error(ops@),
    {
        let mut i: usize = 0;
        assert(ops@.take(0) =~= Seq::<BatchOperation>::empty());
        while i < ops.len()
            invariant
                i <= ops@.len(),
                self.batch_error(ops@.take(i as int)) is None,
            decreases ops@.len() - i,
        {
            proof {
                assert(ops@.take(i + 1).drop_last() =~= ops@.take(i as int));
                assert(ops@.take(i + 1).last() == ops@[i as int]);
            }
            if let Some(e) = self.check_operation(ops[i].op_type, &ops[i].data) {
                proof {
                    self.lemma_batch_error(ops@, i + 1);
                }
                return Some(e);
            }
            i += 1;
        }
        assert(ops@.take(ops@.len() as int) =~= ops@);
        None
    }

    /// Proposes operations that are executed together, and gives back the number of the batch.
    pub fn propose_batch(&mut self, env: &Env, operations: Vec<BatchOperation>) -> (r: Result<u32, ErrorCode>)
        ensures
            match r {
                Err(e) => *final(self) == *old(self) && Some(e) == refused_if(
                    old(self).admin_refusal(*env),
                    old(self).timelock.batches.issued() == u32::MAX,
                    ErrorCode::ArithmeticOverflow,
                ),
                Ok(id) => {
                    &&& old(self).admin_refusal(*env) is None
                    &&& id == old(self).timelock.batches.issued() + 1
                    &&& !old(self).timelock.batches@.contains_key(id)
                    &&& final(self).timelock.batches.issued() == id
                    &&& final(self).timelock.batches@ == old(self).timelock.batches@.insert(
                        id,
                        PendingBatch {
                            operations,
                            proposed_ledger: env.ledger,
                            delay: old(self).timelock.duration,
                        },
                    )
                },
            },
            *final(self) == (PriceOracleContract {
                timelock: Timelock { batches: final(self).timelock.batches, ..old(self).timelock },
                ..*old(self)
            }),
    {
        if let Some(e) = self.check_admin(env) {
            return Err(e);
        }
        let delay: u32 = self.timelock.duration;
        match self.timelock.batches.issue(
            PendingBatch { operations, proposed_ledger: env.ledger, delay },
        ) {
            Some(id) => Ok(id),
            None => Err(ErrorCode::ArithmeticOverflow),
        }
    }

    /// Why the execution of a batch is refused, if it is.
    pub open spec fn batch_execution_refusal(self, env: Env, batch_id: u32) -> Option<ErrorCode> {
        if self.admin_refusal(env) is Some {
            self.admin_refusal(env)
        } else if !self.timelock.batches@.contains_key(batch_id) {
            Some(ErrorCode::OperationNotFound)
        } else {
            let b = self.timelock.batches@[batch_id];
            if !elapsed(b.proposed_ledger, env.ledger, b.delay) {
                Some(ErrorCode::TimelockNotReady)
            } else {
                self.batch_error(b.operations@)
            }
        }
    }

    /// Executes the operations of a batch that has waited for its time, one after the other, all
    /// of them or none. Gives back the hash of the code to install, if any.
    pub fn execute_batch(&mut self, env: &Env, batch_id: u32) -> (r: Result<Option<[u8; 32]>, ErrorCode>)
        ensures
            match r {
                Err(e) => Some(e) == old(self).batch_execution_refusal(*env, batch_id) && *final(self)
                    == *old(self),
                Ok(code) => {
                    let ops = old(self).timelock.batches@[batch_id].operations@;
                    &&& old(self).batch_execution_refusal(*env, batch_id) is None
                    &&& code == batch_code(ops)
                    &&& final(self).timelock.batches@ == old(self).timelock.batches@.remove(batch_id)
                    &&& final(self).timelock.batches.issued() == old(self).timelock.batches.issued()
                    &&& final(self).core_state() == old(self).core_state().after_all(env.ledger, ops)
                    &&& PriceOracleContract::only_core_differs(
                        PriceOracleContract {
                            timelock: Timelock {
                                batches: final(self).timelock.batches,
                                ..old(self).timelock
                            },
                            ..*old(self)
                        },
                        *final(self),
                    )
                },
            },
    {
        if let Some(e) = self.check_admin(env) {
            return Err(e);
        }
        match self.timelock.batches.get(batch_id) {
            None => {
                return Err(ErrorCode::OperationNotFound);
            },
            Some(b) => {
                if !has_elapsed(b.proposed_ledger, env.ledger, b.delay) {
                    return Err(ErrorCode::TimelockNotReady);
                }
                if let Some(e) = self.check_batch(&b.operations) {
                    return Err(e);
                }
            },
        }
        match self.timelock.batches.remove(batch_id) {
            None => Err(ErrorCode::OperationNotFound),
            Some(b) => {
                let mut ops: Vec<BatchOperation> = b.operations;
                let ghost all = ops@;
                let ghost start = *self;
                let mut code: Option<[u8; 32]> = None;
                let ghost mut k: int = 0;
                proof {
                    old(self).lemma_batch_error(all, 0);
                    assert(all.take(0) =~= Seq::<BatchOperation>::empty());
                    assert(all.skip(0) =~= all);
                }
                while ops.len() > 0
                    invariant
                        0 <= k <= all.len(),
                        ops@ == all.skip(k),
                        self.sources == start.sources,
                        forall|j: int|
                            0 <= j < all.len() ==> start.operation_error(
                                (#[trigger] all[j]).op_type,
                                all[j].data@,
                            ) is None,
                        code == batch_code(all.take(k)),
                        self.core_state() == start.core_state().after_all(env.ledger, all.take(k)),
                        PriceOracleContract::only_core_differs(start, *self),
                    decreases ops@.len(),
                {
                    let op: BatchOperation = ops.remove(0);
                    proof {
                        assert(op == all[k]);
                        assert(all.take(k + 1).drop_last() =~= all.take(k));
                        assert(all.take(k + 1).last() == op);
                        assert(ops@ =~= all.skip(k + 1));
                        assert(self.operation_error(op.op_type, op.data@) == start.operation_error(
                            op.op_type,
                            op.data@,
                        ));
                    }
                    if let Some(h) = self.perform(env, op.op_type, &op.data) {
                        code = Some(h);
                    }
                    proof {
                        k = k + 1;
                    }
                }
                assert(all.take(k) =~= all);
                Ok(code)
            },
        }
    }

    /// Takes a batch back that was proposed.
    pub fn cancel_batch(&mut self, env: &Env, batch_id: u32) -> (r: Result<(), ErrorCode>)
        ensures
            r == reply(
                refused_if(
                    old(self).admin_refusal(*env),
                    !old(self).timelock.batches@.contains_key(batch_id),
                    ErrorCode::OperationNotFound,
                ),
            ),
            r is Err ==> *final(self) == *old(self),
            r is Ok ==> final(self).timelock.batches@ == old(self).timelock.batches@.remove(batch_id),
            final(self).timelock.batches.issued() == old(self).timelock.batches.issued(),
            *final(self) == (PriceOracleContract {
                timelock: Timelock { batches: final(self).timelock.batches, ..old(self).timelock },
                ..*old(self)
            }),
    {
        if let Some(e) = self.check_admin(env) {
            return Err(e);
        }
        if self.timelock.batches.get(batch_id).is_none() {
            return Err(ErrorCode::OperationNotFound);
        }
        let _ = self.timelock.batches.remove(batch_id);
        Ok(())
    }

    /// How many of the first `n` operations would fail.
    pub open spec fn failures(self, ops: Seq<BatchOperation>, n: int) -> nat
        decreases n,
    {
        if n <= 0 {
            0
        } else {
            self.failures(ops, n - 1) + if self.operation_error(
                ops[n - 1].op_type,
                ops[n - 1].data@,
            ) is Some {
                1nat
            } else {
                0nat
            }
        }
    }

    /// What would become of a batch if it were executed now. Nothing is changed.
    pub fn simulate_batch(&self, operations: &Vec<BatchOperation>) -> (r: BatchSimulationResult)
        ensures
            r.results@.len() == operations@.len(),
            forall|i: int|
                0 <= i < operations@.len() ==> #[trigger] r.results@[i] == (OperationSimulationResult {
                    op_type: operations@[i].op_type,
                    error: self.operation_error(operations@[i].op_type, operations@[i].data@),
                }),
            r.warning_count == self.failures(operations@, operations@.len() as int),
            r.all_succeed == (self.batch_error(operations@) is None),
    {
        let mut results: Vec<OperationSimulationResult> = Vec::new();
        let mut warning_count: usize = 0;
        let mut i: usize = 0;
        while i < operations.len()
            invariant
                i <= operations@.len(),
                results@.len() == i,
                warning_count <= i,
                warning_count == self.failures(operations@, i as int),
                forall|j: int|
                    0 <= j < i ==> #[trigger] results@[j] == (OperationSimulationResult {
                        op_type: operations@[j].op_type,
                        error: self.operation_error(operations@[j].op_type, operations@[j].data@),
                    }),
            decreases operations@.len() - i,
        {
            let op_type: OperationType = operations[i].op_type;
            let error: Option<ErrorCode> = self.check_operation(op_type, &operations[i].data);
            if error.is_some() {
                warning_count += 1;
            }
            results.push(OperationSimulationResult { op_type, error });
            i += 1;
        }
        let all_succeed: bool = self.check_batch(operations).is_none();
        BatchSimulationResult { results, warning_count, all_succeed }
    }
}

/// A batch that would succeed according to a simulation succeeds when it is executed in the same
/// state, once it has waited for its time.
pub proof fn a_simulated_batch_executes(c: PriceOracleContract, env: Env, batch_id: u32)
    requires
        c.admin_refusal(env) is None,
        c.timelock.batches@.contains_key(batch_id),
        elapsed(
            c.timelock.batches@[batch_id].proposed_ledger,
            env.ledger,
            c.timelock.batches@[batch_id].delay,
        ),
    ensures
        (c.batch_execution_refusal(env, batch_id) is None) == (c.batch_error(
            c.timelock.batches@[batch_id].operations@,
        ) is None),
{
}

} // verus!
