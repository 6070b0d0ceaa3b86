//! Automation: trigger conditions evaluated against chain events, cron-style
//! schedules, executor incentives, and signed execution attestations.

use vstd::prelude::*;

use crate::codec::spec_enc_u64;
use crate::hash::{blake3_of, hash_bytes, push_bytes32, Digest};
use crate::signature::{ed25519_valid_pubkey, ed25519_verifies, Signature, SignatureError};
use crate::types::{id_eq, AccountId};

verus! {

/// Condition that fires a trigger.
#[derive(Clone, Debug)]
pub enum TriggerCondition {
    /// The chain reached a height.
    BlockHeight(u64),
    /// An account's balance reached a threshold.
    BalanceExceeds { account: AccountId, threshold: u128 },
    /// The clock passed a timestamp.
    TimestampAfter(u64),
    /// An opaque predicate no automation evaluates; never fires here.
    Custom(Vec<u8>),
}

/// A trigger: a condition paired with the action to run when it holds.
#[derive(Clone, Debug)]
pub struct Trigger {
    pub id: u64,
    pub condition: TriggerCondition,
    pub action_id: u64,
}

/// Whether a condition holds for a height, an optional balance, and a
/// clock reading.
pub open spec fn spec_satisfied(c: TriggerCondition, block_height: u64, balance: Option<u128>, now_secs: u64) -> bool {
    match c {
        TriggerCondition::BlockHeight(h) => block_height >= h,
        TriggerCondition::BalanceExceeds { threshold, .. } => match balance {
            Some(b) => b >= threshold,
            None => false,
        },
        TriggerCondition::TimestampAfter(t) => now_secs >= t,
        TriggerCondition::Custom(_) => false,
    }
}

impl Trigger {
    pub fn new(id: u64, condition: TriggerCondition, action_id: u64) -> (r: Self)
        ensures
            r.id == id,
            r.condition == condition,
            r.action_id == action_id,
    {
        Trigger { id, condition, action_id }
    }

    /// Whether this trigger's condition holds.
    pub fn is_satisfied(&self, block_height: u64, balance: Option<u128>, now_secs: u64) -> (r:
        bool)
        ensures
            r == spec_satisfied(self.condition, block_height, balance, now_secs),
    {
        match &self.condition {
            TriggerCondition::BlockHeight(h) => block_height >= *h,
            TriggerCondition::BalanceExceeds { threshold, .. } => match balance {
                Some(b) => b >= *threshold,
                None => false,
            },
            TriggerCondition::TimestampAfter(t) => now_secs >= *t,
            TriggerCondition::Custom(_) => false,
        }
    }
}

/// A chain event that can fire triggers.
#[derive(Clone, Debug)]
pub enum ChainEvent {
    /// A block was imported.
    BlockImported { height: u64, hash: Digest, proposer: AccountId, tx_count: usize },
    /// A transaction was executed in a block.
    TxExecuted { block_height: u64, tx_id: Digest, sender: AccountId },
}

/// Context a trigger is evaluated in: height, clock, and balances.
#[derive(Clone, Debug)]
pub struct EvalContext {
    pub block_height: u64,
    pub timestamp_secs: u64,
    pub balances: Vec<(AccountId, u128)>,
}

/// The balance a context knows for an account: the first entry carrying it.
pub open spec fn spec_balance_for(bals: Seq<(AccountId, u128)>, account: AccountId) -> Option<u128>
    decreases bals.len(),
{
    if bals.len() == 0 {
        None
    } else if bals[0].0 == account {
        Some(bals[0].1)
    } else {
        spec_balance_for(bals.drop_first(), account)
    }
}

impl EvalContext {
    /// The known balances, in insertion order.
    pub open spec fn spec_balances(&self) -> Seq<(AccountId, u128)> {
        self.balances@
    }

    pub fn new(block_height: u64, timestamp_secs: u64) -> (r: Self)
        ensures
            r.block_height == block_height,
            r.timestamp_secs == timestamp_secs,
            r.spec_balances().len() == 0,
    {
        EvalContext { block_height, timestamp_secs, balances: Vec::new() }
    }

    /// The context with one more known balance.
    pub fn with_balance(self, account: AccountId, balance: u128) -> (r: Self)
        ensures
            r.block_height == self.block_height,
            r.timestamp_secs == self.timestamp_secs,
            r.spec_balances() == self.spec_balances().push((account, balance)),
    {
        let mut b = self.balances;
        b.push((account, balance));
        EvalContext { block_height: self.block_height, timestamp_secs: self.timestamp_secs, balances: b }
    }

    /// The balance known for an account, if any.
    fn balance_for(&self, account: &AccountId) -> (r: Option<u128>)
        ensures
            r == spec_balance_for(self.spec_balances(), *account),
    {
        let mut i: usize = 0;
        let n = self.balances.len();
        proof {
            assert(self.balances@.skip(0) =~= self.balances@);
        }
        while i < n
            invariant
                0 <= i <= n,
                n == self.balances@.len(),
                spec_balance_for(self.balances@, *account) == spec_balance_for(
                    self.balances@.skip(i as int),
                    *account,
                ),
            decreases n - i,
        {
            proof {
                assert(self.balances@.skip(i as int)[0] == self.balances@[i as int]);
                assert(self.balances@.skip(i as int).drop_first() =~= self.balances@.skip(
                    i as int + 1,
                ));
            }
            if id_eq(&self.balances[i].0, account) {
                return Some(self.balances[i].1);
            }
            i = i + 1;
        }
        None
    }
}

/// Registry of triggers, evaluated in registration order.
#[derive(Clone, Debug)]
pub struct TriggerRegistry {
    triggers: Vec<Trigger>,
    next_id: u64,
}

/// Whether a registered trigger fires in a context.
pub open spec fn spec_fires(t: Trigger, ctx_height: u64, bals: Seq<(AccountId, u128)>, now: u64) -> bool {
    match t.condition {
        TriggerCondition::BalanceExceeds { account, .. } => spec_satisfied(
            t.condition,
            ctx_height,
            spec_balance_for(bals, account),
            now,
        ),
        _ => spec_satisfied(t.condition, ctx_height, None, now),
    }
}

/// The actions of the triggers that fire, in registration order.
pub open spec fn spec_fired(ts: Seq<Trigger>, ctx_height: u64, bals: Seq<(AccountId, u128)>, now: u64) -> Seq<u64>
    decreases ts.len(),
{
    if ts.len() == 0 {
        Seq::empty()
    } else if spec_fires(ts[0], ctx_height, bals, now) {
        seq![ts[0].action_id] + spec_fired(ts.drop_first(), ctx_height, bals, now)
    } else {
        spec_fired(ts.drop_first(), ctx_height, bals, now)
    }
}

impl TriggerRegistry {
    /// The registered triggers, in registration order.
    pub closed spec fn spec_triggers(&self) -> Seq<Trigger> {
        self.triggers@
    }

    pub fn new() -> (r: Self)
        ensures
            r.spec_triggers().len() == 0,
    {
        TriggerRegistry { triggers: Vec::new(), next_id: 0 }
    }

    /// Register a trigger; returns its identifier.
    pub fn register(&mut self, condition: TriggerCondition, action_id: u64) -> (r: u64)
        ensures
            final(self).spec_triggers().len() == old(self).spec_triggers().len() + 1,
            final(self).spec_triggers().last().condition == condition,
            final(self).spec_triggers().last().action_id == action_id,
            forall|i: int|
                0 <= i < old(self).spec_triggers().len() ==> final(self).spec_triggers()[i] == old(
                    self,
                ).spec_triggers()[i],
    {
        let id = self.next_id;
        self.next_id = crate::vm::sat_add_u64(self.next_id, 1);
        self.triggers.push(Trigger { id, condition, action_id });
        id
    }

    /// Unregister the first trigger carrying an identifier, returning it.
    pub fn unregister(&mut self, id: u64) -> (r: Option<Trigger>)
        ensures
            match r {
                Some(t) => exists|i: int|
                    0 <= i < old(self).spec_triggers().len() && old(self).spec_triggers()[i].id
                        == id && t == old(self).spec_triggers()[i] && final(self).spec_triggers()
                        == old(self).spec_triggers().remove(i),
                None => final(self).spec_triggers() == old(self).spec_triggers() && forall|i: int|
                    0 <= i < old(self).spec_triggers().len() ==> (#[trigger] old(
                        self,
                    ).spec_triggers()[i]).id != id,
            },
    {
        let mut i: usize = 0;
        let n = self.triggers.len();
        while i < n
            invariant
                0 <= i <= n,
                *self == *old(self),
                n == self.triggers@.len(),
                forall|j: int| 0 <= j < i ==> (#[trigger] self.triggers@[j]).id != id,
            decreases n - i,
        {
            if self.triggers[i].id == id {
                let t = self.triggers.remove(i);
                return Some(t);
            }
            i = i + 1;
        }
        None
    }

    /// Evaluate every trigger against an event's context; returns the
    /// actions to run, in registration order.
    pub fn evaluate(&self, _event: &ChainEvent, ctx: &EvalContext) -> (r: Vec<u64>)
        ensures
            r@ == spec_fired(
                self.spec_triggers(),
                ctx.block_height,
                ctx.spec_balances(),
                ctx.timestamp_secs,
            ),
    {
        let mut fired: Vec<u64> = Vec::new();
        let mut i: usize = 0;
        let n = self.triggers.len();
        proof {
            assert(self.triggers@.skip(0) =~= self.triggers@);
        }
        while i < n
            invariant
                0 <= i <= n,
                n == self.triggers@.len(),
                spec_fired(
                    self.spec_triggers(),
                    ctx.block_height,
                    ctx.spec_balances(),
                    ctx.timestamp_secs,
                ) == fired@ + spec_fired(
                    self.triggers@.skip(i as int),
                    ctx.block_height,
                    ctx.spec_balances(),
                    ctx.timestamp_secs,
                ),
            decreases n - i,
        {
            proof {
                assert(self.triggers@.skip(i as int)[0] == self.triggers@[i as int]);
                assert(self.triggers@.skip(i as int).drop_first() =~= self.triggers@.skip(
                    i as int + 1,
                ));
            }
            let t = &self.triggers[i];
            let balance = match &t.condition {
                TriggerCondition::BalanceExceeds { account, .. } => ctx.balance_for(account),
                _ => None,
            };
            if t.is_satisfied(ctx.block_height, balance, ctx.timestamp_secs) {
                fired.push(t.action_id);
                proof {
                    assert(fired@.drop_last() + (seq![
                        self.triggers@[i as int].action_id,
                    ] + spec_fired(
                        self.triggers@.skip(i as int + 1),
                        ctx.block_height,
                        ctx.spec_balances(),
                        ctx.timestamp_secs,
                    )) =~= fired@ + spec_fired(
                        self.triggers@.skip(i as int + 1),
                        ctx.block_height,
                        ctx.spec_balances(),
                        ctx.timestamp_secs,
                    ));
                }
            }
            i = i + 1;
        }
        proof {
            assert(self.triggers@.skip(n as int) =~= Seq::<Trigger>::empty());
            assert(fired@ + Seq::<u64>::empty() =~= fired@);
        }
        fired
    }

    /// Process a chain event; returns the actions to run.
    pub fn on_event(&self, event: &ChainEvent, ctx: &EvalContext) -> (r: Vec<u64>)
        ensures
            r@ == spec_fired(
                self.spec_triggers(),
                ctx.block_height,
                ctx.spec_balances(),
                ctx.timestamp_secs,
            ),
    {
        self.evaluate(event, ctx)
    }

    /// Number of registered triggers.
    pub fn len(&self) -> (r: usize)
        ensures
            r == self.spec_triggers().len(),
    {
        self.triggers.len()
    }

    /// Whether no trigger is registered.
    pub fn is_empty(&self) -> (r: bool)
        ensures
            r == (self.spec_triggers().len() == 0),
    {
        self.triggers.len() == 0
    }
}

impl Default for TriggerRegistry {
    fn default() -> (r: Self)
        ensures
            r.spec_triggers().len() == 0,
    {
        TriggerRegistry::new()
    }
}

/// A cron-style schedule: every N seconds, or every N blocks.
#[derive(Clone, Copy, Debug)]
pub struct CronSchedule {
    /// Run every this many seconds; zero disables the clock rule.
    pub every_secs: u64,
    /// Run when `block_height % modulo == remainder`.
    pub block_modulo: Option<(u64, u64)>,
}

impl CronSchedule {
    /// A schedule on the clock alone.
    pub fn every_secs(n: u64) -> (r: Self)
        ensures
            r.every_secs == n,
            r.block_modulo matches None,
    {
        CronSchedule { every_secs: n, block_modulo: None }
    }

    /// A schedule on block heights alone.
    pub fn every_blocks(n: u64) -> (r: Self)
        ensures
            r.every_secs == 0,
            r.block_modulo == Some((n, 0u64)),
    {
        CronSchedule { every_secs: 0, block_modulo: Some((n, 0)) }
    }

    /// Whether the schedule fires at a height after some elapsed seconds.
    pub fn should_run(&self, block_height: u64, elapsed_secs: u64) -> (r: bool)
        ensures
            r == ((self.every_secs > 0 && elapsed_secs > 0 && elapsed_secs % self.every_secs == 0)
                || (match self.block_modulo {
                Some((m, rem)) => m > 0 && block_height % m == rem,
                None => false,
            })),
    {
        if self.every_secs > 0 && elapsed_secs > 0 && elapsed_secs % self.every_secs == 0 {
            return true;
        }
        match self.block_modulo {
            Some((m, rem)) => m > 0 && block_height % m == rem,
            None => false,
        }
    }
}

/// The schedule and cadence an outside runner drives ticks with.
pub struct Scheduler {
    pub schedule: CronSchedule,
    pub tick_interval_secs: u64,
}

impl Scheduler {
    /// A scheduler ticking once a second.
    pub fn new(schedule: CronSchedule) -> (r: Self)
        ensures
            r.schedule == schedule,
            r.tick_interval_secs == 1,
    {
        Scheduler { schedule, tick_interval_secs: 1 }
    }
}

/// A task for a decentralized executor.
#[derive(Clone, Debug)]
pub struct AutomationTask {
    pub id: u64,
    pub schedule_id: u64,
    pub payload: Vec<u8>,
    pub gas_limit: u64,
}

/// Incentives for executors: reward on success, slash on failure, minimum
/// stake to register.
#[derive(Clone, Copy, Debug)]
pub struct ExecutorIncentive {
    pub reward_per_task: u128,
    pub slash_on_failure: u128,
    pub min_stake: u128,
}

impl Default for ExecutorIncentive {
    fn default() -> (r: Self)
        ensures
            r.reward_per_task == 1000,
            r.slash_on_failure == 5000,
            r.min_stake == 10_000,
    {
        ExecutorIncentive { reward_per_task: 1000, slash_on_failure: 5000, min_stake: 10_000 }
    }
}

/// An executor registration.
#[derive(Clone, Copy, Debug)]
pub struct ExecutorRegistration {
    pub executor: AccountId,
    pub stake: u128,
}

/// The reward for a successful task execution.
pub fn executor_reward(incentive: &ExecutorIncentive, _task: &AutomationTask) -> (r: u128)
    ensures
        r == incentive.reward_per_task,
{
    incentive.reward_per_task
}

/// The slash for a failed or fraudulent execution.
pub fn executor_slash(incentive: &ExecutorIncentive, _task: &AutomationTask) -> (r: u128)
    ensures
        r == incentive.slash_on_failure,
{
    incentive.slash_on_failure
}

/// Why an attestation was rejected.
#[derive(Clone, Copy, Debug, PartialEq, Eq, Structural)]
pub enum VerificationError {
    /// The executor bytes are not a valid public key.
    InvalidPublicKey,
    /// The signature does not verify.
    InvalidSignature,
}

/// The bytes an executor signs: executor, task, result hash, timestamp.
pub open spec fn spec_attestation_msg(executor: AccountId, task_id: u64, result_hash: Digest, timestamp_secs: u64) -> Seq<u8> {
    blake3_of(executor.0@ + spec_enc_u64(task_id) + result_hash.0@ + spec_enc_u64(timestamp_secs))
}

/// A signed execution report: the executor attests to a task's result.
#[derive(Clone, Copy, Debug)]
pub struct ExecutorAttestation {
    pub executor: AccountId,
    pub task_id: u64,
    pub result_hash: Digest,
    pub timestamp_secs: u64,
    pub signature: Signature,
}

impl ExecutorAttestation {
    fn signable_hash(&self) -> (r: Digest)
        ensures
            r.0@ == spec_attestation_msg(
                self.executor,
                self.task_id,
                self.result_hash,
                self.timestamp_secs,
            ),
    {
        let mut buf: Vec<u8> = Vec::new();
        push_bytes32(&mut buf, &self.executor.0);
        crate::codec::push_u64(&mut buf, self.task_id);
        push_bytes32(&mut buf, &self.result_hash.0);
        crate::codec::push_u64(&mut buf, self.timestamp_secs);
        proof {
            assert(buf@ =~= self.executor.0@ + spec_enc_u64(self.task_id) + self.result_hash.0@
                + spec_enc_u64(self.timestamp_secs));
        }
        hash_bytes(buf.as_slice())
    }

    /// Create and sign an attestation with an Ed25519 secret key. When the
    /// executor is the key's public key, the result verifies.
    pub fn new(executor: AccountId, task_id: u64, result_hash: Digest, timestamp_secs: u64, secret: &[u8; 32]) -> (r: Self)
        ensures
            r.executor == executor,
            r.task_id == task_id,
            r.result_hash == result_hash,
            r.timestamp_secs == timestamp_secs,
            crate::signature::ed25519_pubkey_of(secret@) == executor.0@ ==> ed25519_valid_pubkey(
                executor.0@,
            ) && ed25519_verifies(
                executor.0@,
                spec_attestation_msg(executor, task_id, result_hash, timestamp_secs),
                r.signature.0@,
            ),
    {
        let mut att = ExecutorAttestation {
            executor,
            task_id,
            result_hash,
            timestamp_secs,
            signature: Signature([0u8; 64]),
        };
        let msg = att.signable_hash();
        let sig = crate::signature::sign_message(secret, &msg.0);
        att.signature = sig;
        att
    }

    /// Verify the attestation signature against the executor's key.
    pub fn verify(&self) -> (r: Result<(), VerificationError>)
        ensures
            !ed25519_valid_pubkey(self.executor.0@) <==> r == Err::<(), VerificationError>(
                VerificationError::InvalidPublicKey,
            ),
            (ed25519_valid_pubkey(self.executor.0@) && ed25519_verifies(
                self.executor.0@,
                spec_attestation_msg(
                    self.executor,
                    self.task_id,
                    self.result_hash,
                    self.timestamp_secs,
                ),
                self.signature.0@,
            )) <==> r == Ok::<(), VerificationError>(()),
    {
        let msg = self.signable_hash();
        match crate::signature::verify_message(&self.executor.0, &msg.0, &self.signature.0) {
            Ok(()) => Ok(()),
            Err(SignatureError::InvalidPublicKey) => Err(VerificationError::InvalidPublicKey),
            Err(SignatureError::InvalidSignature) => Err(VerificationError::InvalidSignature),
        }
    }
}

/// Placeholder for a zero-knowledge proof of execution.
#[derive(Clone, Debug)]
pub struct ZkpProof {
    pub proof_bytes: Vec<u8>,
}

/// Evidence that an executor reported a wrong result.
#[derive(Clone, Debug)]
pub struct FraudProof {
    pub task_id: u64,
    pub attestation_id: AccountId,
    pub expected_result_hash: Digest,
    pub actual_result_hash: Digest,
    pub evidence: Vec<u8>,
}

/// A proof that an automation task was executed correctly.
#[derive(Clone, Debug)]
pub enum ExecutionProof {
    /// A signed execution report.
    Attestation(ExecutorAttestation),
    /// A zero-knowledge proof.
    Zkp(ZkpProof),
    /// A fraud proof, for optimistic verification.
    FraudProof(FraudProof),
}

/// External data signed by oracle nodes.
#[derive(Clone, Debug)]
pub struct OracleAttestation {
    pub data_hash: Digest,
    pub oracle_signatures: Vec<(AccountId, Signature)>,
    pub quorum: usize,
}

impl OracleAttestation {
    /// Whether at least a quorum of signatures is present.
    pub fn has_quorum(&self) -> (r: bool)
        ensures
            r == (self.oracle_signatures@.len() >= self.quorum),
    {
        self.oracle_signatures.len() >= self.quorum
    }
}

} // verus!
