//! Triggers, schedules, and execution attestations.

use boing::automation::{ChainEvent, CronSchedule, EvalContext, ExecutorAttestation, Trigger,
    TriggerCondition, TriggerRegistry};
use boing::hash::Digest;
use boing::types::AccountId;
use ed25519_dalek::SigningKey;
use rand::rngs::OsRng;

#[test]
fn test_cron_every_secs() {
    let s = CronSchedule::every_secs(10);
    assert!(s.should_run(0, 10));
    assert!(s.should_run(0, 20));
    assert!(!s.should_run(0, 5));
}

#[test]
fn test_cron_every_blocks() {
    let s = CronSchedule::every_blocks(100);
    assert!(s.should_run(0, 0));
    assert!(s.should_run(100, 0));
    assert!(s.should_run(200, 0));
    assert!(!s.should_run(50, 0));
}

#[test]
fn test_trigger_condition() {
    let t = Trigger::new(1, TriggerCondition::BlockHeight(5), 10);
    assert!(!t.is_satisfied(4, None, 0));
    assert!(t.is_satisfied(5, None, 0));
    assert!(t.is_satisfied(10, None, 0));
}

#[test]
fn test_block_height_trigger_fires() {
    let mut reg = TriggerRegistry::new();
    reg.register(TriggerCondition::BlockHeight(10), 100);
    let event = ChainEvent::BlockImported {
        height: 10,
        hash: Digest::zero(),
        proposer: AccountId::from_bytes([1u8; 32]),
        tx_count: 0,
    };
    let ctx = EvalContext::new(10, 1000);
    let fired = reg.on_event(&event, &ctx);
    assert_eq!(fired, vec![100]);
}

#[test]
fn test_block_height_trigger_not_yet() {
    let mut reg = TriggerRegistry::new();
    reg.register(TriggerCondition::BlockHeight(10), 100);
    let event = ChainEvent::BlockImported {
        height: 9,
        hash: Digest::zero(),
        proposer: AccountId::from_bytes([1u8; 32]),
        tx_count: 0,
    };
    let ctx = EvalContext::new(9, 999);
    let fired = reg.on_event(&event, &ctx);
    assert!(fired.is_empty());
}

#[test]
fn test_balance_exceeds_trigger() {
    let mut reg = TriggerRegistry::new();
    let account = AccountId::from_bytes([2u8; 32]);
    reg.register(TriggerCondition::BalanceExceeds { account, threshold: 1000 }, 200);
    let event = ChainEvent::BlockImported {
        height: 5,
        hash: Digest::zero(),
        proposer: AccountId::from_bytes([1u8; 32]),
        tx_count: 1,
    };
    let ctx = EvalContext::new(5, 100).with_balance(account, 1500);
    let fired = reg.on_event(&event, &ctx);
    assert_eq!(fired, vec![200]);
}

#[test]
fn test_balance_exceeds_below_threshold() {
    let mut reg = TriggerRegistry::new();
    let account = AccountId::from_bytes([2u8; 32]);
    reg.register(TriggerCondition::BalanceExceeds { account, threshold: 1000 }, 200);
    let ctx = EvalContext::new(5, 100).with_balance(account, 500);
    let event = ChainEvent::BlockImported {
        height: 5,
        hash: Digest::zero(),
        proposer: AccountId::from_bytes([1u8; 32]),
        tx_count: 0,
    };
    let fired = reg.on_event(&event, &ctx);
    assert!(fired.is_empty());
}

#[test]
fn test_timestamp_trigger() {
    let mut reg = TriggerRegistry::new();
    reg.register(TriggerCondition::TimestampAfter(1000), 300);
    let event = ChainEvent::BlockImported {
        height: 0,
        hash: Digest::zero(),
        proposer: AccountId::from_bytes([1u8; 32]),
        tx_count: 0,
    };
    let ctx = EvalContext::new(0, 1500);
    let fired = reg.on_event(&event, &ctx);
    assert_eq!(fired, vec![300]);
}

#[test]
fn test_multiple_triggers_fire() {
    let mut reg = TriggerRegistry::new();
    reg.register(TriggerCondition::BlockHeight(5), 10);
    reg.register(TriggerCondition::BlockHeight(5), 20);
    reg.register(TriggerCondition::BlockHeight(10), 30);
    let event = ChainEvent::BlockImported {
        height: 5,
        hash: Digest::zero(),
        proposer: AccountId::from_bytes([1u8; 32]),
        tx_count: 0,
    };
    let ctx = EvalContext::new(5, 0);
    let fired = reg.on_event(&event, &ctx);
    assert_eq!(fired.len(), 2);
    assert!(fired.contains(&10));
    assert!(fired.contains(&20));
}

#[test]
fn test_executor_attestation_sign_verify() {
    let key = SigningKey::generate(&mut OsRng);
    let executor = AccountId::from_bytes(key.verifying_key().to_bytes());
    let result_hash = boing::hash::hash_bytes(b"result");
    let att = ExecutorAttestation::new(executor, 1, result_hash, 1000, &key.to_bytes());
    assert!(att.verify().is_ok());
}
