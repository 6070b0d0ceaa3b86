//! Quality rules, tokenomics, incentives, and peer-facing configuration.

use boing::dapp::{dapp_incentive, DappMetrics, DappRoyaltySplit, VALUE_CAP_PER_DAPP};
use boing::p2p::{SignalingDepositConfig, SignalingMessage, SignalingMessageKind,
    SignalingRateLimit, StunTurnMetrics, StunTurnReputation, STUN_TURN_REPUTATION_MAX};
use boing::intent::{Intent, IntentKind, IntentPool, SignedIntent};
use boing::qa::{check_contract_deploy, QaResult, DEFAULT_MAX_BYTECODE_SIZE};
use boing::types::AccountId;
use ed25519_dalek::SigningKey;
use rand::rngs::OsRng;

#[test]
fn reject_empty_bytecode() {
    let r = check_contract_deploy(&[], DEFAULT_MAX_BYTECODE_SIZE);
    assert!(matches!(r, QaResult::Reject(_)));
}

#[test]
fn reject_over_size() {
    let big = vec![0u8; DEFAULT_MAX_BYTECODE_SIZE + 1];
    let r = check_contract_deploy(&big, DEFAULT_MAX_BYTECODE_SIZE);
    assert!(matches!(r, QaResult::Reject(_)));
}

#[test]
fn allow_small_bytecode() {
    let r = check_contract_deploy(&[0x00], DEFAULT_MAX_BYTECODE_SIZE);
    assert!(matches!(r, QaResult::Allow));
}

#[test]
fn test_block_emission_year1() {
    assert_eq!(boing::tokenomics::block_emission_validators(0), 0);
    let r1 = boing::tokenomics::block_emission_validators(1);
    assert!(r1 > 0);
    assert!(r1 < 100);
}

#[test]
fn emission_exact_values() {
    assert_eq!(boing::tokenomics::block_emission_validators(1), 3);
    let second_year = boing::tokenomics::BLOCKS_PER_YEAR + 1;
    assert_eq!(boing::tokenomics::block_emission_validators(second_year), 2);
}

#[test]
fn test_dapp_incentive_capped() {
    let m = DappMetrics {
        tx_count: 1_000_000,
        fees_collected: 1_000_000,
        volume: 100_000_000,
        unique_users: 10_000,
    };
    let inc = dapp_incentive(&m);
    assert!(inc <= VALUE_CAP_PER_DAPP);
}

#[test]
fn test_dapp_incentive_zero() {
    let m = DappMetrics::default();
    assert_eq!(dapp_incentive(&m), 0);
}

#[test]
fn test_dapp_royalty_split() {
    let split = DappRoyaltySplit::new(100, 50, 850);
    assert!(split.is_valid());
    let (d, l, t) = split.distribute(10_000);
    assert_eq!(d, 100);
    assert_eq!(l, 50);
    assert_eq!(t, 850);
}

#[test]
fn test_signaling_rate_limit_default() {
    let rl = SignalingRateLimit::default();
    assert_eq!(rl.max_per_window, 5);
    assert_eq!(rl.window_secs, 60);
}

#[test]
fn test_signaling_deposit_config_default() {
    let cfg = SignalingDepositConfig::default();
    assert_eq!(cfg.min_deposit, 100);
    assert_eq!(cfg.expiration_secs, 300);
}

#[test]
fn test_stun_turn_reputation_from_metrics() {
    let m = StunTurnMetrics {
        uptime_bps: 9900,
        avg_latency_ms: 50,
        success_rate_bps: 9800,
        throughput_mb: 100,
    };
    let rep = StunTurnReputation::from_metrics(&m);
    assert!(rep.score > 0);
    assert!(rep.score <= STUN_TURN_REPUTATION_MAX);
}

#[test]
fn test_signaling_message_offer() {
    let msg = SignalingMessage::offer([1u8; 32], [2u8; 32], b"sdp-offer".to_vec());
    assert_eq!(msg.kind, SignalingMessageKind::Offer);
    assert!(msg.payload.is_some());
    assert!(msg.content_pointer.is_none());
}

#[test]
fn test_signaling_message_with_pointer() {
    let msg = SignalingMessage::with_pointer(
        SignalingMessageKind::Offer,
        [1u8; 32],
        [2u8; 32],
        b"QmXyz...".to_vec(),
    );
    assert_eq!(msg.kind, SignalingMessageKind::Offer);
    assert!(msg.payload.is_none());
    assert!(msg.content_pointer.is_some());
    assert_eq!(msg.content_pointer.as_ref().unwrap().cid, b"QmXyz...".to_vec());
}

#[test]
fn gas_config_scales() {
    let cfg = boing::gas::GasConfig::default();
    assert_eq!(cfg.transfer(), 21_000);
    let scaled = boing::gas::GasConfig { multiplier_e4: 15_000 };
    assert_eq!(scaled.transfer(), 31_500);
}

#[test]
fn intent_pool_roundtrip() {
    let key = SigningKey::generate(&mut OsRng);
    let signer = AccountId::from_bytes(key.verifying_key().to_bytes());
    let intent = Intent {
        signer,
        kind: IntentKind::Transfer { to: AccountId::from_bytes([3u8; 32]), amount: 5 },
        nonce: 0,
        deadline_block: 10,
    };
    let signed = SignedIntent::new(intent, &key.to_bytes());
    let mut pool = IntentPool::new();
    assert!(pool.submit(signed).is_ok());
    assert_eq!(pool.len(), 1);
    assert!(!pool.is_empty());
}

#[test]
fn intent_display_exact() {
    let intent = Intent {
        signer: AccountId::from_bytes([1u8; 32]),
        kind: IntentKind::Transfer { to: AccountId::from_bytes([2u8; 32]), amount: 9 },
        nonce: 3,
        deadline_block: 12,
    };
    let key = SigningKey::generate(&mut OsRng);
    let signed = SignedIntent::new(intent, &key.to_bytes());
    assert_eq!(
        signed.display_for_signing(),
        "From: 0101010101010101 | Nonce: 3 | Deadline: #12 | Transfer 9 to 0202020202020202"
    );
}
