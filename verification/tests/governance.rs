//! Phased governance and the slashing appeal flow.

use boing::governance::{Governance, ProposalPhase};
use boing::slashing::{SlashReason, SlashRegistry};

#[test]
fn test_phased_governance() {
    let mut gov = Governance::new(10, 100);
    let id = gov.propose(b"gas_multiplier".to_vec(), vec![150]);
    assert_eq!(gov.get(id).unwrap().phase, ProposalPhase::Proposal);
    let t0 = 0u64;
    gov.advance_to_cooling(id, t0).unwrap();
    assert_eq!(gov.get(id).unwrap().phase, ProposalPhase::Cooling);
    let t1 = 11u64;
    gov.advance_to_execution(id, t1).unwrap();
    assert_eq!(gov.get(id).unwrap().phase, ProposalPhase::Execution);
    let (k, v) = gov.execute(id, t1).unwrap();
    assert_eq!(k, b"gas_multiplier".to_vec());
    assert_eq!(v, vec![150]);
}

#[test]
fn cooling_cannot_be_skipped() {
    let mut gov = Governance::new(10, 100);
    let id = gov.propose(b"k".to_vec(), vec![1]);
    gov.advance_to_cooling(id, 0).unwrap();
    assert!(matches!(
        gov.advance_to_execution(id, 5),
        Err(boing::governance::GovernanceError::CoolingNotEnded)
    ));
}

#[test]
fn test_slash_and_appeal() {
    let mut reg = SlashRegistry::new();
    let validator = [1u8; 32];
    let slash_id = reg.record_slash(validator, 1000, SlashReason::Equivocation, 100, 1000);
    assert_eq!(slash_id, 1);
    assert!(!reg.is_slash_reversed(slash_id));
    let appeal_id = reg.submit_appeal(slash_id, b"evidence".to_vec()).unwrap();
    assert_eq!(appeal_id, 1);
    assert!(reg.submit_appeal(slash_id, vec![]).is_err());
    reg.resolve_appeal(appeal_id, true).unwrap();
    assert!(reg.is_slash_reversed(slash_id));
}

#[test]
fn test_appeal_rejected() {
    let mut reg = SlashRegistry::new();
    let slash_id = reg.record_slash([2u8; 32], 500, SlashReason::Liveness, 50, 100);
    let appeal_id = reg.submit_appeal(slash_id, vec![]).unwrap();
    reg.resolve_appeal(appeal_id, false).unwrap();
    assert!(!reg.is_slash_reversed(slash_id));
}
