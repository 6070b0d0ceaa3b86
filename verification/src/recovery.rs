//! Social recovery: guardians approve handing an account to a new owner
//! after a time lock.

use vstd::prelude::*;

use crate::signature::Signature;
use crate::types::AccountId;

verus! {

/// A guardian, with its weight in threshold schemes.
#[derive(Clone, Copy, Debug, PartialEq, Eq)]
pub struct Guardian {
    pub account: AccountId,
    pub weight: u32,
}

/// A request to recover an account: the new owner, the guardians'
/// approvals, and the height the request becomes executable at.
#[derive(Clone, Debug)]
pub struct RecoveryRequest {
    pub target: AccountId,
    pub new_owner: AccountId,
    pub guardian_approvals: Vec<(AccountId, Signature)>,
    pub executable_after_block: u64,
}

} // verus!
