//! Sponsored transactions: a paymaster pays the gas of a user transaction.

use vstd::prelude::*;

use crate::signature::{Signature, SignedTransaction};
use crate::types::AccountId;

verus! {

/// A paymaster's sponsoring policy.
#[derive(Clone, Copy, Debug, PartialEq, Eq)]
pub struct PaymasterConfig {
    /// The account paying the gas.
    pub paymaster: AccountId,
    /// The most gas it sponsors per transaction.
    pub max_gas_per_tx: u64,
}

/// A user transaction whose gas a paymaster covers, with the paymaster's
/// authorization.
#[derive(Clone, Debug)]
pub struct SponsoredTransaction {
    pub inner: SignedTransaction,
    pub paymaster: AccountId,
    pub paymaster_signature: Signature,
}

} // verus!
