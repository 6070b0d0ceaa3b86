//! The test-network faucet: a deterministic account funded at genesis.
//! Never enable it on a main network.

use vstd::prelude::*;

use crate::hash::{blake3_of, hash_bytes};
use crate::signature::{ed25519_pubkey_of, ed25519_public_key};
use crate::types::AccountId;

verus! {

/// Starting balance of the faucet account.
pub const FAUCET_INITIAL_BALANCE: u128 = 10_000_000;

/// Amount dispensed per request.
pub const FAUCET_DISPENSE_AMOUNT: u128 = 1_000;

/// The fixed seed bytes the faucet key is derived from.
pub open spec fn faucet_seed_bytes() -> Seq<u8> {
    seq![0x62u8, 0x6fu8, 0x69u8, 0x6eu8, 0x67u8, 0x2du8, 0x74u8, 0x65u8, 0x73u8, 0x74u8, 0x6eu8, 0x65u8, 0x74u8, 0x2du8, 0x66u8, 0x61u8, 0x75u8, 0x63u8, 0x65u8, 0x74u8, 0x2du8, 0x76u8, 0x31u8]
}

/// The faucet's secret key bytes: the digest of the fixed seed, the same on
/// every test network.
pub fn testnet_faucet_secret() -> (r: [u8; 32])
    ensures
        r@ == blake3_of(faucet_seed_bytes()),
{
    let mut buf: Vec<u8> = Vec::new();
    buf.push(0x62);
    buf.push(0x6f);
    buf.push(0x69);
    buf.push(0x6e);
    buf.push(0x67);
    buf.push(0x2d);
    buf.push(0x74);
    buf.push(0x65);
    buf.push(0x73);
    buf.push(0x74);
    buf.push(0x6e);
    buf.push(0x65);
    buf.push(0x74);
    buf.push(0x2d);
    buf.push(0x66);
    buf.push(0x61);
    buf.push(0x75);
    buf.push(0x63);
    buf.push(0x65);
    buf.push(0x74);
    buf.push(0x2d);
    buf.push(0x76);
    buf.push(0x31);
    proof {
        assert(buf@ =~= faucet_seed_bytes());
    }
    hash_bytes(buf.as_slice()).0
}

/// The faucet's account identifier: the public key of its secret.
pub fn testnet_faucet_account_id() -> (r: AccountId)
    ensures
        r.0@ == ed25519_pubkey_of(blake3_of(faucet_seed_bytes())),
{
    let secret = testnet_faucet_secret();
    AccountId(ed25519_public_key(&secret))
}

} // verus!
