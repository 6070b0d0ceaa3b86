//! Verifiable-randomness carriers and leader selection from a random
//! output.

use vstd::prelude::*;

use crate::hash::Digest;
use crate::types::AccountId;

verus! {

/// A verifiable-delay-function output.
#[derive(Clone, Debug, PartialEq, Eq)]
pub struct VdfOutput {
    pub input: Digest,
    pub output: [u8; 32],
    pub proof: Vec<u8>,
}

/// A verifiable-random-function output.
#[derive(Clone, Debug, PartialEq, Eq)]
pub struct VrfOutput {
    pub proof: Vec<u8>,
    pub output: [u8; 32],
}

/// The index a random output selects: its first eight bytes, little-endian.
pub open spec fn spec_vrf_index(output: Seq<u8>) -> u64 {
    (output[0] as u64) | ((output[1] as u64) << 8) | ((output[2] as u64) << 16) | ((
    output[3] as u64) << 24) | ((output[4] as u64) << 32) | ((output[5] as u64) << 40) | ((
    output[6] as u64) << 48) | ((output[7] as u64) << 56)
}

/// Select the leader a random output elects: the validator at the output's
/// index modulo the set size; nothing for an empty set.
pub fn leader_from_vrf(validators: &Vec<AccountId>, vrf_output: &VrfOutput) -> (r: Option<
    AccountId,
>)
    ensures
        validators@.len() == 0 ==> r matches None,
        validators@.len() > 0 ==> r == Some(
            validators@[spec_vrf_index(vrf_output.output@) as int % validators@.len() as int],
        ),
{
    if validators.len() == 0 {
        return None;
    }
    let o = &vrf_output.output;
    let idx: u64 = (o[0] as u64) | ((o[1] as u64) << 8) | ((o[2] as u64) << 16) | ((o[3] as u64)
        << 24) | ((o[4] as u64) << 32) | ((o[5] as u64) << 40) | ((o[6] as u64) << 48) | ((
    o[7] as u64) << 56);
    let n = validators.len() as u64;
    Some(validators[(idx % n) as usize])
}

/// A placeholder random output for a round: the round number written into
/// the first eight bytes.
pub fn dummy_vrf_output(round: u64) -> (r: VrfOutput)
    ensures
        r.proof@.len() == 0,
        r.output@ == crate::codec::spec_enc_u64(round) + Seq::new(24, |i: int| 0u8),
{
    let mut out = [0u8; 32];
    out[0] = (round & 0xff) as u8;
    out[1] = ((round >> 8) & 0xff) as u8;
    out[2] = ((round >> 16) & 0xff) as u8;
    out[3] = ((round >> 24) & 0xff) as u8;
    out[4] = ((round >> 32) & 0xff) as u8;
    out[5] = ((round >> 40) & 0xff) as u8;
    out[6] = ((round >> 48) & 0xff) as u8;
    out[7] = ((round >> 56) & 0xff) as u8;
    proof {
        assert(out@ =~= crate::codec::spec_enc_u64(round) + Seq::new(24, |i: int| 0u8));
    }
    VrfOutput { proof: Vec::new(), output: out }
}

} // verus!
