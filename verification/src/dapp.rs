//! Success-based dApp incentives: the scoring formula with its value cap,
//! royalty splits, and the in-memory registration of contracts.

use vstd::prelude::*;

use crate::types::{id_eq, AccountId};

verus! {

/// Value cap per dApp per epoch.
pub const VALUE_CAP_PER_DAPP: u128 = 10_000_000;

/// Weight of the transaction count in the score.
pub const WEIGHT_TX_COUNT: u64 = 1;

/// Weight of collected fees in the score.
pub const WEIGHT_FEES: u64 = 10;

/// Weight of volume in the score.
pub const WEIGHT_VOLUME: u64 = 5;

/// Success metrics of a dApp over an epoch.
#[derive(Clone, Copy, Debug)]
pub struct DappMetrics {
    pub tx_count: u64,
    pub fees_collected: u128,
    pub volume: u128,
    pub unique_users: u64,
}

impl Default for DappMetrics {
    fn default() -> (r: Self)
        ensures
            r.tx_count == 0 && r.fees_collected == 0 && r.volume == 0 && r.unique_users == 0,
    {
        DappMetrics { tx_count: 0, fees_collected: 0, volume: 0, unique_users: 0 }
    }
}

/// The incentive formula: weighted transaction count, scaled fees and
/// volume, with saturating arithmetic, capped.
pub open spec fn spec_dapp_incentive(m: DappMetrics) -> u128 {
    let score = crate::vm::spec_sat_add_u128(
        crate::vm::spec_sat_add_u128(
            crate::vm::spec_sat_mul_u128(m.tx_count as u128, WEIGHT_TX_COUNT as u128),
            (crate::vm::spec_sat_mul_u128(m.fees_collected, WEIGHT_FEES as u128) / 1000) as u128,
        ),
        (crate::vm::spec_sat_mul_u128(m.volume, WEIGHT_VOLUME as u128) / 1_000_000) as u128,
    );
    if score > VALUE_CAP_PER_DAPP {
        VALUE_CAP_PER_DAPP
    } else {
        score
    }
}

/// The incentive a dApp earns for its metrics, capped.
pub fn dapp_incentive(metrics: &DappMetrics) -> (r: u128)
    ensures
        r == spec_dapp_incentive(*metrics),
        r <= VALUE_CAP_PER_DAPP,
{
    let score = crate::vm::sat_add_u128(
        crate::vm::sat_add_u128(
            crate::vm::sat_mul_u128(metrics.tx_count as u128, WEIGHT_TX_COUNT as u128),
            crate::vm::sat_mul_u128(metrics.fees_collected, WEIGHT_FEES as u128) / 1000,
        ),
        crate::vm::sat_mul_u128(metrics.volume, WEIGHT_VOLUME as u128) / 1_000_000,
    );
    if score > VALUE_CAP_PER_DAPP {
        VALUE_CAP_PER_DAPP
    } else {
        score
    }
}

/// A registered dApp: its contract and the owner collecting incentives.
#[derive(Clone, Copy, Debug)]
pub struct DappRegistration {
    pub contract: AccountId,
    pub owner: AccountId,
}

/// Royalty split of dApp fees, in basis points.
#[derive(Clone, Copy, Debug)]
pub struct DappRoyaltySplit {
    pub developer_bps: u16,
    pub library_bps: u16,
    pub treasury_bps: u16,
}

impl Default for DappRoyaltySplit {
    fn default() -> (r: Self)
        ensures
            r.developer_bps == 0 && r.library_bps == 0 && r.treasury_bps == 0,
    {
        DappRoyaltySplit { developer_bps: 0, library_bps: 0, treasury_bps: 0 }
    }
}

impl DappRoyaltySplit {
    pub fn new(developer_bps: u16, library_bps: u16, treasury_bps: u16) -> (r: Self)
        ensures
            r.developer_bps == developer_bps,
            r.library_bps == library_bps,
            r.treasury_bps == treasury_bps,
    {
        DappRoyaltySplit { developer_bps, library_bps, treasury_bps }
    }

    /// A split is valid when the shares total at most one hundred percent.
    pub fn is_valid(&self) -> (r: bool)
        ensures
            r == (self.developer_bps + self.library_bps + self.treasury_bps <= 10_000),
    {
        (self.developer_bps as u32) + (self.library_bps as u32) + (self.treasury_bps as u32)
            <= 10_000
    }

    /// Split an amount into developer, library, and treasury shares.
    pub fn distribute(&self, amount: u128) -> (r: (u128, u128, u128))
        requires
            amount <= 0xffff_ffff_ffff_ffff_ffff_ffff_ffff,
        ensures
            r.0 == amount * self.developer_bps / 10_000,
            r.1 == amount * self.library_bps / 10_000,
            r.2 == amount * self.treasury_bps / 10_000,
    {
        proof {
            assert(amount * self.developer_bps <= 0xffff_ffff_ffff_ffff_ffff_ffff_ffff * 0xffff)
                by (nonlinear_arith)
                requires
                    amount <= 0xffff_ffff_ffff_ffff_ffff_ffff_ffff,
                    self.developer_bps <= 0xffff,
            ;
            assert(amount * self.library_bps <= 0xffff_ffff_ffff_ffff_ffff_ffff_ffff * 0xffff)
                by (nonlinear_arith)
                requires
                    amount <= 0xffff_ffff_ffff_ffff_ffff_ffff_ffff,
                    self.library_bps <= 0xffff,
            ;
            assert(amount * self.treasury_bps <= 0xffff_ffff_ffff_ffff_ffff_ffff_ffff * 0xffff)
                by (nonlinear_arith)
                requires
                    amount <= 0xffff_ffff_ffff_ffff_ffff_ffff_ffff,
                    self.treasury_bps <= 0xffff,
            ;
        }
        let d = amount * (self.developer_bps as u128) / 10_000;
        let l = amount * (self.library_bps as u128) / 10_000;
        let t = amount * (self.treasury_bps as u128) / 10_000;
        (d, l, t)
    }
}

/// In-memory store of dApp registrations, one per contract.
pub struct DappRegistry {
    registrations: Vec<DappRegistration>,
}

impl DappRegistry {
    /// The registrations, in registration order.
    pub closed spec fn spec_registrations(&self) -> Seq<DappRegistration> {
        self.registrations@
    }

    /// One registration per contract.
    pub closed spec fn wf(&self) -> bool {
        forall|i: int, j: int|
            0 <= i < j < self.registrations@.len() ==> (
            #[trigger] self.registrations@[i]).contract != (
            #[trigger] self.registrations@[j]).contract
    }

    pub fn new() -> (r: Self)
        ensures
            r.wf(),
            r.spec_registrations().len() == 0,
    {
        DappRegistry { registrations: Vec::new() }
    }

    /// Register a contract for incentive tracking; re-registration replaces
    /// the owner.
    pub fn register(&mut self, contract: AccountId, owner: AccountId) -> (r: bool)
        requires
            old(self).wf(),
        ensures
            final(self).wf(),
            r == true,
            exists|i: int|
                0 <= i < final(self).spec_registrations().len() && (#[trigger] final(self).spec_registrations()[i]).contract == contract && final(self).spec_registrations()[i].owner == owner,
    {
        let mut i: usize = 0;
        let n = self.registrations.len();
        while i < n
            invariant
                0 <= i <= n,
                *self == *old(self),
                old(self).wf(),
                n == self.registrations@.len(),
                forall|j: int|
                    0 <= j < i ==> (#[trigger] self.registrations@[j]).contract != contract,
            decreases n - i,
        {
            if id_eq(&self.registrations[i].contract, &contract) {
                let upd = DappRegistration { contract, owner };
                self.registrations.remove(i);
                self.registrations.insert(i, upd);
                proof {
                    assert(self.registrations@ =~= old(self).spec_registrations().update(
                        i as int,
                        upd,
                    ));
                    assert(self.spec_registrations()[i as int].contract == contract
                        && self.spec_registrations()[i as int].owner == owner);
                }
                return true;
            }
            i = i + 1;
        }
        self.registrations.push(DappRegistration { contract, owner });
        proof {
            assert(self.spec_registrations()[self.spec_registrations().len() - 1].contract
                == contract && self.spec_registrations()[self.spec_registrations().len()
                - 1].owner == owner);
        }
        true
    }

    /// The registrations, for listing.
    pub fn list(&self) -> (r: &Vec<DappRegistration>)
        ensures
            r@ == self.spec_registrations(),
    {
        &self.registrations
    }

    /// Whether a contract is registered.
    pub fn is_registered(&self, contract: &AccountId) -> (r: bool)
        ensures
            r == exists|i: int|
                0 <= i < self.spec_registrations().len() && (
                #[trigger] self.spec_registrations()[i]).contract == *contract,
    {
        let mut i: usize = 0;
        let n = self.registrations.len();
        while i < n
            invariant
                0 <= i <= n,
                n == self.registrations@.len(),
                forall|j: int|
                    0 <= j < i ==> (#[trigger] self.registrations@[j]).contract != *contract,
            decreases n - i,
        {
            if id_eq(&self.registrations[i].contract, contract) {
                proof {
                    assert(self.spec_registrations()[i as int].contract == *contract);
                }
                return true;
            }
            i = i + 1;
        }
        false
    }
}

impl Default for DappRegistry {
    fn default() -> (r: Self)
        ensures
            r.wf(),
            r.spec_registrations().len() == 0,
    {
        DappRegistry::new()
    }
}

} // verus!
