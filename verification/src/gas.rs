//! Gas model: base costs per transaction kind and a bounded congestion
//! multiplier, fixed-point with four decimal places.

use vstd::prelude::*;

verus! {

/// Base gas cost of a plain transfer.
pub const GAS_BASE_TRANSFER: u64 = 21_000;
/// Base gas limit of a contract call.
pub const GAS_BASE_CONTRACT_CALL: u64 = 100_000;
/// Base gas cost of a contract deployment.
pub const GAS_BASE_CONTRACT_DEPLOY: u64 = 200_000;
/// Base gas cost of bonding stake.
pub const GAS_BASE_BOND: u64 = 21_000;
/// Base gas cost of unbonding stake.
pub const GAS_BASE_UNBOND: u64 = 21_000;

/// Gas configuration: a multiplier in units of 1/10000 scales the base costs.
/// 10000 means base cost; the multiplier is kept within [10000, 20000].
#[derive(Clone, Copy, Debug)]
pub struct GasConfig {
    /// Fixed-point multiplier: 10000 = 1x, 15000 = 1.5x. At most 20000.
    pub multiplier_e4: u64,
}

impl GasConfig {
    /// A configuration is well formed when the multiplier lies in the
    /// documented band: between 1x and 2x.
    pub open spec fn wf(self) -> bool {
        10_000 <= self.multiplier_e4 <= 20_000
    }

    /// Scaled cost of a base amount under this configuration.
    pub open spec fn spec_gas(self, base: u64) -> u64 {
        ((base * self.multiplier_e4) / 10_000) as u64
    }

    /// Scale a base cost by the multiplier.
    pub fn gas(&self, base: u64) -> (r: u64)
        requires
            self.wf(),
            base <= 1_000_000,
        ensures
            r == self.spec_gas(base),
            base <= r <= 2 * base,
    {
        proof {
            let b = base as int;
            let m = self.multiplier_e4 as int;
            assert(b * m <= 1_000_000 * 20_000 && b * 10_000 <= b * m <= b * 20_000)
                by (nonlinear_arith)
                requires
                    0 <= b <= 1_000_000,
                    10_000 <= m <= 20_000,
            ;
            assert(b <= (b * m) / 10_000 <= 2 * b) by (nonlinear_arith)
                requires
                    0 <= b,
                    b * 10_000 <= b * m <= b * 20_000,
            ;
        }
        (base * self.multiplier_e4) / 10_000
    }

    /// Gas charged for a transfer.
    pub fn transfer(&self) -> (r: u64)
        requires
            self.wf(),
        ensures
            r == self.spec_gas(GAS_BASE_TRANSFER),
    {
        self.gas(GAS_BASE_TRANSFER)
    }

    /// Gas limit for a contract call.
    pub fn contract_call(&self) -> (r: u64)
        requires
            self.wf(),
        ensures
            r == self.spec_gas(GAS_BASE_CONTRACT_CALL),
    {
        self.gas(GAS_BASE_CONTRACT_CALL)
    }

    /// Gas charged for a contract deployment.
    pub fn contract_deploy(&self) -> (r: u64)
        requires
            self.wf(),
        ensures
            r == self.spec_gas(GAS_BASE_CONTRACT_DEPLOY),
    {
        self.gas(GAS_BASE_CONTRACT_DEPLOY)
    }

    /// Upper bound on the gas of any single transaction: twice the cost of the
    /// most expensive kind, scaled.
    pub fn max_tx_gas(&self) -> (r: u64)
        requires
            self.wf(),
        ensures
            r == self.spec_gas((2 * GAS_BASE_CONTRACT_DEPLOY) as u64),
    {
        self.gas(2 * GAS_BASE_CONTRACT_DEPLOY)
    }
}

impl Default for GasConfig {
    /// The default configuration charges exactly the base costs.
    fn default() -> (r: Self)
        ensures
            r.multiplier_e4 == 10_000,
    {
        GasConfig { multiplier_e4: 10_000 }
    }
}

} // verus!
