//! Tokenomics: supply, emission decay, fee split, and the block reward that
//! goes to validators.

use vstd::prelude::*;

verus! {

/// Hard supply cap.
pub const MAX_SUPPLY: u128 = 1_000_000_000;

/// Target block time in seconds.
pub const BLOCK_TIME_SECS: u64 = 2;

/// Blocks per year at the target block time.
pub const BLOCKS_PER_YEAR: u64 = 15_768_000;

/// Validators' share of fees and emission, in basis points.
pub const FEE_VALIDATORS_BPS: u16 = 7_000;

/// Treasury share, in basis points.
pub const FEE_TREASURY_BPS: u16 = 2_000;

/// Burn share, in basis points.
pub const FEE_BURN_BPS: u16 = 1_000;

/// First-year annual inflation, in basis points.
pub const EMISSION_YEAR_1_BPS: u16 = 800;

/// Long-term inflation floor, in basis points.
pub const EMISSION_FLOOR_BPS: u16 = 100;

/// Typical validator commission band, in basis points.
pub const VALIDATOR_COMMISSION_MIN_BPS: u16 = 500;

/// Typical validator commission band, in basis points.
pub const VALIDATOR_COMMISSION_MAX_BPS: u16 = 1_000;

/// dApp incentive cap per epoch.
pub const DAPP_CAP_PER_EPOCH: u128 = 50_000;

/// Integer powers.
pub open spec fn spec_pow(b: nat, n: nat) -> nat
    decreases n,
{
    if n == 0 {
        1
    } else {
        b * spec_pow(b, (n - 1) as nat)
    }
}

/// The first-year per-block emission: the year-one inflation of the supply
/// cap spread over the blocks of a year.
pub open spec fn spec_year1_per_block() -> int {
    MAX_SUPPLY * EMISSION_YEAR_1_BPS / 10_000 / BLOCKS_PER_YEAR as int
}

/// The per-block emission floor.
pub open spec fn spec_floor_per_block() -> int {
    MAX_SUPPLY * EMISSION_FLOOR_BPS / 10_000 / BLOCKS_PER_YEAR as int
}

/// Per-block emission in a year: the first-year rate decayed by 85/100 per
/// elapsed year, floored at the long-term floor.
pub open spec fn spec_emission_per_block(year: nat) -> int {
    let decayed = spec_year1_per_block() * spec_pow(85, year) / spec_pow(100, year) as int;
    if decayed >= spec_floor_per_block() {
        decayed
    } else {
        spec_floor_per_block()
    }
}

/// The validators' share of the per-block emission at a height; height zero
/// carries no reward.
pub open spec fn spec_block_emission_validators(height: u64) -> int {
    if height == 0 {
        0
    } else {
        spec_emission_per_block((((height - 1) as u64 / BLOCKS_PER_YEAR) as nat))
            * FEE_VALIDATORS_BPS / 10_000
    }
}

/// Past year nine the decayed emission is gone.
proof fn lemma_emission_vanishes(year: nat)
    requires
        year >= 10,
    ensures
        spec_year1_per_block() * spec_pow(85, year) < spec_pow(100, year) as int,
    decreases year,
{
    if year == 10 {
        reveal_with_fuel(spec_pow, 12);
        assert(spec_pow(85, 10) == 85 * (85 * (85 * (85 * (85 * (85 * (85 * (85 * (85 * (85
            * spec_pow(85, 0)))))))))));
        assert(spec_pow(100, 10) == 100 * (100 * (100 * (100 * (100 * (100 * (100 * (100 * (100 * (
        100 * spec_pow(100, 0)))))))))));
        assert(spec_year1_per_block() == 5);
    } else {
        lemma_emission_vanishes((year - 1) as nat);
        let p85 = spec_pow(85, (year - 1) as nat);
        let p100 = spec_pow(100, (year - 1) as nat);
        assert(spec_pow(85, year) == 85 * p85);
        assert(spec_pow(100, year) == 100 * p100);
        assert(5 * (85 * p85) == 85 * (5 * p85)) by (nonlinear_arith);
        assert(85 * (5 * p85) <= 85 * p100) by (nonlinear_arith)
            requires
                5 * p85 as int <= p100 as int,
        ;
        assert(85 * p100 < 100 * p100) by (nonlinear_arith)
            requires
                p100 >= 1,
        ;
        assert(p100 >= 1) by {
            lemma_pow_pos(100, (year - 1) as nat);
        }
        assert(spec_year1_per_block() == 5);
    }
}

proof fn lemma_pow_pos(b: nat, n: nat)
    requires
        b >= 1,
    ensures
        spec_pow(b, n) >= 1,
    decreases n,
{
    if n > 0 {
        lemma_pow_pos(b, (n - 1) as nat);
        assert(b * spec_pow(b, (n - 1) as nat) >= 1 * spec_pow(b, (n - 1) as nat))
            by (nonlinear_arith)
            requires
                b >= 1,
                spec_pow(b, (n - 1) as nat) >= 1,
        ;
    }
}

/// The validators' share of the block emission at a height. Height zero
/// yields nothing; the reward decays by fifteen percent a year from five
/// units to nothing after year nine, and the validators receive seventy
/// percent of it.
pub fn block_emission_validators(block_height: u64) -> (r: u128)
    ensures
        r == spec_block_emission_validators(block_height),
{
    if block_height == 0 {
        return 0;
    }
    let year = (block_height - 1) / BLOCKS_PER_YEAR;
    let units: u128 = if year == 0 {
        5
    } else if year == 1 {
        4
    } else if year == 2 || year == 3 {
        3
    } else if year == 4 || year == 5 {
        2
    } else if year <= 9 {
        1
    } else {
        0
    };
    proof {
        let y = year as nat;
        if year <= 9 {
            reveal_with_fuel(spec_pow, 12);
            assert(spec_pow(85, 0) == 1 && spec_pow(100, 0) == 1);
            assert(spec_pow(85, 1) == 85 && spec_pow(100, 1) == 100);
            assert(spec_pow(85, 2) == 7225 && spec_pow(100, 2) == 10000);
            assert(spec_pow(85, 3) == 614125 && spec_pow(100, 3) == 1000000);
            assert(spec_pow(85, 4) == 52200625 && spec_pow(100, 4) == 100000000);
            assert(spec_pow(85, 5) == 4437053125 && spec_pow(100, 5) == 10000000000);
            assert(spec_pow(85, 6) == 377149515625 && spec_pow(100, 6) == 1000000000000);
            assert(spec_pow(85, 7) == 32057708828125 && spec_pow(100, 7) == 100000000000000);
            assert(spec_pow(85, 8) == 2724905250390625 && spec_pow(100, 8) == 10000000000000000);
            assert(spec_pow(85, 9) == 231616946283203125 && spec_pow(100, 9)
                == 1000000000000000000);
            assert(spec_year1_per_block() == 5);
            assert(spec_floor_per_block() == 0);
            if year == 0 {
                assert(spec_emission_per_block(y) == 5);
            } else if year == 1 {
                assert(spec_emission_per_block(y) == 4);
            } else if year == 2 {
                assert(spec_emission_per_block(y) == 3);
            } else if year == 3 {
                assert(spec_emission_per_block(y) == 3);
            } else if year == 4 {
                assert(spec_emission_per_block(y) == 2);
            } else if year == 5 {
                assert(spec_emission_per_block(y) == 2);
            } else if year == 6 {
                assert(spec_emission_per_block(y) == 1);
            } else if year == 7 {
                assert(spec_emission_per_block(y) == 1);
            } else if year == 8 {
                assert(spec_emission_per_block(y) == 1);
            } else {
                assert(spec_emission_per_block(y) == 1);
            }
            assert(spec_emission_per_block(y) == units);
        } else {
            lemma_emission_vanishes(y);
            assert(spec_year1_per_block() * spec_pow(85, y) / spec_pow(100, y) as int == 0) by {
                vstd::arithmetic::div_mod::lemma_basic_div(
                    spec_year1_per_block() * spec_pow(85, y),
                    spec_pow(100, y) as int,
                );
                lemma_pow_pos(85, y);
                assert(spec_year1_per_block() * spec_pow(85, y) >= 0);
            }
            assert(spec_emission_per_block(y) == 0);
        }
    }
    units * 7_000 / 10_000
}

} // verus!
