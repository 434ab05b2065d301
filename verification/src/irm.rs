//! AdaptiveCurveIRM constants and utilisation.
use crate::math::{lemma_mul_div_down_is_floor, spec_mul_div_down};
use crate::WAD;
use vstd::arithmetic::div_mod::*;
use vstd::prelude::*;

verus! {

/// Seconds per year used by the curve.
pub const SECONDS_PER_YEAR: u128 = 365 * 24 * 60 * 60;

/// Target utilisation (90%).
pub const TARGET_UTILIZATION: u128 = 900_000_000_000_000_000;

/// Curve steepness (4).
pub const CURVE_STEEPNESS: u128 = 4 * WAD;

/// Adjustment speed: 50 per year, expressed per second in WAD.
pub const ADJUSTMENT_SPEED: u128 = 50 * WAD / SECONDS_PER_YEAR;

/// Initial rate at target: 4% per year, per second in WAD.
pub const INITIAL_RATE_AT_TARGET: u128 = 4 * WAD / 100 / SECONDS_PER_YEAR;

/// Minimum rate at target: 0.1% per year, per second in WAD.
pub const MIN_RATE_AT_TARGET: u128 = WAD / 1000 / SECONDS_PER_YEAR;

/// Maximum rate at target: 200% per year, per second in WAD.
pub const MAX_RATE_AT_TARGET: u128 = 2 * WAD / SECONDS_PER_YEAR;

/// Utilisation in WAD: zero when nothing is supplied, else `borrow * WAD / supply`
/// rounded down.
pub open spec fn spec_utilization(total_borrow_assets: u128, total_supply_assets: u128) -> Option<u128> {
    if total_supply_assets == 0 {
        Some(0)
    } else {
        spec_mul_div_down(total_borrow_assets, WAD, total_supply_assets)
    }
}

/// Utilisation = borrow / supply in WAD; zero supply yields zero.
pub fn utilization(total_borrow_assets: u128, total_supply_assets: u128) -> (r: Option<u128>)
    ensures
        r == spec_utilization(total_borrow_assets, total_supply_assets),
{
    if total_supply_assets == 0 {
        return Some(0);
    }
    crate::math::w_div_down(total_borrow_assets, total_supply_assets)
}

/// A market that has lent out no more than is supplied has a utilisation
/// that exists and is at most 100% (`WAD`); it is exactly 100% when
/// everything supplied is borrowed, and zero when nothing is supplied.
pub proof fn lemma_utilization_at_most_one(total_borrow_assets: u128, total_supply_assets: u128)
    requires
        total_borrow_assets <= total_supply_assets,
    ensures
        spec_utilization(total_borrow_assets, total_supply_assets) matches Some(u) && u <= WAD,
        total_supply_assets == 0 ==> spec_utilization(total_borrow_assets, total_supply_assets)
            == Some(0u128),
        0 < total_borrow_assets == total_supply_assets ==> spec_utilization(
            total_borrow_assets,
            total_supply_assets,
        ) == Some(WAD),
{
    if total_supply_assets > 0 {
        let b = total_borrow_assets as int;
        let s = total_supply_assets as int;
        let w = WAD as int;
        assert(b * w <= s * w) by (nonlinear_arith)
            requires
                b <= s,
                w >= 0,
        ;
        lemma_div_is_ordered(b * w, s * w, s);
        lemma_div_by_multiple(w, s);
        assert(s * w == w * s) by (nonlinear_arith);
        lemma_div_pos_is_pos(b * w, s);
    }
}

/// Utilisation over all inputs: zero when nothing is supplied; otherwise the
/// largest `u` with `u * supply <= borrow * 10^18`, refused exactly when that
/// exceeds `u128::MAX`.
pub proof fn lemma_utilization_is_wad_ratio(total_borrow_assets: u128, total_supply_assets: u128)
    ensures
        total_supply_assets == 0 ==> spec_utilization(total_borrow_assets, total_supply_assets)
            == Some(0u128),
        total_supply_assets > 0 ==> (spec_utilization(total_borrow_assets, total_supply_assets)
            is None <==> total_borrow_assets * 1_000_000_000_000_000_000int >= (u128::MAX + 1)
            * total_supply_assets),
        total_supply_assets > 0 ==> (spec_utilization(total_borrow_assets, total_supply_assets)
            matches Some(u) ==> u * total_supply_assets <= total_borrow_assets
            * 1_000_000_000_000_000_000int < u * total_supply_assets + total_supply_assets),
{
    lemma_mul_div_down_is_floor(total_borrow_assets, WAD, total_supply_assets);
}

} // verus!
