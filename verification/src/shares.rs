//! Virtual-share conversions (Morpho Blue semantics): round down for supply,
//! up for borrow.
use crate::math::{
    ceil_div,
    fit_u128,
    lemma_mul_div_down_is_floor,
    lemma_mul_div_up_is_ceiling,
    mul_div_down,
    mul_div_up,
    spec_mul_div_down,
    spec_mul_div_up,
};
use crate::{VIRTUAL_ASSETS, VIRTUAL_SHARES};
use vstd::arithmetic::div_mod::*;
use vstd::prelude::*;

verus! {

/// `v + k` as a `u128`, or `None` when the sum overflows.
pub open spec fn spec_add_checked(v: u128, k: u128) -> Option<u128> {
    fit_u128(v + k)
}

/// Shares worth `assets` at the given totals, in the rounding that `up` selects.
pub open spec fn spec_to_shares(assets: u128, total_assets: u128, total_shares: u128, up: bool) -> Option<u128> {
    match (spec_add_checked(total_shares, VIRTUAL_SHARES), spec_add_checked(total_assets, VIRTUAL_ASSETS)) {
        (Some(s), Some(a)) => if up {
            spec_mul_div_up(assets, s, a)
        } else {
            spec_mul_div_down(assets, s, a)
        },
        _ => None,
    }
}

/// Assets worth `shares` at the given totals, in the rounding that `up` selects.
pub open spec fn spec_to_assets(shares: u128, total_assets: u128, total_shares: u128, up: bool) -> Option<u128> {
    match (spec_add_checked(total_assets, VIRTUAL_ASSETS), spec_add_checked(total_shares, VIRTUAL_SHARES)) {
        (Some(a), Some(s)) => if up {
            spec_mul_div_up(shares, a, s)
        } else {
            spec_mul_div_down(shares, a, s)
        },
        _ => None,
    }
}

/// Shares minted for `assets`, rounding down.
pub fn to_shares_down(assets: u128, total_assets: u128, total_shares: u128) -> (r: Option<u128>)
    ensures
        r == spec_to_shares(assets, total_assets, total_shares, false),
{
    mul_div_down(
        assets,
        total_shares.checked_add(VIRTUAL_SHARES)?,
        total_assets.checked_add(VIRTUAL_ASSETS)?,
    )
}

/// Assets for `shares`, rounding down.
pub fn to_assets_down(shares: u128, total_assets: u128, total_shares: u128) -> (r: Option<u128>)
    ensures
        r == spec_to_assets(shares, total_assets, total_shares, false),
{
    mul_div_down(
        shares,
        total_assets.checked_add(VIRTUAL_ASSETS)?,
        total_shares.checked_add(VIRTUAL_SHARES)?,
    )
}

/// Shares for `assets`, rounding up.
pub fn to_shares_up(assets: u128, total_assets: u128, total_shares: u128) -> (r: Option<u128>)
    ensures
        r == spec_to_shares(assets, total_assets, total_shares, true),
{
    mul_div_up(
        assets,
        total_shares.checked_add(VIRTUAL_SHARES)?,
        total_assets.checked_add(VIRTUAL_ASSETS)?,
    )
}

/// Assets for `shares`, rounding up.
pub fn to_assets_up(shares: u128, total_assets: u128, total_shares: u128) -> (r: Option<u128>)
    ensures
        r == spec_to_assets(shares, total_assets, total_shares, true),
{
    mul_div_up(
        shares,
        total_assets.checked_add(VIRTUAL_ASSETS)?,
        total_shares.checked_add(VIRTUAL_SHARES)?,
    )
}

/// Converting assets to shares and straight back, both rounding down, never
/// returns more assets than went in.
pub proof fn lemma_round_trip_never_gains(assets: u128, total_assets: u128, total_shares: u128)
    ensures
        spec_to_shares(assets, total_assets, total_shares, false) matches Some(s) ==> (
        spec_to_assets(s, total_assets, total_shares, false) matches Some(back) ==> back <= assets),
{
    if let Some(s) = spec_to_shares(assets, total_assets, total_shares, false) {
        if let Some(back) = spec_to_assets(s, total_assets, total_shares, false) {
            let sv = total_shares + VIRTUAL_SHARES;
            let av = total_assets + VIRTUAL_ASSETS;
            // s = floor(assets * sv / av), so s * av <= assets * sv
            lemma_fundamental_div_mod(assets * sv, av);
            lemma_mod_bound(assets * sv, av);
            assert(s * av <= assets * sv) by (nonlinear_arith)
                requires
                    s == (assets * sv) / av,
                    assets * sv == av * ((assets * sv) / av) + (assets * sv) % av,
                    (assets * sv) % av >= 0,
            ;
            // back = floor(s * av / sv) <= floor(assets * sv / sv) = assets
            lemma_div_is_ordered(s * av, assets * sv, sv);
            lemma_div_by_multiple(assets as int, sv);
            assert(back == (s * av) / sv);
        }
    }
}

/// Rounding direction of the conversions: the rounded-down amount is never
/// worth more than the input at the virtual exchange rate, the rounded-up
/// amount never less, and they differ by at most one.
pub proof fn lemma_rounding_direction(amount: u128, total_assets: u128, total_shares: u128)
    ensures
        spec_to_shares(amount, total_assets, total_shares, false) matches Some(s) ==> s * (
        total_assets + VIRTUAL_ASSETS) <= amount * (total_shares + VIRTUAL_SHARES),
        spec_to_shares(amount, total_assets, total_shares, true) matches Some(s) ==> s * (
        total_assets + VIRTUAL_ASSETS) >= amount * (total_shares + VIRTUAL_SHARES),
        spec_to_assets(amount, total_assets, total_shares, false) matches Some(a) ==> a * (
        total_shares + VIRTUAL_SHARES) <= amount * (total_assets + VIRTUAL_ASSETS),
        spec_to_assets(amount, total_assets, total_shares, true) matches Some(a) ==> a * (
        total_shares + VIRTUAL_SHARES) >= amount * (total_assets + VIRTUAL_ASSETS),
        (spec_to_shares(amount, total_assets, total_shares, false), spec_to_shares(
            amount,
            total_assets,
            total_shares,
            true,
        )) matches (Some(dn), Some(up)) ==> dn <= up <= dn + 1,
        (spec_to_assets(amount, total_assets, total_shares, false), spec_to_assets(
            amount,
            total_assets,
            total_shares,
            true,
        )) matches (Some(dn), Some(up)) ==> dn <= up <= dn + 1,
{
    let sv = total_shares + VIRTUAL_SHARES;
    let av = total_assets + VIRTUAL_ASSETS;
    lemma_floor_ceil_bracket(amount * sv, av);
    lemma_floor_ceil_bracket(amount * av, sv);
}

/// For `n >= 0` and `d > 0`: `floor(n / d) * d <= n <= ceil(n / d) * d`, and
/// the ceiling exceeds the floor by at most one.
proof fn lemma_floor_ceil_bracket(n: int, d: int)
    requires
        n >= 0,
        d > 0,
    ensures
        (n / d) * d <= n,
        ceil_div(n, d) * d >= n,
        n / d <= ceil_div(n, d) <= n / d + 1,
{
    lemma_fundamental_div_mod(n, d);
    lemma_mod_bound(n, d);
    let q = n / d;
    let r = n % d;
    assert(q * d <= n) by (nonlinear_arith)
        requires
            n == d * q + r,
            r >= 0,
    ;
    assert((q + 1) * d >= n) by (nonlinear_arith)
        requires
            n == d * q + r,
            r < d,
    ;
    if r == 0 {
        assert(q * d == n) by (nonlinear_arith)
            requires
                n == d * q + r,
                r == 0,
        ;
    }
}

/// An empty market mints `VIRTUAL_SHARES` shares per unit of assets, so a
/// first depositor never starts out owning the whole market's share supply
/// at a one-to-one rate.
pub proof fn lemma_empty_market_first_deposit(assets: u128)
    ensures
        spec_to_shares(assets, 0, 0, false) == fit_u128(assets * VIRTUAL_SHARES),
{
    assert((assets * VIRTUAL_SHARES) / 1 == assets * VIRTUAL_SHARES);
}

/// The share conversions over all inputs, with `sv = total_shares + 1_000_000`
/// and `av = total_assets + 1` the virtual totals: rounding down gives the
/// largest `s` with `s * av <= assets * sv`, rounding up the smallest `s`
/// with `s * av >= assets * sv`; each is refused exactly when a virtual total
/// or the result does not fit in 128 bits.
pub proof fn lemma_to_shares_over_virtual_totals(assets: u128, total_assets: u128, total_shares: u128)
    ensures
        ({
            let sv = total_shares + 1_000_000;
            let av = total_assets + 1;
            &&& spec_to_shares(assets, total_assets, total_shares, false) is None <==> (sv > u128::MAX
                || av > u128::MAX || assets * sv >= (u128::MAX + 1) * av)
            &&& spec_to_shares(assets, total_assets, total_shares, false) matches Some(s) ==> s * av
                <= assets * sv < s * av + av
            &&& spec_to_shares(assets, total_assets, total_shares, true) is None <==> (sv > u128::MAX
                || av > u128::MAX || assets * sv > u128::MAX * av)
            &&& spec_to_shares(assets, total_assets, total_shares, true) matches Some(s) ==> assets
                * sv <= s * av < assets * sv + av
        }),
{
    let sv = total_shares + 1_000_000;
    let av = total_assets + 1;
    if sv <= u128::MAX && av <= u128::MAX {
        lemma_mul_div_down_is_floor(assets, sv as u128, av as u128);
        lemma_mul_div_up_is_ceiling(assets, sv as u128, av as u128);
    }
}

/// The asset conversions over all inputs, with `av = total_assets + 1` and
/// `sv = total_shares + 1_000_000` the virtual totals: rounding down gives the
/// largest `a` with `a * sv <= shares * av`, rounding up the smallest `a`
/// with `a * sv >= shares * av`; each is refused exactly when a virtual total
/// or the result does not fit in 128 bits.
pub proof fn lemma_to_assets_over_virtual_totals(shares: u128, total_assets: u128, total_shares: u128)
    ensures
        ({
            let sv = total_shares + 1_000_000;
            let av = total_assets + 1;
            &&& spec_to_assets(shares, total_assets, total_shares, false) is None <==> (sv > u128::MAX
                || av > u128::MAX || shares * av >= (u128::MAX + 1) * sv)
            &&& spec_to_assets(shares, total_assets, total_shares, false) matches Some(a) ==> a * sv
                <= shares * av < a * sv + sv
            &&& spec_to_assets(shares, total_assets, total_shares, true) is None <==> (sv > u128::MAX
                || av > u128::MAX || shares * av > u128::MAX * sv)
            &&& spec_to_assets(shares, total_assets, total_shares, true) matches Some(a) ==> shares
                * av <= a * sv < shares * av + sv
        }),
{
    let sv = total_shares + 1_000_000;
    let av = total_assets + 1;
    if sv <= u128::MAX && av <= u128::MAX {
        lemma_mul_div_down_is_floor(shares, av as u128, sv as u128);
        lemma_mul_div_up_is_ceiling(shares, av as u128, sv as u128);
    }
}

} // verus!
