use argo::shares::{to_assets_down, to_assets_up, to_shares_down, to_shares_up};
use argo::VIRTUAL_SHARES;

#[test]
fn empty_market_first_deposit_is_not_100_percent() {
    // 1 wei into an empty market yields VIRTUAL_SHARES-scaled shares, so a
    // later donation cannot make the first depositor own the market.
    let s = to_shares_down(1, 0, 0);
    assert_eq!(s, Some(VIRTUAL_SHARES));
}

#[test]
fn round_trip_never_gains() {
    let (ta, ts) = (1_000_000_000u128, 999_000_000u128);
    for a in [1u128, 7, 1_000, 123_456_789] {
        let s = to_shares_down(a, ta, ts).expect("fits");
        let back = to_assets_down(s, ta, ts).expect("fits");
        assert!(back <= a);
    }
}

#[test]
fn empty_market_scales_every_deposit() {
    assert_eq!(to_shares_down(5_000, 0, 0), Some(5_000 * VIRTUAL_SHARES));
    assert_eq!(to_shares_down(u128::MAX, 0, 0), None);
}

#[test]
fn rounding_direction_examples() {
    // 10 assets at totals (2, 0): shares = 10 * 1_000_000 / 3
    assert_eq!(to_shares_down(10, 2, 0), Some(3_333_333));
    assert_eq!(to_shares_up(10, 2, 0), Some(3_333_334));
    // 5 shares at totals (6, 999_999): assets = 5 * 7 / 1_999_999
    assert_eq!(to_assets_down(5, 6, 999_999), Some(0));
    assert_eq!(to_assets_up(5, 6, 999_999), Some(1));
    assert_eq!(to_assets_down(2_000_000, 6, 1_000_000), Some(7));
    assert_eq!(to_assets_up(2_000_000, 6, 1_000_000), Some(7));
}

#[test]
fn totals_near_the_top_overflow() {
    assert_eq!(to_shares_down(1, u128::MAX, 0), None);
    assert_eq!(to_shares_up(1, 0, u128::MAX), None);
    assert_eq!(to_assets_down(1, u128::MAX, 0), None);
    assert_eq!(to_assets_up(1, 0, u128::MAX - 999_999), None);
    assert_eq!(to_assets_up(1, 0, u128::MAX - 1_000_000), Some(1));
}
