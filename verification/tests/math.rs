use argo::math::{mul_div_down, mul_div_up, w_div_down, w_div_up, w_mul_down};
use argo::WAD;

#[test]
fn small_values_match_native() {
    assert_eq!(mul_div_down(10, 3, 4), Some(7));
    assert_eq!(mul_div_up(10, 3, 4), Some(8));
    assert_eq!(mul_div_down(u128::MAX, 1, 1), Some(u128::MAX));
    assert_eq!(mul_div_down(u128::MAX, 2, 1), None);
    assert_eq!(mul_div_down(1, 1, 0), None);
}

#[test]
fn matches_native_when_product_fits_examples() {
    let cases: [(u128, u128, u128); 6] = [
        (0, 0, 1),
        (1, 1, 1),
        (12_345_678_901, 98_765_432_109, 7),
        ((1u128 << 64) - 1, (1u128 << 64) - 1, 3),
        (1u128 << 63, 1u128 << 63, u128::MAX - 1),
        (999_999_999, 1_000_000_007, 1_000_000_000),
    ];
    for (x, y, d) in cases {
        let p = x * y;
        assert_eq!(mul_div_down(x, y, d), Some(p / d));
        let up = p / d + u128::from(p % d != 0);
        assert_eq!(mul_div_up(x, y, d), Some(up));
    }
}

#[test]
fn up_is_down_or_down_plus_one_examples() {
    let cases: [(u128, u128, u128); 5] = [
        (u128::MAX, u128::MAX, u128::MAX),
        (u128::MAX, 3, 7),
        (1u128 << 100, 1u128 << 100, (1u128 << 90) + 1),
        (123, 456, 789),
        (u128::MAX - 5, 2, 3),
    ];
    for (x, y, d) in cases {
        if let (Some(dn), Some(up)) = (mul_div_down(x, y, d), mul_div_up(x, y, d)) {
            assert!(up == dn || up == dn + 1);
        }
    }
}

#[test]
fn wide_products_divide_exactly() {
    // (2^128 - 1)^2 / (2^128 - 1) = 2^128 - 1, exact
    assert_eq!(mul_div_down(u128::MAX, u128::MAX, u128::MAX), Some(u128::MAX));
    assert_eq!(mul_div_up(u128::MAX, u128::MAX, u128::MAX), Some(u128::MAX));
    // 2^127 * 4 / 8 = 2^126, through a 256-bit intermediate
    assert_eq!(mul_div_down(1u128 << 127, 4, 8), Some(1u128 << 126));
    // (2^128 - 1) * 3 / 7: 3 * (2^128 - 1) = 1020847100762815390390123822295304634365, /7
    assert_eq!(mul_div_down(u128::MAX, 3, 7), Some(145835300108973627198589117470757804909));
    assert_eq!(mul_div_up(u128::MAX, 3, 7), Some(145835300108973627198589117470757804910));
}

#[test]
fn rounding_up_past_the_top_overflows() {
    // floor is u128::MAX but the division is not exact, so the ceiling overflows
    assert_eq!(mul_div_down(u128::MAX, 2, 2), Some(u128::MAX));
    assert_eq!(mul_div_up(u128::MAX, 2, 2), Some(u128::MAX));
    assert_eq!(mul_div_down(u128::MAX, u128::MAX, u128::MAX - 1), None);
    assert_eq!(mul_div_down(u128::MAX, 3, 3), Some(u128::MAX));
    // u128::MAX * 5 / 4 does not fit
    assert_eq!(mul_div_up(u128::MAX, 5, 4), None);
    assert_eq!(mul_div_up(1, 1, 0), None);
}

#[test]
fn wad_helpers() {
    assert_eq!(w_mul_down(3 * WAD, WAD / 2), Some(3 * WAD / 2));
    assert_eq!(w_mul_down(1, 1), Some(0));
    assert_eq!(w_div_down(1, 3), Some(333_333_333_333_333_333));
    assert_eq!(w_div_up(1, 3), Some(333_333_333_333_333_334));
    assert_eq!(w_div_down(5, 0), None);
    assert_eq!(w_div_up(5, 0), None);
}
