use argo::irm::{
    utilization, ADJUSTMENT_SPEED, CURVE_STEEPNESS, INITIAL_RATE_AT_TARGET, MAX_RATE_AT_TARGET,
    MIN_RATE_AT_TARGET, SECONDS_PER_YEAR, TARGET_UTILIZATION,
};
use argo::WAD;

#[test]
fn bounds_are_ordered() {
    assert!(MIN_RATE_AT_TARGET < INITIAL_RATE_AT_TARGET);
    assert!(INITIAL_RATE_AT_TARGET < MAX_RATE_AT_TARGET);
}

#[test]
fn utilization_edges() {
    assert_eq!(utilization(0, 0), Some(0));
    assert_eq!(utilization(50, 100), Some(WAD / 2));
    assert_eq!(utilization(100, 100), Some(WAD));
}

#[test]
fn utilization_at_most_one_examples() {
    assert_eq!(utilization(7, 0), Some(0));
    assert_eq!(utilization(1, 3), Some(333_333_333_333_333_333));
    assert_eq!(utilization(u128::MAX, u128::MAX), Some(WAD));
    // more borrowed than supplied is reported as it is
    assert_eq!(utilization(300, 100), Some(3 * WAD));
    assert_eq!(utilization(u128::MAX, 1), None);
}

#[test]
fn curve_constants() {
    assert_eq!(SECONDS_PER_YEAR, 31_536_000);
    assert_eq!(TARGET_UTILIZATION, 9 * WAD / 10);
    assert_eq!(CURVE_STEEPNESS, 4 * WAD);
    assert_eq!(ADJUSTMENT_SPEED, 1_585_489_599_188);
    assert_eq!(INITIAL_RATE_AT_TARGET, 1_268_391_679);
    assert_eq!(MIN_RATE_AT_TARGET, 31_709_791);
    assert_eq!(MAX_RATE_AT_TARGET, 63_419_583_967);
}
