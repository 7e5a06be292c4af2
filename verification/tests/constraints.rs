use openshell_holonomy_consensus::constraints::{sat8, ConstraintResult, HolonomyBounds};

fn check(deviation: f64, bounds: &HolonomyBounds) -> ConstraintResult {
    ConstraintResult::check_scaled((deviation * 1000.0) as i32, bounds)
}

#[test]
fn test_sat8_identity() {
    assert_eq!(sat8(0), 0);
    assert_eq!(sat8(127), 127);
    assert_eq!(sat8(-127), -127);
}

#[test]
fn test_sat8_clamp() {
    assert_eq!(sat8(128), 127);
    assert_eq!(sat8(-128), -127);
    assert_eq!(sat8(1000), 127);
    assert_eq!(sat8(-1000), -127);
}

#[test]
fn test_sat8_negation_symmetry() {
    assert_eq!(sat8(-128), -sat8(128));
    assert_eq!(sat8(-200), -sat8(200));
    assert_eq!(sat8(-50), -sat8(50));
}

#[test]
fn test_sat8_monotonicity() {
    assert!(sat8(-200) <= sat8(-100));
    assert!(sat8(-100) <= sat8(0));
    assert!(sat8(0) <= sat8(100));
    assert!(sat8(100) <= sat8(200));
}

#[test]
fn test_addition_closed() {
    assert_eq!(sat8(sat8(100) + sat8(100)), 127);
    assert_eq!(sat8(sat8(-100) + sat8(-100)), -127);
}

#[test]
fn sat8_extremes() {
    assert_eq!(sat8(i32::MAX), 127);
    assert_eq!(sat8(i32::MIN), -127);
    assert_eq!(sat8(sat8(5000)), sat8(5000));
}

#[test]
fn test_constraint_pass() {
    let bounds = HolonomyBounds::default();
    let result = check(0.005, &bounds); // 5 -> within 10
    assert!(result.pass);
    assert_eq!(result.error_mask, 0);
    assert_eq!(result.deviation, 5);
}

#[test]
fn test_constraint_fail() {
    let bounds = HolonomyBounds::default();
    let result = check(0.015, &bounds); // 15 -> exceeds 10
    assert!(!result.pass);
    assert_ne!(result.error_mask & 0x01, 0);
}

#[test]
fn test_constraint_saturation_warning() {
    let bounds = HolonomyBounds::default();
    let result = check(0.5, &bounds); // 500 -> saturates to 127
    assert!(!result.pass);
    assert_ne!(result.error_mask & 0x02, 0);
    assert_eq!(result.deviation, 127);
}

#[test]
fn test_batch_check() {
    let bounds = HolonomyBounds::default();
    let deviations = [0.001, 0.005, 0.015, 0.5];
    let results: Vec<ConstraintResult> = deviations.iter().map(|d| check(*d, &bounds)).collect();
    assert!(results[0].pass);
    assert!(results[1].pass);
    assert!(!results[2].pass);
    assert!(!results[3].pass);
}

#[test]
fn default_bounds() {
    let bounds = HolonomyBounds::default();
    assert_eq!(bounds.max_deviation, 10);
    assert_eq!(bounds.max_cycle_age, 100);
    assert_eq!(bounds.min_agreement, 7);
}

#[test]
fn check_scaled_masks() {
    let bounds = HolonomyBounds::default();
    let edge = ConstraintResult::check_scaled(10, &bounds);
    assert!(edge.pass);
    assert_eq!(edge.error_mask, 0);
    let negative = ConstraintResult::check_scaled(-11, &bounds);
    assert!(!negative.pass);
    assert_eq!(negative.error_mask, 1);
    assert_eq!(negative.deviation, -11);
    let both = ConstraintResult::check_scaled(-300, &bounds);
    assert_eq!(both.error_mask, 3);
    assert_eq!(both.deviation, -127);
    let wide = HolonomyBounds { max_deviation: 200, max_cycle_age: 1, min_agreement: 1 };
    let saturated_only = ConstraintResult::check_scaled(300, &wide);
    assert!(saturated_only.pass);
    assert_eq!(saturated_only.error_mask, 2);
}
