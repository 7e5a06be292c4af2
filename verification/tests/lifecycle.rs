use openshell_holonomy_consensus::lifecycle::{LamportClock, RetractionReason, TrustState};

#[test]
fn test_trust_state_display() {
    assert_eq!(TrustState::Active.display_name(), "Active");
    assert_eq!(TrustState::Superseded.display_name(), "Superseded");
    assert_eq!(TrustState::Retracted.display_name(), "Retracted");
}

#[test]
fn test_trust_state_equality() {
    assert_eq!(TrustState::Active, TrustState::Active);
    assert_ne!(TrustState::Active, TrustState::Retracted);
    assert_ne!(TrustState::Superseded, TrustState::Retracted);
}

#[test]
fn test_lamport_clock_tick() {
    let mut clock = LamportClock::new();
    assert_eq!(clock.now(), 0);

    let t1 = clock.tick();
    assert_eq!(t1.0, 1);
    assert_eq!(clock.now(), 1);

    let t2 = clock.tick();
    assert_eq!(t2.0, 2);
    assert_eq!(clock.now(), 2);
}

#[test]
fn test_lamport_clock_merge() {
    let mut clock_a = LamportClock::new();
    let mut clock_b = LamportClock::new();

    clock_a.tick();
    clock_a.tick();
    clock_b.tick();

    let merged = clock_a.merge(clock_b);
    assert_eq!(merged.0, 3);
    assert_eq!(clock_a.now(), 3);
}

#[test]
fn test_lamport_clock_merge_symmetry() {
    let mut clock_a = LamportClock::new();
    let mut clock_b = LamportClock::new();

    clock_a.tick();
    clock_b.tick();
    clock_b.tick();
    clock_b.tick();

    let merged_a = clock_a.merge(clock_b);
    assert_eq!(merged_a.0, 4);
}

#[test]
fn test_lamport_clock_ordering() {
    let mut clock = LamportClock::new();
    let t1 = clock.tick();
    let t2 = clock.tick();
    let t3 = clock.tick();

    assert!(t1 < t2);
    assert!(t2 < t3);
    assert!(t1 < t3);
    assert!(!(t3 < t1));
}

#[test]
fn test_lamport_happened_before() {
    let mut clock = LamportClock::new();
    let t1 = clock.tick();
    let t2 = clock.tick();

    assert!(t1.happened_before(&t2));
    assert!(!t2.happened_before(&t1));
    assert!(!t1.happened_before(&t1));
}

#[test]
fn test_lamport_default() {
    let clock = LamportClock::default();
    assert_eq!(clock.now(), 0);
}

#[test]
fn merge_with_earlier_clock_still_advances() {
    let mut a = LamportClock(10);
    let merged = a.merge(LamportClock(3));
    assert_eq!(merged, LamportClock(11));
    assert!(LamportClock(10).happened_before(&merged));
    assert!(LamportClock(3).happened_before(&merged));
}

#[test]
fn retraction_reasons_compare() {
    assert_eq!(RetractionReason::Expired, RetractionReason::Expired);
    assert_ne!(
        RetractionReason::ConstraintViolation { error_mask: 1 },
        RetractionReason::ConstraintViolation { error_mask: 2 }
    );
}
