use openshell_holonomy_consensus::constraints::{ConstraintResult, HolonomyBounds};
use openshell_holonomy_consensus::lifecycle::{LamportClock, RetractionReason, TrustState};
use openshell_holonomy_consensus::trust_lifecycle::{
    ConsensusOutcome, LifecycleError, TrustPool, TrustTile,
};

/// The outcome of a holonomy check around a ring of `n_tiles` tiles, each
/// rotating by `angle` about one axis: the cycle's holonomy is a rotation by
/// `n_tiles * angle`, and its deviation is the Frobenius norm of `R - I`.
fn make_consensus(n_tiles: u64, angle: f64) -> ConsensusOutcome {
    let tolerance = 0.01;
    let theta = angle * n_tiles as f64;
    let (s, c) = theta.sin_cos();
    let deviation = (2.0 * (1.0 - c) * (1.0 - c) + 2.0 * s * s).sqrt();
    ConsensusOutcome {
        is_consistent: deviation < tolerance,
        deviation_bits: deviation.to_bits(),
        scaled_deviation: (deviation * 1000.0) as i32,
        faulty_tile: if deviation < tolerance { None } else { Some(0) },
    }
}

#[test]
fn test_active_to_superseded() {
    let consensus = make_consensus(4, 0.0001);
    let bounds = HolonomyBounds::default();
    let mut pool = TrustPool::new();

    let id1 = pool.verify_cycle(vec![0, 1, 2, 3], &consensus, &bounds);
    let tile1 = pool.get(id1).unwrap();
    assert_eq!(tile1.state, TrustState::Active);

    let id2 = pool.supersede_cycle(id1, vec![0, 1, 2, 3], &consensus, &bounds).unwrap();

    let old = pool.get(id1).unwrap();
    assert_eq!(old.state, TrustState::Superseded);

    let new = pool.get(id2).unwrap();
    assert_eq!(new.state, TrustState::Active);
}

#[test]
fn test_active_to_retracted_on_constraint_violation() {
    let consensus = make_consensus(4, 0.5);
    let bounds = HolonomyBounds::default();
    let mut pool = TrustPool::new();

    let id = pool.verify_cycle(vec![0, 1, 2, 3], &consensus, &bounds);
    let tile = pool.get(id).unwrap();
    assert_eq!(tile.state, TrustState::Retracted);
}

#[test]
fn test_manual_retraction() {
    let consensus = make_consensus(4, 0.0001);
    let bounds = HolonomyBounds::default();
    let mut pool = TrustPool::new();

    let id = pool.verify_cycle(vec![0, 1, 2, 3], &consensus, &bounds);
    assert_eq!(pool.get(id).unwrap().state, TrustState::Active);

    pool.retract_cycle(id, RetractionReason::Manual { reason: "test".into() }).unwrap();

    assert_eq!(pool.get(id).unwrap().state, TrustState::Retracted);
}

#[test]
fn test_cannot_retract_superseded() {
    let consensus = make_consensus(4, 0.0001);
    let bounds = HolonomyBounds::default();
    let mut pool = TrustPool::new();

    let id1 = pool.verify_cycle(vec![0, 1, 2, 3], &consensus, &bounds);
    pool.supersede_cycle(id1, vec![0, 1, 2, 3], &consensus, &bounds).unwrap();

    let result = pool.retract_cycle(id1, RetractionReason::Expired);
    assert!(result.is_err());
}

#[test]
fn test_active_trust_filters() {
    let consensus = make_consensus(4, 0.0001);
    let bounds = HolonomyBounds::default();
    let mut pool = TrustPool::new();

    let id1 = pool.verify_cycle(vec![0, 1, 2, 3], &consensus, &bounds);
    let id2 = pool.verify_cycle(vec![0, 1, 2, 3], &consensus, &bounds);
    let id3 = pool.verify_cycle(vec![0, 1, 2, 3], &consensus, &bounds);

    pool.retract_cycle(id2, RetractionReason::Expired).unwrap();

    let active = pool.active_trust();
    assert_eq!(active.len(), 2);
    let active_ids: Vec<u64> = active.iter().map(|t| t.cycle_id).collect();
    assert!(active_ids.contains(&id1));
    assert!(active_ids.contains(&id3));
    assert!(!active_ids.contains(&id2));
}

#[test]
fn test_lamport_ordering_across_tiles() {
    let consensus = make_consensus(4, 0.0001);
    let bounds = HolonomyBounds::default();
    let mut pool = TrustPool::new();

    let id1 = pool.verify_cycle(vec![0, 1, 2, 3], &consensus, &bounds);
    let id2 = pool.verify_cycle(vec![0, 1, 2, 3], &consensus, &bounds);
    let id3 = pool.verify_cycle(vec![0, 1, 2, 3], &consensus, &bounds);

    let t1 = pool.get(id1).unwrap().lamport;
    let t2 = pool.get(id2).unwrap().lamport;
    let t3 = pool.get(id3).unwrap().lamport;

    assert!(t1.happened_before(&t2));
    assert!(t2.happened_before(&t3));
    assert!(t1.happened_before(&t3));
}

#[test]
fn test_sorted_by_lamport() {
    let consensus = make_consensus(4, 0.0001);
    let bounds = HolonomyBounds::default();
    let mut pool = TrustPool::new();

    let id1 = pool.verify_cycle(vec![0, 1, 2, 3], &consensus, &bounds);
    let id2 = pool.verify_cycle(vec![0, 1, 2, 3], &consensus, &bounds);
    let id3 = pool.verify_cycle(vec![0, 1, 2, 3], &consensus, &bounds);

    let sorted = pool.sorted_by_lamport();
    assert_eq!(sorted[0].cycle_id, id1);
    assert_eq!(sorted[1].cycle_id, id2);
    assert_eq!(sorted[2].cycle_id, id3);
}

#[test]
fn test_tile_not_found_error() {
    let mut pool = TrustPool::new();
    let result = pool.retract_cycle(999, RetractionReason::Expired);
    assert!(matches!(result, Err(LifecycleError::TileNotFound { cycle_id: 999 })));
}

#[test]
fn test_pool_counts() {
    let consensus = make_consensus(4, 0.0001);
    let bounds = HolonomyBounds::default();
    let mut pool = TrustPool::new();

    let id1 = pool.verify_cycle(vec![0, 1, 2, 3], &consensus, &bounds);
    let _id2 = pool.verify_cycle(vec![0, 1, 2, 3], &consensus, &bounds);

    assert_eq!(pool.len(), 2);
    assert_eq!(pool.active_count(), 2);

    pool.retract_cycle(id1, RetractionReason::Expired).unwrap();
    assert_eq!(pool.active_count(), 1);
    assert_eq!(pool.len(), 2);
}

#[test]
fn test_trust_tile_is_active() {
    let mut clock = LamportClock::new();
    clock.tick();
    let result = ConsensusOutcome {
        is_consistent: true,
        deviation_bits: 0.0f64.to_bits(),
        scaled_deviation: 0,
        faulty_tile: None,
    };
    let tile = TrustTile::new(1, vec![0, 1], &result, clock);
    assert!(tile.is_active());
}

#[test]
fn test_merge_external_clock() {
    let mut pool = TrustPool::new();
    let mut external = LamportClock::new();
    external.tick();
    external.tick();
    external.tick();

    let merged = pool.merge_clock(external);
    assert_eq!(merged.0, 4);
}

#[test]
fn verify_cycle_records_the_check() {
    let consensus = ConsensusOutcome {
        is_consistent: false,
        deviation_bits: 0.5f64.to_bits(),
        scaled_deviation: 500,
        faulty_tile: Some(2),
    };
    let bounds = HolonomyBounds::default();
    let mut pool = TrustPool::new();
    let id = pool.verify_cycle_at(vec![4, 5], &consensus, &bounds, 77);
    assert_eq!(id, 1);
    let tile = pool.get(id).unwrap();
    assert_eq!(tile.cycle_id, 1);
    assert_eq!(tile.agents, vec![4, 5]);
    assert!(!tile.result.passed);
    assert_eq!(f64::from_bits(tile.result.deviation_bits), 0.5);
    assert_eq!(tile.result.faulty_tile, Some(2));
    let c = tile.result.constraint.unwrap();
    assert!(!c.pass);
    assert_eq!(c.error_mask, 3);
    assert_eq!(c.deviation, 127);
    assert_eq!(tile.state, TrustState::Retracted);
    assert_eq!(tile.lamport, LamportClock(1));
    assert_eq!(tile.timestamp, 77);
    assert_eq!(pool.clock(), LamportClock(1));
}

#[test]
fn retract_for_constraint_violation_adds_error_bits() {
    let consensus = make_consensus(4, 0.0001);
    let bounds = HolonomyBounds::default();
    let mut pool = TrustPool::new();
    let id = pool.verify_cycle(vec![1], &consensus, &bounds);
    pool.retract_cycle(id, RetractionReason::ConstraintViolation { error_mask: 0x04 }).unwrap();
    let tile = pool.get(id).unwrap();
    let c = tile.result.constraint.unwrap();
    assert!(!c.pass);
    assert_eq!(c.error_mask, 0x04);
    assert!(tile.result.passed);
}

#[test]
fn retract_for_holonomy_violation_fails_result() {
    let consensus = make_consensus(4, 0.0001);
    let bounds = HolonomyBounds::default();
    let mut pool = TrustPool::new();
    let id = pool.verify_cycle(vec![1], &consensus, &bounds);
    assert!(pool.get(id).unwrap().result.passed);
    pool.retract_cycle(id, RetractionReason::HolonomyViolation { deviation: "0.7".into() }).unwrap();
    assert!(!pool.get(id).unwrap().result.passed);
    let again = pool.retract_cycle(id, RetractionReason::Expired);
    match again {
        Err(LifecycleError::InvalidTransition { from, to, reason }) => {
            assert_eq!(from, TrustState::Retracted);
            assert_eq!(to, TrustState::Retracted);
            assert_eq!(reason, "can only retract Active tiles");
        }
        _ => panic!("expected an invalid transition"),
    }
}

#[test]
fn supersede_inactive_tile_is_refused() {
    let bad = make_consensus(4, 0.5);
    let bounds = HolonomyBounds::default();
    let mut pool = TrustPool::new();
    let id = pool.verify_cycle(vec![1], &bad, &bounds);
    let r = pool.supersede_cycle(id, vec![1], &bad, &bounds);
    match r {
        Err(LifecycleError::InvalidTransition { from, to, reason }) => {
            assert_eq!(from, TrustState::Retracted);
            assert_eq!(to, TrustState::Superseded);
            assert_eq!(reason, "can only supersede Active tiles");
        }
        _ => panic!("expected an invalid transition"),
    }
    assert_eq!(pool.len(), 1);
}

#[test]
fn supersede_unknown_id_adds_new_cycle() {
    let consensus = make_consensus(4, 0.0001);
    let bounds = HolonomyBounds::default();
    let mut pool = TrustPool::new();
    let id = pool.supersede_cycle(42, vec![1], &consensus, &bounds).unwrap();
    assert_eq!(id, 1);
    assert_eq!(pool.len(), 1);
}

#[test]
fn add_moves_next_id_past_added_tile() {
    let consensus = make_consensus(4, 0.0001);
    let bounds = HolonomyBounds::default();
    let mut pool = TrustPool::default();
    let tile = TrustTile::new_at(10, vec![3], &consensus, LamportClock(5), 9);
    assert_eq!(pool.add(tile), 10);
    let next = pool.verify_cycle(vec![3], &consensus, &bounds);
    assert_eq!(next, 11);
    let sorted = pool.sorted_by_lamport();
    assert_eq!(sorted[0].cycle_id, 11);
    assert_eq!(sorted[1].cycle_id, 10);
}

#[test]
fn with_constraint_records_check() {
    let consensus = make_consensus(4, 0.0001);
    let check = ConstraintResult { pass: true, error_mask: 0, deviation: 3 };
    let tile = TrustTile::with_constraint_at(5, vec![], &consensus, &check, LamportClock(2), 100);
    let c = tile.result.constraint.unwrap();
    assert!(c.pass);
    assert_eq!(c.deviation, 3);
    assert_eq!(tile.timestamp, 100);
    assert_eq!(tile.state, TrustState::Active);
}

#[test]
fn active_count_matches_active_trust() {
    let good = make_consensus(4, 0.0001);
    let bad = make_consensus(4, 0.5);
    let bounds = HolonomyBounds::default();
    let mut pool = TrustPool::new();
    let a = pool.verify_cycle(vec![1], &good, &bounds);
    let _b = pool.verify_cycle(vec![2], &bad, &bounds);
    let _c = pool.verify_cycle(vec![3], &good, &bounds);
    pool.supersede_cycle(a, vec![1], &good, &bounds).unwrap();
    assert_eq!(pool.len(), 4);
    assert_eq!(pool.active_count(), 2);
    assert_eq!(pool.active_trust().len(), pool.active_count());
}

#[test]
fn next_cycle_id_and_refused_supersede_at_clock_limit() {
    let good = make_consensus(4, 0.0001);
    let bad = make_consensus(4, 0.5);
    let bounds = HolonomyBounds::default();
    let mut pool = TrustPool::new();
    assert_eq!(pool.next_cycle_id(), 1);
    let id = pool.verify_cycle(vec![1], &bad, &bounds);
    assert_eq!(pool.next_cycle_id(), 2);
    pool.merge_clock(LamportClock(u64::MAX - 1));
    assert_eq!(pool.clock(), LamportClock(u64::MAX));
    // The refusal does not touch the clock, so a full clock is no obstacle.
    assert!(pool.supersede_cycle(id, vec![1], &good, &bounds).is_err());
    assert_eq!(pool.clock(), LamportClock(u64::MAX));
    assert_eq!(pool.sorted_by_lamport().len(), pool.len());
}
