use openshell_holonomy_consensus::benchmarks::{
    byzantine_figures, count_emergence_detections, ConsensusApproach, crdt_memory_bytes, crdt_round,
    pbft_fault_threshold, pbft_memory_bytes, raft_memory_bytes, ring_neighbors, GCounter,
    PBFTNode, RaftNode,
};

#[test]
fn gcounter_increment_and_merge() {
    let mut a = GCounter::new(0);
    a.increment();
    a.increment();
    let mut b = GCounter::new(1);
    b.increment();
    let mut c = GCounter::new(0);
    c.increment();
    a.merge(&b);
    a.merge(&c);
    assert_eq!(a.counts.get(&0), Some(&2));
    assert_eq!(a.counts.get(&1), Some(&1));
    assert_eq!(a.counts.len(), 2);
}

#[test]
fn gcounter_merge_commutes_and_is_idempotent() {
    let mut a = GCounter::new(0);
    a.increment();
    let mut b = GCounter::new(1);
    b.increment();
    b.increment();
    let mut ab = a.clone();
    ab.merge(&b);
    let mut ba = b.clone();
    ba.merge(&a);
    assert_eq!(ab.counts, ba.counts);
    let mut twice = ab.clone();
    twice.merge(&ab);
    assert_eq!(twice.counts, ab.counts);
}

#[test]
fn baseline_nodes() {
    let mut pbft = PBFTNode::new();
    pbft.advance_sequence();
    pbft.advance_sequence();
    assert_eq!(pbft.sequence, 2);
    let mut raft = RaftNode::new();
    raft.append(vec![1; 64]);
    assert_eq!(raft.log.len(), 1);
    assert_eq!(raft.log[0].len(), 64);
}

#[test]
fn benchmark_figures() {
    assert_eq!(pbft_fault_threshold(4), 1);
    assert_eq!(pbft_fault_threshold(13), 4);
    assert_eq!(pbft_memory_bytes(1000), 1000 * 64 + 1000 * 3 * 32 * 8);
    assert_eq!(raft_memory_bytes(4, 1000), 128_000 + 128);
    assert_eq!(crdt_memory_bytes(4, 1000), 256_000);
}

#[test]
fn ring_neighbor_windows() {
    assert_eq!(ring_neighbors(0, 10), vec![1, 2, 3]);
    assert_eq!(ring_neighbors(5, 10), vec![2, 3, 4, 6, 7, 8]);
    assert_eq!(ring_neighbors(9, 10), vec![6, 7, 8]);
    assert_eq!(ring_neighbors(1, 2), vec![0]);
}

#[test]
fn emergence_detections_count() {
    assert_eq!(count_emergence_detections(1024, 12000, 1000), 1000);
    assert_eq!(count_emergence_detections(10, 9, 5), 0);
}

#[test]
fn gcounter_merge_associates() {
    let mut a = GCounter::new(0);
    a.increment();
    let mut b = GCounter::new(1);
    b.increment();
    b.increment();
    let mut c = GCounter::new(2);
    c.increment();
    c.merge(&b);
    c.increment();
    let mut left = a.clone();
    left.merge(&b);
    left.merge(&c);
    let mut bc = b.clone();
    bc.merge(&c);
    let mut right = a.clone();
    right.merge(&bc);
    assert_eq!(left.counts, right.counts);
    assert_eq!(left.counts.get(&2), Some(&2));
}

#[test]
fn crdt_round_merges_bumped_remotes() {
    let mut local = GCounter::new(0);
    let remotes = vec![GCounter::new(1), GCounter::new(2), GCounter::new(3)];
    crdt_round(&mut local, &remotes);
    crdt_round(&mut local, &remotes);
    assert_eq!(local.counts.get(&0), Some(&2));
    assert_eq!(local.counts.get(&1), Some(&1));
    assert_eq!(local.counts.get(&2), Some(&1));
    assert_eq!(local.counts.get(&3), Some(&1));
    assert!(remotes.iter().all(|r| r.counts.is_empty()));
    let copy = local.duplicate();
    assert_eq!(copy.counts, local.counts);
}

#[test]
fn byzantine_table() {
    let rows = byzantine_figures(4);
    assert_eq!(rows.len(), 4);
    assert_eq!(rows[0].approach, ConsensusApproach::Pbft);
    assert_eq!(rows[1].approach, ConsensusApproach::Raft);
    assert_eq!(rows[2].approach, ConsensusApproach::Crdt);
    assert_eq!(rows[3].approach, ConsensusApproach::HolonomyCheck);
    assert_eq!(rows[0].max_byzantine_nodes, 1);
    assert_eq!(rows[0].message_complexity, 16);
    assert_eq!(rows[1].max_byzantine_nodes, 0);
    assert_eq!(rows[1].message_complexity, 8);
    assert_eq!(rows[2].max_byzantine_nodes, 3);
    assert_eq!(rows[2].message_complexity, 4);
    assert_eq!(rows[3].max_byzantine_nodes, 3);
    assert_eq!(rows[3].message_complexity, 1);
    assert!(rows.iter().all(|r| r.total_nodes == 4));
}
