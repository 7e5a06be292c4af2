use openshell_holonomy_consensus::zhc_gl9::{AgentLinks, AgentRegistry, FaultSearch, INTENT_DIM};

fn ring(n: u64) -> AgentRegistry {
    let mut reg = AgentRegistry::new();
    for i in 0..n {
        let neighbors = if i == 0 { vec![n - 1, 1] } else { vec![i - 1, (i + 1) % n] };
        reg.add(AgentLinks { id: i, neighbors });
    }
    reg
}

#[test]
fn registry_lookup_finds_latest() {
    let mut reg = AgentRegistry::new();
    reg.add(AgentLinks { id: 7, neighbors: vec![1] });
    reg.add(AgentLinks { id: 8, neighbors: vec![2] });
    reg.add(AgentLinks { id: 7, neighbors: vec![3] });
    assert_eq!(reg.len(), 3);
    assert_eq!(reg.position(7), Some(2));
    assert_eq!(reg.position(8), Some(1));
    assert_eq!(reg.position(9), None);
    assert_eq!(reg.get(7).unwrap().neighbors, vec![3]);
    assert!(reg.get(9).is_none());
    assert_eq!(INTENT_DIM, 9);
}

#[test]
fn trace_ring_cycle() {
    let reg = ring(4);
    assert_eq!(reg.trace_cycle(0, 1), Some(vec![0, 1, 2, 3]));
    assert_eq!(reg.trace_cycle(0, 3), Some(vec![0, 3, 2, 1]));
}

#[test]
fn trace_fails_on_missing_agent_or_dead_end() {
    let mut reg = AgentRegistry::new();
    reg.add(AgentLinks { id: 0, neighbors: vec![1] });
    reg.add(AgentLinks { id: 1, neighbors: vec![0] });
    // 1 has no neighbour other than 0.
    assert_eq!(reg.trace_cycle(0, 1), None);
    // 5 is unknown.
    assert_eq!(reg.trace_cycle(0, 5), None);
}

#[test]
fn find_cycles_on_ring() {
    let reg = ring(4);
    let cycles = reg.find_cycles();
    assert_eq!(
        cycles,
        vec![vec![0, 3, 2, 1], vec![0, 1, 2, 3], vec![1, 2, 3, 0], vec![2, 3, 0, 1]]
    );
}

#[test]
fn find_cycles_skips_repeated_pairs() {
    let mut reg = AgentRegistry::new();
    reg.add(AgentLinks { id: 0, neighbors: vec![1, 1, 2] });
    reg.add(AgentLinks { id: 1, neighbors: vec![0, 2] });
    reg.add(AgentLinks { id: 2, neighbors: vec![1, 0] });
    let cycles = reg.find_cycles();
    assert_eq!(cycles, vec![vec![0, 1, 2], vec![0, 2, 1], vec![1, 2, 0]]);
}

#[test]
fn fault_search_bisects() {
    let cycle = [10, 11, 12, 13, 14, 15, 16, 17];
    let mut search = FaultSearch::new(cycle.len());
    // The fault is at position 5: the probed left half holds it only when
    // it reaches past position 5.
    while !search.is_done() {
        let (left, mid) = search.probe();
        search.narrow(left <= 5 && 5 < mid);
    }
    assert_eq!(search.suspect(&cycle), Some(15));
}

#[test]
fn fault_search_empty_cycle() {
    let search = FaultSearch::new(0);
    assert!(search.is_done());
    assert_eq!(search.suspect(&[]), None);
}
