//! The computing side of the consensus benchmarks: the baseline protocols'
//! state (a PBFT sequence number, a Raft log, a grow-only counter CRDT) and
//! the figures the benchmark reports compute from their parameters.
//! Timing, sleeping and floating-point rates live outside this library.
use vstd::prelude::*;
use std::collections::HashMap;
use vstd::std_specs::hash::spec_keys_iter;
use vstd::std_specs::iter::IteratorSpec;
use crate::cohomology::{first_betti, EmergenceDetector};
use crate::trust_lifecycle::{key_at, key_in_prefix};

verus! {

broadcast use vstd::std_specs::hash::group_hash_axioms;

// ---------------------------------------------------------------------------
// Baseline protocol state
// ---------------------------------------------------------------------------

/// A PBFT replica, reduced to its sequence number.
pub struct PBFTNode {
    pub sequence: u64,
}

impl PBFTNode {
    /// A replica at sequence 0.
    pub fn new() -> (n: Self)
        ensures
            n.sequence == 0,
    {
        PBFTNode { sequence: 0 }
    }

    /// Completes one consensus round: the sequence number advances by one.
    pub fn advance_sequence(&mut self)
        requires
            old(self).sequence < u64::MAX,
        ensures
            final(self).sequence == old(self).sequence + 1,
    {
        self.sequence = self.sequence + 1;
    }
}

/// A Raft node, reduced to its replicated log.
pub struct RaftNode {
    pub log: Vec<Vec<u8>>,
}

impl RaftNode {
    /// A node with an empty log.
    pub fn new() -> (n: Self)
        ensures
            n.log@.len() == 0,
    {
        RaftNode { log: Vec::new() }
    }

    /// Completes one consensus round: the value is appended to the log.
    pub fn append(&mut self, value: Vec<u8>)
        ensures
            final(self).log@ == old(self).log@.push(value),
    {
        self.log.push(value);
    }
}

/// The count `m` holds for `node` (0 when it holds none).
pub open spec fn count_of(m: Map<u64, u64>, node: u64) -> u64 {
    if m.contains_key(node) {
        m[node]
    } else {
        0
    }
}

/// The pointwise maximum of two grow-only counters.
pub open spec fn merged(a: Map<u64, u64>, b: Map<u64, u64>) -> Map<u64, u64> {
    Map::new(
        |k: u64| a.contains_key(k) || b.contains_key(k),
        |k: u64|
            if count_of(a, k) >= count_of(b, k) {
                count_of(a, k)
            } else {
                count_of(b, k)
            },
    )
}

/// A grow-only counter (G-Counter CRDT): one count per node, merged by
/// pointwise maximum.
#[derive(Clone, Debug)]
pub struct GCounter {
    pub node_id: u64,
    pub counts: HashMap<u64, u64>,
}

impl GCounter {
    /// A counter owned by `node_id`, with no counts.
    pub fn new(node_id: u64) -> (c: Self)
        ensures
            c.node_id == node_id,
            c.counts@ == Map::<u64, u64>::empty(),
    {
        GCounter { node_id, counts: HashMap::new() }
    }

    /// A copy of this counter.
    pub fn duplicate(&self) -> (c: Self)
        ensures
            c.node_id == self.node_id,
            c.counts@ == self.counts@,
    {
        GCounter { node_id: self.node_id, counts: self.counts.clone() }
    }

    /// Adds one to this node's own count.
    pub fn increment(&mut self)
        requires
            count_of(old(self).counts@, old(self).node_id) < u64::MAX,
        ensures
            final(self).node_id == old(self).node_id,
            final(self).counts@ == old(self).counts@.insert(
                old(self).node_id,
                (count_of(old(self).counts@, old(self).node_id) + 1) as u64,
            ),
    {
        let current = match self.counts.get(&self.node_id) {
            Some(c) => *c,
            None => 0,
        };
        self.counts.insert(self.node_id, current + 1);
    }

    /// Merges another counter into this one: every node's count becomes the
    /// larger of the two.
    pub fn merge(&mut self, other: &GCounter)
        ensures
            final(self).node_id == old(self).node_id,
            final(self).counts@ == merged(old(self).counts@, other.counts@),
    {
        let ghost a = self.counts@;
        let ghost b = other.counts@;
        let ghost ks = spec_keys_iter(&other.counts).remaining();
        let ghost mut n: int = 0;
        for key in it: other.counts.keys()
            invariant
                b == other.counts@,
                ks == spec_keys_iter(&other.counts).remaining(),
                it.seq() == ks,
                n == it.index(),
                0 <= n <= ks.len(),
                self.node_id == old(self).node_id,
                a == old(self).counts@,
                forall|k: u64| #[trigger]
                    self.counts@.contains_key(k) <==> (a.contains_key(k) || key_in_prefix(ks, n, k)),
                forall|k: u64| #[trigger]
                    self.counts@.contains_key(k) ==> self.counts@[k] == if key_in_prefix(ks, n, k) {
                        merged(a, b)[k]
                    } else {
                        a[k]
                    },
        {
            let node = *key;
            proof {
                assert(node == key_at(ks, n));
                assert(ks.unref()[n] == node);
                assert(ks.unref().to_set().contains(node));
            }
            let count = *other.counts.get(&node).unwrap();
            let entry = match self.counts.get(&node) {
                Some(c) => *c,
                None => 0,
            };
            let ghost before = self.counts@;
            let larger = if entry >= count {
                entry
            } else {
                count
            };
            self.counts.insert(node, larger);
            proof {
                assert(key_in_prefix(ks, n + 1, node)) by {
                    assert(key_at(ks, n) == node);
                }
                assert forall|k: u64| #[trigger] key_in_prefix(ks, n + 1, k) <==> (key_in_prefix(ks, n, k) || k == node) by {
                    if key_in_prefix(ks, n + 1, k) && k != node {
                        let j = choose|j: int| 0 <= j < n + 1 && #[trigger] key_at(ks, j) == k;
                        assert(j < n);
                    }
                    if key_in_prefix(ks, n, k) {
                        let j = choose|j: int| 0 <= j < n && #[trigger] key_at(ks, j) == k;
                        assert(key_at(ks, j) == k);
                    }
                }
                if key_in_prefix(ks, n, node) {
                    let j = choose|j: int| 0 <= j < n && #[trigger] key_at(ks, j) == node;
                    assert(ks[j] == ks[n]);
                }
                assert(count_of(a, node) == entry);
                n = n + 1;
            }
        }
        proof {
            assert forall|k: u64| #[trigger] self.counts@.contains_key(k) == merged(a, b).contains_key(k) by {
                if b.contains_key(k) {
                    assert(ks.unref().to_set().contains(k));
                    let j = choose|j: int| 0 <= j < ks.unref().len() && ks.unref()[j] == k;
                    assert(key_at(ks, j) == k);
                }
                if key_in_prefix(ks, n, k) {
                    let j = choose|j: int| 0 <= j < n && #[trigger] key_at(ks, j) == k;
                    assert(ks.unref()[j] == k);
                    assert(ks.unref().to_set().contains(k));
                }
            }
            assert forall|k: u64| #[trigger] self.counts@.contains_key(k) implies self.counts@[k] == merged(a, b)[k] by {
                if !key_in_prefix(ks, n, k) {
                    if b.contains_key(k) {
                        assert(ks.unref().to_set().contains(k));
                        let j = choose|j: int| 0 <= j < ks.unref().len() && ks.unref()[j] == k;
                        assert(key_at(ks, j) == k);
                    }
                }
            }
            assert(self.counts@ =~= merged(a, b));
        }
    }
}

// ---------------------------------------------------------------------------
// Laws of the grow-only counter
// ---------------------------------------------------------------------------

/// Merging is commutative.
pub proof fn law_merge_commutative(a: Map<u64, u64>, b: Map<u64, u64>)
    ensures
        merged(a, b) == merged(b, a),
{
    assert(merged(a, b) =~= merged(b, a));
}

/// Merging is associative.
pub proof fn law_merge_associative(a: Map<u64, u64>, b: Map<u64, u64>, c: Map<u64, u64>)
    ensures
        merged(merged(a, b), c) == merged(a, merged(b, c)),
{
    assert(merged(merged(a, b), c) =~= merged(a, merged(b, c)));
}

/// Merging a counter with itself changes nothing.
pub proof fn law_merge_idempotent(a: Map<u64, u64>)
    ensures
        merged(a, a) == a,
{
    assert(merged(a, a) =~= a);
}

/// A merge never lowers a count: the result dominates both inputs.
pub proof fn law_merge_dominates(a: Map<u64, u64>, b: Map<u64, u64>, k: u64)
    ensures
        count_of(merged(a, b), k) >= count_of(a, k),
        count_of(merged(a, b), k) >= count_of(b, k),
{
}

/// After a CRDT round the local counter has counted one more for itself
/// than before, and holds at least one more than every remote counter holds
/// for its own node, and at least every count it held before.
pub proof fn law_round_counts(local: GCounter, remotes: Seq<GCounter>, node: u64)
    requires
        count_of(local.counts@, local.node_id) < u64::MAX,
        forall|i: int| 0 <= i < remotes.len() ==> count_of(#[trigger] remotes[i].counts@, remotes[i].node_id) < u64::MAX,
    ensures
        count_of(round_counts(bumped(local), remotes), local.node_id) >= count_of(local.counts@, local.node_id) + 1,
        count_of(round_counts(bumped(local), remotes), node) >= count_of(local.counts@, node),
        forall|i: int| 0 <= i < remotes.len() ==> count_of(round_counts(bumped(local), remotes), #[trigger] remotes[i].node_id)
            >= count_of(remotes[i].counts@, remotes[i].node_id) + 1,
    decreases remotes.len(),
{
    if remotes.len() > 0 {
        let prev = remotes.drop_last();
        assert forall|i: int| 0 <= i < prev.len() implies count_of(#[trigger] prev[i].counts@, prev[i].node_id) < u64::MAX by {
            assert(prev[i] == remotes[i]);
        }
        law_round_counts(local, prev, node);
        let r = remotes.last();
        assert(count_of(remotes[remotes.len() - 1].counts@, r.node_id) < u64::MAX);
        assert forall|i: int| 0 <= i < remotes.len() implies count_of(round_counts(bumped(local), remotes), #[trigger] remotes[i].node_id)
            >= count_of(remotes[i].counts@, remotes[i].node_id) + 1 by {
            if i < prev.len() {
                assert(prev[i] == remotes[i]);
            }
        }
    }
}

// ---------------------------------------------------------------------------
// Benchmark figures
// ---------------------------------------------------------------------------

/// The counts of `g` after it adds one to its own count.
pub open spec fn bumped(g: GCounter) -> Map<u64, u64> {
    g.counts@.insert(g.node_id, (count_of(g.counts@, g.node_id) + 1) as u64)
}

/// The counts after merging, in order, a bumped copy of each remote counter
/// into `acc`.
pub open spec fn round_counts(acc: Map<u64, u64>, remotes: Seq<GCounter>) -> Map<u64, u64>
    decreases remotes.len(),
{
    if remotes.len() == 0 {
        acc
    } else {
        merged(round_counts(acc, remotes.drop_last()), bumped(remotes.last()))
    }
}

/// One round of the CRDT benchmark: the local counter counts one for
/// itself, then merges a copy of every remote counter that has counted one
/// for itself. The remote counters are left as they were.
pub fn crdt_round(local: &mut GCounter, remotes: &Vec<GCounter>)
    requires
        count_of(old(local).counts@, old(local).node_id) < u64::MAX,
        forall|i: int|
            0 <= i < remotes@.len() ==> count_of(#[trigger] remotes@[i].counts@, remotes@[i].node_id)
                < u64::MAX,
    ensures
        final(local).node_id == old(local).node_id,
        final(local).counts@ == round_counts(bumped(*old(local)), remotes@),
{
    local.increment();
    let ghost start = local.counts@;
    assert(start == bumped(*old(local)));
    let mut i: usize = 0;
    while i < remotes.len()
        invariant
            i <= remotes@.len(),
            local.node_id == old(local).node_id,
            start == bumped(*old(local)),
            forall|k: int|
                0 <= k < remotes@.len() ==> count_of(#[trigger] remotes@[k].counts@, remotes@[k].node_id)
                    < u64::MAX,
            local.counts@ == round_counts(start, remotes@.take(i as int)),
        decreases remotes@.len() - i,
    {
        let mut copy = remotes[i].duplicate();
        assert(count_of(remotes@[i as int].counts@, remotes@[i as int].node_id) < u64::MAX);
        copy.increment();
        local.merge(&copy);
        proof {
            let t = remotes@.take(i + 1);
            assert(t.drop_last() =~= remotes@.take(i as int));
            assert(t.last() == remotes@[i as int]);
            assert(copy.counts@ == bumped(remotes@[i as int]));
        }
        i = i + 1;
    }
    assert(remotes@.take(remotes@.len() as int) =~= remotes@);
}

/// The consensus approaches the Byzantine-tolerance table compares.
#[derive(Clone, Copy, Debug, PartialEq, Eq, Structural)]
pub enum ConsensusApproach {
    /// Practical Byzantine fault tolerance.
    Pbft,
    /// Raft.
    Raft,
    /// A conflict-free replicated data type.
    Crdt,
    /// The holonomy check (a geometric consistency check, not BFT consensus).
    HolonomyCheck,
}

/// The integer figures of one row of the Byzantine-tolerance table.
#[derive(Clone, Copy, Debug)]
pub struct ByzantineFigures {
    /// The approach this row is about.
    pub approach: ConsensusApproach,
    /// How many faulty nodes the approach tolerates.
    pub max_byzantine_nodes: usize,
    /// Nodes in the network.
    pub total_nodes: usize,
    /// Messages per decision.
    pub message_complexity: usize,
}

/// The Byzantine-tolerance table for `n` nodes, one row per approach, in
/// the order PBFT, Raft, CRDT, holonomy check.
pub fn byzantine_figures(n: usize) -> (r: Vec<ByzantineFigures>)
    requires
        n >= 1,
        4 * n <= usize::MAX,
    ensures
        r@.len() == 4,
        r@[0].approach == ConsensusApproach::Pbft,
        r@[1].approach == ConsensusApproach::Raft,
        r@[2].approach == ConsensusApproach::Crdt,
        r@[3].approach == ConsensusApproach::HolonomyCheck,
        r@[0].max_byzantine_nodes == (n - 1) / 3,
        r@[0].message_complexity == 4 * n,
        r@[1].max_byzantine_nodes == 0,
        r@[1].message_complexity == 2 * n,
        r@[2].max_byzantine_nodes == n - 1,
        r@[2].message_complexity == n,
        r@[3].max_byzantine_nodes == n - 1,
        r@[3].message_complexity == 1,
        forall|k: int| 0 <= k < 4 ==> (#[trigger] r@[k]).total_nodes == n,
{
    let mut r: Vec<ByzantineFigures> = Vec::new();
    r.push(ByzantineFigures { approach: ConsensusApproach::Pbft, max_byzantine_nodes: pbft_fault_threshold(n), total_nodes: n, message_complexity: n * 4 });
    r.push(ByzantineFigures { approach: ConsensusApproach::Raft, max_byzantine_nodes: 0, total_nodes: n, message_complexity: n * 2 });
    r.push(ByzantineFigures { approach: ConsensusApproach::Crdt, max_byzantine_nodes: n - 1, total_nodes: n, message_complexity: n });
    r.push(ByzantineFigures { approach: ConsensusApproach::HolonomyCheck, max_byzantine_nodes: n - 1, total_nodes: n, message_complexity: 1 });
    r
}

/// How many faulty replicas PBFT tolerates among `n_nodes`: `(n - 1) / 3`.
pub fn pbft_fault_threshold(n_nodes: usize) -> (t: usize)
    requires
        n_nodes >= 1,
    ensures
        t == (n_nodes - 1) / 3,
{
    (n_nodes - 1) / 3
}

/// Memory the PBFT baseline reports for `n_rounds` rounds: a 64-byte entry
/// and three 32-word messages per round.
pub fn pbft_memory_bytes(n_rounds: usize) -> (m: usize)
    requires
        n_rounds * 64 + n_rounds * 3 * 32 * 8 <= usize::MAX,
    ensures
        m == n_rounds * 64 + n_rounds * 3 * 32 * 8,
{
    (n_rounds * 64) + (n_rounds * 3 * 32 * 8)
}

/// Memory the Raft baseline reports: 128 bytes per round and 32 per node.
pub fn raft_memory_bytes(n_nodes: usize, n_rounds: usize) -> (m: usize)
    requires
        n_rounds * 128 + n_nodes * 16 * 2 <= usize::MAX,
    ensures
        m == n_rounds * 128 + n_nodes * 16 * 2,
{
    n_rounds * 128 + n_nodes * 16 * 2
}

/// Memory the CRDT baseline reports: 64 bytes per node and round.
pub fn crdt_memory_bytes(n_nodes: usize, n_rounds: usize) -> (m: usize)
    requires
        n_nodes * n_rounds * 64 <= usize::MAX,
    ensures
        m == n_nodes * n_rounds * 64,
{
    proof {
        assert(n_nodes * n_rounds * 64 >= 0) by (nonlinear_arith)
            requires
                n_nodes >= 0,
                n_rounds >= 0,
        ;
        assert(n_nodes * n_rounds <= n_nodes * n_rounds * 64) by (nonlinear_arith)
            requires
                n_nodes >= 0,
                n_rounds >= 0,
        ;
    }
    n_nodes * n_rounds * 64
}

/// The neighbours of tile `i` among `n_tiles` tiles: every `j` with
/// `|i - j| <= 3`, `j != i` and `0 <= j < n_tiles`, in increasing order.
pub fn ring_neighbors(i: usize, n_tiles: usize) -> (v: Vec<u64>)
    requires
        n_tiles <= u64::MAX,
        i + 3 <= usize::MAX,
    ensures
        forall|k: int| 0 <= k < v@.len() ==> {
            &&& 0 <= v@[k] < n_tiles
            &&& v@[k] != i
            &&& i - 3 <= v@[k] <= i + 3
        },
        forall|k: int, l: int| 0 <= k < l < v@.len() ==> v@[k] < v@[l],
        forall|j: u64| j < n_tiles && j != i && i - 3 <= j <= i + 3 ==> #[trigger] v@.contains(j),
{
    let mut v: Vec<u64> = Vec::new();
    let lo: usize = if i >= 3 {
        i - 3
    } else {
        0
    };
    let mut j: usize = lo;
    while j <= i + 3
        invariant
            lo == if i >= 3 { i - 3 } else { 0 },
            lo <= j <= i + 4,
            i + 3 <= usize::MAX,
            n_tiles <= u64::MAX,
            forall|k: int| 0 <= k < v@.len() ==> {
                &&& 0 <= v@[k] < n_tiles
                &&& v@[k] != i
                &&& i - 3 <= v@[k] < j
            },
            forall|k: int, l: int| 0 <= k < l < v@.len() ==> v@[k] < v@[l],
            forall|m: u64| lo <= m < j && m < n_tiles && m != i ==> #[trigger] v@.contains(m),
        decreases i + 4 - j,
    {
        let ghost v0 = v@;
        if j < n_tiles && j != i {
            v.push(j as u64);
            proof {
                assert forall|m: u64| lo <= m < j + 1 && m < n_tiles && m != i implies #[trigger] v@.contains(m) by {
                    if m < j {
                        assert(v0.contains(m));
                        let k = choose|k: int| 0 <= k < v0.len() && v0[k] == m;
                        assert(v@[k] == v0[k]);
                    } else {
                        assert(v@[v@.len() - 1] == m);
                    }
                }
            }
        }
        if j == i + 3 {
            assert forall|m: u64| m < n_tiles && m != i && i - 3 <= m <= i + 3 implies #[trigger] v@.contains(m) by {
                assert(lo <= m);
            }
            return v;
        }
        j = j + 1;
    }
    v
}

/// How many of `n_trials` emergence checks on a complex of `n_agents`
/// vertices, `n_connections` edges and one component detect emergence.
pub fn count_emergence_detections(n_agents: usize, n_connections: usize, n_trials: usize) -> (c: usize)
    requires
        n_connections + 1 - n_agents <= usize::MAX,
    ensures
        c == if first_betti(n_agents as int, n_connections as int, 1) > 0 {
            n_trials
        } else {
            0
        },
{
    let mut detections: usize = 0;
    let mut t: usize = 0;
    while t < n_trials
        invariant
            t <= n_trials,
            n_connections + 1 - n_agents <= usize::MAX,
            detections == if first_betti(n_agents as int, n_connections as int, 1) > 0 {
                t
            } else {
                0
            },
        decreases n_trials - t,
    {
        let result = EmergenceDetector::detect(n_agents, n_connections, 1);
        if result.emergence_detected {
            detections = detections + 1;
        }
        t = t + 1;
    }
    detections
}

} // verus!
