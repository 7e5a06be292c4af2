//! Trust tiles with lifecycle management.
//!
//! A trust verification is a holonomy check: when the check fails, the trust
//! tile is retracted; when a newer verification replaces it, it is superseded.
use vstd::prelude::*;
use std::collections::HashMap;
use vstd::std_specs::hash::{spec_keys_iter, spec_hash_map_len};
use vstd::std_specs::iter::IteratorSpec;
use crate::constraints::{
    spec_sat8, within_bounds, error_mask_of, ConstraintResult, HolonomyBounds,
};
use crate::lifecycle::{happens_before, LamportClock, RetractionReason, TrustState};

verus! {

broadcast use vstd::std_specs::hash::group_hash_axioms;

/// What the trust lifecycle reads of a holonomy consensus check.
#[derive(Clone, Copy, Debug)]
pub struct ConsensusOutcome {
    /// Whether the holonomy around the cycle was within tolerance.
    pub is_consistent: bool,
    /// IEEE-754 bit pattern of the holonomy deviation, carried unchanged.
    pub deviation_bits: u64,
    /// The deviation scaled by 1000 and truncated to an integer.
    pub scaled_deviation: i32,
    /// If the check failed, which tile was faulty.
    pub faulty_tile: Option<u64>,
}

/// Simplified constraint check result, as recorded in a tile.
#[derive(Clone, Copy, Debug, PartialEq, Eq, Structural)]
pub struct ConstraintCheckResult {
    pub pass: bool,
    pub error_mask: u32,
    pub deviation: i32,
}

/// The outcome of a trust verification cycle.
#[derive(Clone, Debug)]
pub struct TrustCycleResult {
    /// Whether the cycle passed holonomy verification.
    pub passed: bool,
    /// IEEE-754 bit pattern of the holonomy deviation (0 = perfect).
    pub deviation_bits: u64,
    /// If failed, which tile was faulty.
    pub faulty_tile: Option<u64>,
    /// The constraint check result, when one was made.
    pub constraint: Option<ConstraintCheckResult>,
}

/// A trust tile: the record of one holonomy verification cycle.
#[derive(Clone, Debug)]
pub struct TrustTile {
    /// Unique identifier for this trust cycle.
    pub cycle_id: u64,
    /// Agents that participated in this verification cycle.
    pub agents: Vec<u64>,
    /// The consensus result from the holonomy check.
    pub result: TrustCycleResult,
    /// Current lifecycle state.
    pub state: TrustState,
    /// Lamport timestamp for causal ordering.
    pub lamport: LamportClock,
    /// Wall-clock timestamp (epoch seconds).
    pub timestamp: u64,
}

/// Errors for lifecycle transitions.
#[derive(Clone, Debug, PartialEq)]
pub enum LifecycleError {
    /// Tile not found in pool.
    TileNotFound { cycle_id: u64 },
    /// Invalid state transition.
    InvalidTransition { from: TrustState, to: TrustState, reason: String },
}

// ---------------------------------------------------------------------------
// Spec model
// ---------------------------------------------------------------------------

/// The tile that records a consensus outcome, without a constraint check.
pub open spec fn tile_of(
    cycle_id: u64,
    agents: Vec<u64>,
    consensus: ConsensusOutcome,
    lamport: LamportClock,
    timestamp: u64,
) -> TrustTile {
    TrustTile {
        cycle_id,
        agents,
        result: TrustCycleResult {
            passed: consensus.is_consistent,
            deviation_bits: consensus.deviation_bits,
            faulty_tile: consensus.faulty_tile,
            constraint: None,
        },
        state: TrustState::Active,
        lamport,
        timestamp,
    }
}

/// The recorded form of a constraint result.
pub open spec fn check_record(c: ConstraintResult) -> ConstraintCheckResult {
    ConstraintCheckResult { pass: c.pass, error_mask: c.error_mask, deviation: c.deviation }
}

/// The tile that records a consensus outcome together with a constraint check.
pub open spec fn tile_with_constraint(
    cycle_id: u64,
    agents: Vec<u64>,
    consensus: ConsensusOutcome,
    constraint: ConstraintResult,
    lamport: LamportClock,
    timestamp: u64,
) -> TrustTile {
    let t = tile_of(cycle_id, agents, consensus, lamport, timestamp);
    TrustTile {
        result: TrustCycleResult { constraint: Some(check_record(constraint)), ..t.result },
        ..t
    }
}

/// The constraint check that a verification cycle makes on a consensus outcome.
pub open spec fn cycle_check(consensus: ConsensusOutcome, bounds: HolonomyBounds) -> ConstraintResult {
    let sat = spec_sat8(consensus.scaled_deviation as int);
    ConstraintResult {
        pass: within_bounds(sat, bounds),
        error_mask: error_mask_of(consensus.scaled_deviation as int, bounds),
        deviation: sat as i32,
    }
}

/// The tile a verification cycle adds: active when the constraint check
/// passes, retracted at once when it fails.
pub open spec fn verified_tile(
    cycle_id: u64,
    agents: Vec<u64>,
    consensus: ConsensusOutcome,
    bounds: HolonomyBounds,
    lamport: LamportClock,
    timestamp: u64,
) -> TrustTile {
    let c = cycle_check(consensus, bounds);
    let t = tile_with_constraint(cycle_id, agents, consensus, c, lamport, timestamp);
    TrustTile { state: if c.pass { TrustState::Active } else { TrustState::Retracted }, ..t }
}

/// A tile after retraction for `reason`.
pub open spec fn retracted(t: TrustTile, reason: RetractionReason) -> TrustTile {
    let result = match reason {
        RetractionReason::HolonomyViolation { .. } => TrustCycleResult { passed: false, ..t.result },
        RetractionReason::ConstraintViolation { error_mask } => TrustCycleResult {
            constraint: match t.result.constraint {
                Some(c) => Some(
                    ConstraintCheckResult { pass: false, error_mask: c.error_mask | error_mask, ..c },
                ),
                None => None,
            },
            ..t.result
        },
        _ => t.result,
    };
    TrustTile { state: TrustState::Retracted, result, ..t }
}

/// A tile after a newer verification replaced it.
pub open spec fn superseded(t: TrustTile) -> TrustTile {
    TrustTile { state: TrustState::Superseded, ..t }
}

/// The ids of the active tiles.
pub open spec fn active_ids(tiles: Map<u64, TrustTile>) -> Set<u64> {
    tiles.dom().filter(|k: u64| tiles[k].state == TrustState::Active)
}

/// `r` lists, once each, exactly the tiles of `tiles` whose id satisfies `keep`.
pub open spec fn lists_tiles_once(
    r: Seq<&TrustTile>,
    tiles: Map<u64, TrustTile>,
    keep: spec_fn(u64) -> bool,
) -> bool {
    &&& forall|i: int|
        0 <= i < r.len() ==> tiles.contains_key(#[trigger] r[i].cycle_id) && *r[i]
            == tiles[r[i].cycle_id] && keep(r[i].cycle_id)
    &&& forall|k: u64| tiles.contains_key(k) && #[trigger] keep(k) ==> has_tile_id(r, k)
    &&& forall|i: int, j: int| 0 <= i < j < r.len() ==> r[i].cycle_id != r[j].cycle_id
}


/// The key at position `j` of a sequence of key references.
pub open spec fn key_at(ks: Seq<&u64>, j: int) -> u64 {
    *ks[j]
}

/// `k` is among the first `n` keys of `ks`.
pub open spec fn key_in_prefix(ks: Seq<&u64>, n: int, k: u64) -> bool {
    exists|j: int| 0 <= j < n && #[trigger] key_at(ks, j) == k
}

/// Some tile of `r` has id `k`.
pub open spec fn has_tile_id(r: Seq<&TrustTile>, k: u64) -> bool {
    exists|i: int| 0 <= i < r.len() && #[trigger] r[i].cycle_id == k
}

/// `r` holds, once each, the tiles kept among the first `n` keys of `ks`.
pub open spec fn collected(
    r: Seq<&TrustTile>,
    tiles: Map<u64, TrustTile>,
    keep: spec_fn(u64) -> bool,
    ks: Seq<&u64>,
    n: int,
) -> bool {
    &&& forall|i: int|
        0 <= i < r.len() ==> tiles.contains_key(#[trigger] r[i].cycle_id) && *r[i]
            == tiles[r[i].cycle_id] && keep(r[i].cycle_id) && key_in_prefix(ks, n, r[i].cycle_id)
    &&& forall|j: int| 0 <= j < n && keep(#[trigger] key_at(ks, j)) ==> has_tile_id(r, key_at(ks, j))
    &&& forall|i: int, j: int| 0 <= i < j < r.len() ==> r[i].cycle_id != r[j].cycle_id
}

proof fn lemma_key_in_map(ks: Seq<&u64>, tiles: Map<u64, TrustTile>, n: int)
    requires
        ks.unref().to_set() == tiles.dom(),
        0 <= n < ks.len(),
    ensures
        tiles.contains_key(key_at(ks, n)),
{
    assert(ks.unref()[n] == key_at(ks, n));
    assert(ks.unref().to_set().contains(key_at(ks, n)));
}

proof fn lemma_collect_step(
    r0: Seq<&TrustTile>,
    r1: Seq<&TrustTile>,
    tiles: Map<u64, TrustTile>,
    keep: spec_fn(u64) -> bool,
    ks: Seq<&u64>,
    n: int,
)
    requires
        collected(r0, tiles, keep, ks, n),
        ks.no_duplicates(),
        0 <= n < ks.len(),
        tiles.contains_key(key_at(ks, n)),
        tiles[key_at(ks, n)].cycle_id == key_at(ks, n),
        keep(key_at(ks, n)) ==> r1 == r0.push(&tiles[key_at(ks, n)]),
        !keep(key_at(ks, n)) ==> r1 == r0,
    ensures
        collected(r1, tiles, keep, ks, n + 1),
{
    let k = key_at(ks, n);
    assert forall|i: int| 0 <= i < r1.len() implies key_in_prefix(ks, n + 1, #[trigger] r1[i].cycle_id) by {
        if i < r0.len() {
            assert(r1[i] == r0[i]);
            let j = choose|j: int| 0 <= j < n && #[trigger] key_at(ks, j) == r0[i].cycle_id;
            assert(key_at(ks, j) == r1[i].cycle_id);
        } else {
            assert(key_at(ks, n) == r1[i].cycle_id);
        }
    }
    assert forall|j: int| 0 <= j < n + 1 && keep(#[trigger] key_at(ks, j)) implies has_tile_id(r1, key_at(ks, j)) by {
        if j < n {
            let i = choose|i: int| 0 <= i < r0.len() && #[trigger] r0[i].cycle_id == key_at(ks, j);
            assert(r1[i] == r0[i]);
        } else {
            assert(r1[r1.len() - 1].cycle_id == key_at(ks, j));
        }
    }
    assert forall|i: int, j: int| 0 <= i < j < r1.len() implies r1[i].cycle_id != r1[j].cycle_id by {
        if j == r0.len() {
            assert(r1[i] == r0[i]);
            let jj = choose|jj: int| 0 <= jj < n && #[trigger] key_at(ks, jj) == r0[i].cycle_id;
            assert(ks[jj] != ks[n]);
        } else {
            assert(r1[i] == r0[i] && r1[j] == r0[j]);
        }
    }
}

proof fn lemma_collected_all(
    r: Seq<&TrustTile>,
    tiles: Map<u64, TrustTile>,
    keep: spec_fn(u64) -> bool,
    ks: Seq<&u64>,
)
    requires
        collected(r, tiles, keep, ks, ks.len() as int),
        ks.unref().to_set() == tiles.dom(),
    ensures
        lists_tiles_once(r, tiles, keep),
{
    assert forall|k: u64| tiles.contains_key(k) && #[trigger] keep(k) implies has_tile_id(r, k) by {
        assert(ks.unref().to_set().contains(k));
        let j = choose|j: int| 0 <= j < ks.unref().len() && ks.unref()[j] == k;
        assert(key_at(ks, j) == k);
    }
}

proof fn lemma_collect_insert(
    r0: Seq<&TrustTile>,
    r1: Seq<&TrustTile>,
    tiles: Map<u64, TrustTile>,
    keep: spec_fn(u64) -> bool,
    ks: Seq<&u64>,
    n: int,
    pos: int,
)
    requires
        collected(r0, tiles, keep, ks, n),
        forall|i: int, j: int| 0 <= i < j < r0.len() ==> r0[i].lamport.0 <= r0[j].lamport.0,
        ks.no_duplicates(),
        0 <= n < ks.len(),
        0 <= pos <= r0.len(),
        keep(key_at(ks, n)),
        tiles.contains_key(key_at(ks, n)),
        tiles[key_at(ks, n)].cycle_id == key_at(ks, n),
        r1 == r0.insert(pos, &tiles[key_at(ks, n)]),
        forall|i: int| 0 <= i < pos ==> r0[i].lamport.0 <= tiles[key_at(ks, n)].lamport.0,
        pos < r0.len() ==> r0[pos].lamport.0 > tiles[key_at(ks, n)].lamport.0,
    ensures
        collected(r1, tiles, keep, ks, n + 1),
        forall|i: int, j: int| 0 <= i < j < r1.len() ==> r1[i].lamport.0 <= r1[j].lamport.0,
{
    let k = key_at(ks, n);
    assert forall|i: int| 0 <= i < r1.len() implies key_in_prefix(ks, n + 1, #[trigger] r1[i].cycle_id) by {
        if i < pos {
            assert(r1[i] == r0[i]);
            let j = choose|j: int| 0 <= j < n && #[trigger] key_at(ks, j) == r0[i].cycle_id;
            assert(key_at(ks, j) == r1[i].cycle_id);
        } else if i == pos {
            assert(key_at(ks, n) == r1[i].cycle_id);
        } else {
            assert(r1[i] == r0[i - 1]);
            let j = choose|j: int| 0 <= j < n && #[trigger] key_at(ks, j) == r0[i - 1].cycle_id;
            assert(key_at(ks, j) == r1[i].cycle_id);
        }
    }
    assert forall|i: int| 0 <= i < r1.len() implies tiles.contains_key(#[trigger] r1[i].cycle_id) && *r1[i]
        == tiles[r1[i].cycle_id] && keep(r1[i].cycle_id) by {
        if i < pos {
            assert(r1[i] == r0[i]);
        } else if i > pos {
            assert(r1[i] == r0[i - 1]);
        }
    }
    assert forall|j: int| 0 <= j < n + 1 && keep(#[trigger] key_at(ks, j)) implies has_tile_id(r1, key_at(ks, j)) by {
        if j < n {
            let i = choose|i: int| 0 <= i < r0.len() && #[trigger] r0[i].cycle_id == key_at(ks, j);
            if i < pos {
                assert(r1[i] == r0[i]);
            } else {
                assert(r1[i + 1] == r0[i]);
            }
        } else {
            assert(r1[pos].cycle_id == key_at(ks, j));
        }
    }
    lemma_insert_distinct(r0, r1, ks, n, pos);
    lemma_insert_sorted(r0, r1, tiles[key_at(ks, n)], pos);
}

proof fn lemma_insert_distinct(r0: Seq<&TrustTile>, r1: Seq<&TrustTile>, ks: Seq<&u64>, n: int, pos: int)
    requires
        forall|i: int| 0 <= i < r0.len() ==> key_in_prefix(ks, n, #[trigger] r0[i].cycle_id),
        forall|i: int, j: int| 0 <= i < j < r0.len() ==> r0[i].cycle_id != r0[j].cycle_id,
        ks.no_duplicates(),
        0 <= n < ks.len(),
        0 <= pos <= r0.len(),
        r1.len() == r0.len() + 1,
        r1[pos].cycle_id == key_at(ks, n),
        forall|i: int| 0 <= i < pos ==> r1[i] == r0[i],
        forall|i: int| pos < i < r1.len() ==> r1[i] == r0[i - 1],
    ensures
        forall|i: int, j: int| 0 <= i < j < r1.len() ==> r1[i].cycle_id != r1[j].cycle_id,
{
    assert forall|i: int, j: int| 0 <= i < j < r1.len() implies r1[i].cycle_id != r1[j].cycle_id by {
        let oi = if i < pos { i } else { i - 1 };
        let oj = if j < pos { j } else { j - 1 };
        if i == pos || j == pos {
            let o = if i == pos { oj } else { oi };
            assert(key_in_prefix(ks, n, r0[o].cycle_id));
            let jj = choose|jj: int| 0 <= jj < n && #[trigger] key_at(ks, jj) == r0[o].cycle_id;
            assert(ks[jj] != ks[n]);
        } else {
            assert(r1[i] == r0[oi] && r1[j] == r0[oj]);
        }
    }
}

proof fn lemma_insert_sorted(r0: Seq<&TrustTile>, r1: Seq<&TrustTile>, t: TrustTile, pos: int)
    requires
        forall|i: int, j: int| 0 <= i < j < r0.len() ==> r0[i].lamport.0 <= r0[j].lamport.0,
        0 <= pos <= r0.len(),
        r1 == r0.insert(pos, &t),
        forall|i: int| 0 <= i < pos ==> r0[i].lamport.0 <= t.lamport.0,
        pos < r0.len() ==> r0[pos].lamport.0 > t.lamport.0,
    ensures
        forall|i: int, j: int| 0 <= i < j < r1.len() ==> r1[i].lamport.0 <= r1[j].lamport.0,
{
    assert forall|i: int, j: int| 0 <= i < j < r1.len() implies r1[i].lamport.0 <= r1[j].lamport.0 by {
        if i < pos && j < pos {
            assert(r1[i] == r0[i] && r1[j] == r0[j]);
        } else if i < pos && j == pos {
            assert(r1[i] == r0[i]);
        } else if i < pos {
            assert(r1[i] == r0[i] && r1[j] == r0[j - 1]);
        } else if i == pos {
            assert(r1[j] == r0[j - 1]);
            if j - 1 > pos {
                assert(r0[pos].lamport.0 <= r0[j - 1].lamport.0);
            }
        } else {
            assert(r1[i] == r0[i - 1] && r1[j] == r0[j - 1]);
        }
    }
}

proof fn lemma_listed_len(r: Seq<&TrustTile>, tiles: Map<u64, TrustTile>, keep: spec_fn(u64) -> bool)
    requires
        lists_tiles_once(r, tiles, keep),
        tiles.dom().finite(),
    ensures
        r.len() == tiles.dom().filter(keep).len(),
{
    let ids = r.map_values(|t: &TrustTile| t.cycle_id);
    assert(ids.no_duplicates()) by {
        assert forall|i: int, j: int| 0 <= i < ids.len() && 0 <= j < ids.len() && i != j implies ids[i]
            != ids[j] by {
            if i < j {
                assert(r[i].cycle_id != r[j].cycle_id);
            } else {
                assert(r[j].cycle_id != r[i].cycle_id);
            }
        }
    }
    ids.unique_seq_to_set();
    assert forall|k: u64| #[trigger] ids.to_set().contains(k) == tiles.dom().filter(keep).contains(k) by {
        if tiles.dom().filter(keep).contains(k) {
            assert(has_tile_id(r, k));
            let i = choose|i: int| 0 <= i < r.len() && #[trigger] r[i].cycle_id == k;
            assert(ids[i] == k);
        }
        if ids.to_set().contains(k) {
            let i = choose|i: int| 0 <= i < ids.len() && ids[i] == k;
            assert(r[i].cycle_id == k);
        }
    }
    assert(ids.to_set() =~= tiles.dom().filter(keep));
}

// ---------------------------------------------------------------------------
// Laws
// ---------------------------------------------------------------------------

/// A list that holds every active tile once (what `active_trust` returns) is
/// exactly as long as the number of active tiles (what `active_count` returns).
pub proof fn law_active_count_matches_active_trust(r: Seq<&TrustTile>, tiles: Map<u64, TrustTile>)
    requires
        tiles.dom().finite(),
        lists_tiles_once(r, tiles, |k: u64| tiles[k].state == TrustState::Active),
    ensures
        r.len() == active_ids(tiles).len(),
{
    lemma_listed_len(r, tiles, |k: u64| tiles[k].state == TrustState::Active);
    assert(tiles.dom().filter(|k: u64| tiles[k].state == TrustState::Active) =~= active_ids(tiles));
}

/// A new tile is active, under the id it was made with, and records the
/// consensus outcome as given; a tile made with a constraint check records
/// that check as well and is otherwise the same.
pub proof fn law_new_tile(
    id: u64,
    agents: Vec<u64>,
    c: ConsensusOutcome,
    k: ConstraintResult,
    l: LamportClock,
    ts: u64,
)
    ensures
        ({
            let t = tile_of(id, agents, c, l, ts);
            &&& t.state == TrustState::Active
            &&& t.cycle_id == id
            &&& t.agents == agents
            &&& t.lamport == l
            &&& t.timestamp == ts
            &&& t.result.passed == c.is_consistent
            &&& t.result.deviation_bits == c.deviation_bits
            &&& t.result.faulty_tile == c.faulty_tile
            &&& t.result.constraint is None
        }),
        ({
            let t = tile_of(id, agents, c, l, ts);
            let u = tile_with_constraint(id, agents, c, k, l, ts);
            &&& u.state == t.state && u.cycle_id == t.cycle_id && u.agents == t.agents
            &&& u.lamport == t.lamport && u.timestamp == t.timestamp
            &&& u.result.passed == t.result.passed && u.result.deviation_bits == t.result.deviation_bits
            &&& u.result.faulty_tile == t.result.faulty_tile
            &&& u.result.constraint == Some(
                ConstraintCheckResult { pass: k.pass, error_mask: k.error_mask, deviation: k.deviation },
            )
        }),
{
}

/// A tile id is active exactly when the pool holds a tile under it whose
/// state is `Active`.
pub proof fn law_active_ids(tiles: Map<u64, TrustTile>, k: u64)
    ensures
        active_ids(tiles).contains(k) <==> (tiles.contains_key(k) && tiles[k].state == TrustState::Active),
{
}

/// A successful supersede leaves the old tile `Superseded`, whatever it
/// recorded, and changes nothing else about it.
pub proof fn law_superseded_tile(t: TrustTile)
    ensures
        superseded(t).state == TrustState::Superseded,
        superseded(t).cycle_id == t.cycle_id,
        superseded(t).agents == t.agents,
        superseded(t).result == t.result,
        superseded(t).lamport == t.lamport,
        superseded(t).timestamp == t.timestamp,
{
}

/// A successful retraction leaves the tile `Retracted` for every reason. A
/// holonomy violation also marks the result failed; a constraint violation
/// marks a recorded constraint check failed and adds its error bits; nothing
/// else about the tile changes.
pub proof fn law_retracted_tile(t: TrustTile, reason: RetractionReason)
    ensures
        retracted(t, reason).state == TrustState::Retracted,
        retracted(t, reason).cycle_id == t.cycle_id,
        retracted(t, reason).agents == t.agents,
        retracted(t, reason).lamport == t.lamport,
        retracted(t, reason).timestamp == t.timestamp,
        retracted(t, reason).result.deviation_bits == t.result.deviation_bits,
        retracted(t, reason).result.faulty_tile == t.result.faulty_tile,
        retracted(t, reason).result.passed == (t.result.passed && !(reason is HolonomyViolation)),
        !(reason is ConstraintViolation) ==> retracted(t, reason).result.constraint
            == t.result.constraint,
        reason matches RetractionReason::ConstraintViolation { error_mask } ==> match t.result.constraint {
            Some(c) => retracted(t, reason).result.constraint == Some(
                ConstraintCheckResult {
                    pass: false,
                    error_mask: c.error_mask | error_mask,
                    deviation: c.deviation,
                },
            ),
            None => retracted(t, reason).result.constraint is None,
        },
{
}

/// The tile a verification cycle adds records the consensus outcome as
/// given and the constraint check of its scaled deviation; it is `Active`
/// exactly when the saturated deviation lies within the bound, whether or
/// not the holonomy check itself was consistent.
pub proof fn law_verified_tile(
    id: u64,
    agents: Vec<u64>,
    c: ConsensusOutcome,
    b: HolonomyBounds,
    l: LamportClock,
    ts: u64,
)
    ensures
        ({
            let t = verified_tile(id, agents, c, b, l, ts);
            let sat = spec_sat8(c.scaled_deviation as int);
            let ok = -b.max_deviation <= sat <= b.max_deviation;
            &&& t.state == TrustState::Active <==> ok
            &&& !ok ==> t.state == TrustState::Retracted
            &&& t.cycle_id == id
            &&& t.agents == agents
            &&& t.lamport == l
            &&& t.timestamp == ts
            &&& t.result.passed == c.is_consistent
            &&& t.result.deviation_bits == c.deviation_bits
            &&& t.result.faulty_tile == c.faulty_tile
            &&& t.result.constraint matches Some(k) && k.pass == ok && k.deviation == sat
                && k.error_mask == error_mask_of(c.scaled_deviation as int, b)
        }),
{
}

/// Superseded and retracted tiles are closed: neither can be superseded or
/// retracted again (both operations demand an active tile).
pub proof fn law_closed_tiles_stay_closed(t: TrustTile, reason: RetractionReason)
    ensures
        superseded(t).state != TrustState::Active,
        retracted(t, reason).state != TrustState::Active,
        superseded(t).cycle_id == t.cycle_id && superseded(t).lamport == t.lamport,
        retracted(t, reason).cycle_id == t.cycle_id && retracted(t, reason).lamport == t.lamport,
{
}

/// Two verification cycles run one after the other on a pool (each pool
/// state related to the previous one as `verify_cycle` ensures) add two
/// tiles, under increasing ids, the first of which happened before the second.
pub proof fn law_verifications_are_ordered(
    p0: TrustPool,
    p1: TrustPool,
    p2: TrustPool,
    agents1: Vec<u64>,
    agents2: Vec<u64>,
    consensus1: ConsensusOutcome,
    consensus2: ConsensusOutcome,
    bounds: HolonomyBounds,
    timestamp1: u64,
    timestamp2: u64,
)
    requires
        p0.wf(),
        p0.clock_value() < u64::MAX,
        p1.clock_value() < u64::MAX,
        p1.tiles_view() == p0.tiles_view().insert(
            p0.next_id(),
            verified_tile(
                p0.next_id(),
                agents1,
                consensus1,
                bounds,
                LamportClock((p0.clock_value() + 1) as u64),
                timestamp1,
            ),
        ),
        p1.next_id() == p0.next_id() + 1,
        p1.clock_value() == p0.clock_value() + 1,
        p2.tiles_view() == p1.tiles_view().insert(
            p1.next_id(),
            verified_tile(
                p1.next_id(),
                agents2,
                consensus2,
                bounds,
                LamportClock((p1.clock_value() + 1) as u64),
                timestamp2,
            ),
        ),
    ensures
        p0.next_id() < p1.next_id(),
        p2.tiles_view().contains_key(p0.next_id()),
        p2.tiles_view().contains_key(p1.next_id()),
        happens_before(p2.tiles_view()[p0.next_id()].lamport, p2.tiles_view()[p1.next_id()].lamport),
{
    assert(p2.tiles_view()[p0.next_id()] == p1.tiles_view()[p0.next_id()]);
    assert(p2.tiles_view()[p0.next_id()].lamport.0 == p0.clock_value() + 1);
    assert(p2.tiles_view()[p1.next_id()].lamport.0 == p1.clock_value() + 1);
}

/// Seconds since the Unix epoch by the system clock (`std::time::SystemTime::now`
/// measured from `UNIX_EPOCH`; 0 if the clock reads before the epoch).
/// The value depends on the machine's clock: nothing is promised of it.
#[verifier::external_body]
fn wall_clock_secs() -> u64 {
    std::time::SystemTime::now()
        .duration_since(std::time::UNIX_EPOCH)
        .unwrap_or_default()
        .as_secs()
}

impl TrustTile {
    /// Creates an active trust tile from a consensus outcome, stamped with
    /// the given wall-clock time.
    pub fn new_at(
        cycle_id: u64,
        agents: Vec<u64>,
        consensus_result: &ConsensusOutcome,
        lamport: LamportClock,
        timestamp: u64,
    ) -> (t: Self)
        ensures
            t == tile_of(cycle_id, agents, *consensus_result, lamport, timestamp),
    {
        let result = TrustCycleResult {
            passed: consensus_result.is_consistent,
            deviation_bits: consensus_result.deviation_bits,
            faulty_tile: consensus_result.faulty_tile,
            constraint: None,
        };
        TrustTile { cycle_id, agents, result, state: TrustState::Active, lamport, timestamp }
    }

    /// Creates an active trust tile from a consensus outcome, stamped with
    /// the current wall-clock time.
    pub fn new(
        cycle_id: u64,
        agents: Vec<u64>,
        consensus_result: &ConsensusOutcome,
        lamport: LamportClock,
    ) -> (t: Self)
        ensures
            t == tile_of(cycle_id, agents, *consensus_result, lamport, t.timestamp),
    {
        let timestamp = wall_clock_secs();
        Self::new_at(cycle_id, agents, consensus_result, lamport, timestamp)
    }

    /// Creates a trust tile with an explicit constraint check, stamped with
    /// the given wall-clock time.
    pub fn with_constraint_at(
        cycle_id: u64,
        agents: Vec<u64>,
        consensus_result: &ConsensusOutcome,
        constraint_result: &ConstraintResult,
        lamport: LamportClock,
        timestamp: u64,
    ) -> (t: Self)
        ensures
            t == tile_with_constraint(
                cycle_id,
                agents,
                *consensus_result,
                *constraint_result,
                lamport,
                timestamp,
            ),
    {
        let mut tile = Self::new_at(cycle_id, agents, consensus_result, lamport, timestamp);
        tile.result.constraint = Some(
            ConstraintCheckResult {
                pass: constraint_result.pass,
                error_mask: constraint_result.error_mask,
                deviation: constraint_result.deviation,
            },
        );
        tile
    }

    /// Creates a trust tile with an explicit constraint check, stamped with
    /// the current wall-clock time.
    pub fn with_constraint(
        cycle_id: u64,
        agents: Vec<u64>,
        consensus_result: &ConsensusOutcome,
        constraint_result: &ConstraintResult,
        lamport: LamportClock,
    ) -> (t: Self)
        ensures
            t == tile_with_constraint(
                cycle_id,
                agents,
                *consensus_result,
                *constraint_result,
                lamport,
                t.timestamp,
            ),
    {
        let timestamp = wall_clock_secs();
        Self::with_constraint_at(cycle_id, agents, consensus_result, constraint_result, lamport, timestamp)
    }

    /// Whether this tile is still active.
    pub fn is_active(&self) -> (b: bool)
        ensures
            b == (self.state == TrustState::Active),
    {
        self.state == TrustState::Active
    }
}

/// A pool of trust tiles with lifecycle management, keyed by cycle id.
pub struct TrustPool {
    tiles: HashMap<u64, TrustTile>,
    next_cycle_id: u64,
    lamport: LamportClock,
}

impl TrustPool {
    /// Every tile is stored under its own cycle id, every id in use is below
    /// the next id to hand out, and the pool holds finitely many tiles.
    pub open spec fn wf(self) -> bool {
        &&& self.next_id() >= 1
        &&& self.tiles_view().dom().finite()
        &&& forall|k: u64| #[trigger]
            self.tiles_view().contains_key(k) ==> self.tiles_view()[k].cycle_id == k && k
                < self.next_id()
    }

    /// Whether superseding `old_id` is refused: a tile is stored under it
    /// and is not active.
    pub open spec fn supersede_refused(self, old_id: u64) -> bool {
        self.tiles_view().contains_key(old_id) && self.tiles_view()[old_id].state
            != TrustState::Active
    }

    /// The tiles, by cycle id.
    pub closed spec fn tiles_view(self) -> Map<u64, TrustTile> {
        self.tiles@
    }

    /// The id the next verification cycle receives.
    pub closed spec fn next_id(self) -> u64 {
        self.next_cycle_id
    }

    /// The pool's Lamport time.
    pub closed spec fn clock_value(self) -> u64 {
        self.lamport.0
    }

    /// A new empty pool; the first cycle id is 1 and the clock reads 0.
    pub fn new() -> (p: Self)
        ensures
            p.wf(),
            p.tiles_view() == Map::<u64, TrustTile>::empty(),
            p.next_id() == 1,
            p.clock_value() == 0,
    {
        TrustPool { tiles: HashMap::new(), next_cycle_id: 1, lamport: LamportClock::new() }
    }

    /// Adds a tile under its cycle id (replacing any tile with that id) and
    /// returns the id; ids handed out later are above it.
    pub fn add(&mut self, tile: TrustTile) -> (id: u64)
        requires
            old(self).wf(),
            tile.cycle_id < u64::MAX,
        ensures
            final(self).wf(),
            id == tile.cycle_id,
            final(self).tiles_view() == old(self).tiles_view().insert(id, tile),
            final(self).next_id() == if id >= old(self).next_id() {
                (id + 1) as u64
            } else {
                old(self).next_id()
            },
            final(self).clock_value() == old(self).clock_value(),
    {
        let id = tile.cycle_id;
        if id >= self.next_cycle_id {
            self.next_cycle_id = id + 1;
        }
        self.tiles.insert(id, tile);
        id
    }

    /// Records a verification cycle stamped with the given wall-clock time:
    /// ticks the clock, checks the consensus deviation against the bounds and
    /// adds a tile under the next cycle id, retracted at once if the check
    /// fails. Returns the new cycle id.
    pub fn verify_cycle_at(
        &mut self,
        agents: Vec<u64>,
        consensus: &ConsensusOutcome,
        bounds: &HolonomyBounds,
        timestamp: u64,
    ) -> (id: u64)
        requires
            old(self).wf(),
            old(self).next_id() < u64::MAX,
            old(self).clock_value() < u64::MAX,
            bounds.max_deviation > i32::MIN,
        ensures
            final(self).wf(),
            id == old(self).next_id(),
            !old(self).tiles_view().contains_key(id),
            final(self).tiles_view() == old(self).tiles_view().insert(
                id,
                verified_tile(
                    id,
                    agents,
                    *consensus,
                    *bounds,
                    LamportClock((old(self).clock_value() + 1) as u64),
                    timestamp,
                ),
            ),
            final(self).next_id() == id + 1,
            final(self).clock_value() == old(self).clock_value() + 1,
            final(self).tiles_view().len() == old(self).tiles_view().len() + 1,
    {
        let cycle_id = self.next_cycle_id;
        self.lamport.tick();
        let constraint_result = ConstraintResult::check_scaled(consensus.scaled_deviation, bounds);
        let tile = TrustTile::with_constraint_at(
            cycle_id,
            agents,
            consensus,
            &constraint_result,
            self.lamport,
            timestamp,
        );
        let tile = if !constraint_result.pass {
            let mut retracted_tile = tile;
            retracted_tile.state = TrustState::Retracted;
            retracted_tile
        } else {
            tile
        };
        self.add(tile)
    }

    /// Records a verification cycle stamped with the current wall-clock
    /// time; see `verify_cycle_at`.
    pub fn verify_cycle(
        &mut self,
        agents: Vec<u64>,
        consensus: &ConsensusOutcome,
        bounds: &HolonomyBounds,
    ) -> (id: u64)
        requires
            old(self).wf(),
            old(self).next_id() < u64::MAX,
            old(self).clock_value() < u64::MAX,
            bounds.max_deviation > i32::MIN,
        ensures
            final(self).wf(),
            id == old(self).next_id(),
            !old(self).tiles_view().contains_key(id),
            final(self).tiles_view() == old(self).tiles_view().insert(
                id,
                verified_tile(
                    id,
                    agents,
                    *consensus,
                    *bounds,
                    LamportClock((old(self).clock_value() + 1) as u64),
                    final(self).tiles_view()[id].timestamp,
                ),
            ),
            final(self).next_id() == id + 1,
            final(self).clock_value() == old(self).clock_value() + 1,
            final(self).tiles_view().len() == old(self).tiles_view().len() + 1,
    {
        let timestamp = wall_clock_secs();
        self.verify_cycle_at(agents, consensus, bounds, timestamp)
    }

    /// The tile with the given cycle id, if any.
    pub fn get(&self, cycle_id: u64) -> (r: Option<&TrustTile>)
        requires
            self.wf(),
        ensures
            match r {
                Some(t) => self.tiles_view().contains_key(cycle_id) && *t == self.tiles_view()[cycle_id]
                    && t.cycle_id == cycle_id,
                None => !self.tiles_view().contains_key(cycle_id),
            },
    {
        self.tiles.get(&cycle_id)
    }


    /// The active tiles, each once, in the order the map holds them.
    pub fn active_trust(&self) -> (r: Vec<&TrustTile>)
        requires
            self.wf(),
        ensures
            lists_tiles_once(r@, self.tiles_view(), |k: u64| self.tiles_view()[k].state == TrustState::Active),
            r@.len() == active_ids(self.tiles_view()).len(),
    {
        let ghost tv = self.tiles@;
        let ghost keep = |k: u64| tv[k].state == TrustState::Active;
        let mut r: Vec<&TrustTile> = Vec::new();
        let ghost ks = spec_keys_iter(&self.tiles).remaining();
        let ghost mut n: int = 0;
        for key in it: self.tiles.keys()
            invariant
                self.wf(),
                tv == self.tiles@,
                keep == (|k: u64| tv[k].state == TrustState::Active),
                ks == spec_keys_iter(&self.tiles).remaining(),
                it.seq() == ks,
                n == it.index(),
                0 <= n <= ks.len(),
                collected(r@, tv, keep, ks, n),
        {
            let k = *key;
            proof {
                assert(k == key_at(ks, n));
                lemma_key_in_map(ks, tv, n);
            }
            let t = self.tiles.get(&k).unwrap();
            let ghost r0 = r@;
            assert(*t == tv[k]);
            assert(keep(k) == (t.state == TrustState::Active));
            if t.state == TrustState::Active {
                r.push(t);
            }
            proof {
                lemma_collect_step(r0, r@, tv, keep, ks, n);
                n = n + 1;
            }
        }
        proof {
            lemma_collected_all(r@, tv, keep, ks);
            lemma_listed_len(r@, tv, keep);
            assert(tv.dom().filter(keep) =~= active_ids(tv));
        }
        r
    }

    /// Number of active tiles.
    pub fn active_count(&self) -> (n: usize)
        requires
            self.wf(),
        ensures
            n == active_ids(self.tiles_view()).len(),
            n <= self.tiles_view().len(),
    {
        let ghost tv = self.tiles@;
        let ghost keep = |k: u64| tv[k].state == TrustState::Active;
        let ghost mut r: Seq<&TrustTile> = Seq::empty();
        let ghost ks = spec_keys_iter(&self.tiles).remaining();
        let ghost mut n: int = 0;
        let mut count: usize = 0;
        proof {
            assert(spec_hash_map_len(&self.tiles) as int == tv.len());
        }
        for key in it: self.tiles.keys()
            invariant
                self.wf(),
                tv == self.tiles@,
                keep == (|k: u64| tv[k].state == TrustState::Active),
                ks == spec_keys_iter(&self.tiles).remaining(),
                it.seq() == ks,
                n == it.index(),
                0 <= n <= ks.len(),
                collected(r, tv, keep, ks, n),
                count == r.len(),
                count <= n,
                ks.len() <= usize::MAX,
        {
            let k = *key;
            proof {
                assert(k == key_at(ks, n));
                lemma_key_in_map(ks, tv, n);
            }
            let t = self.tiles.get(&k).unwrap();
            let ghost r0 = r;
            assert(*t == tv[k]);
            assert(keep(k) == (t.state == TrustState::Active));
            if t.state == TrustState::Active {
                count = count + 1;
                proof {
                    r = r.push(t);
                }
            }
            proof {
                lemma_collect_step(r0, r, tv, keep, ks, n);
                n = n + 1;
            }
        }
        proof {
            lemma_collected_all(r, tv, keep, ks);
            lemma_listed_len(r, tv, keep);
            assert(tv.dom().filter(keep) =~= active_ids(tv));
            vstd::set_lib::lemma_len_subset(active_ids(tv), tv.dom());
        }
        count
    }

    /// All tiles, each once, ordered by Lamport time (tiles with equal
    /// times keep the order in which the map holds them).
    pub fn sorted_by_lamport(&self) -> (r: Vec<&TrustTile>)
        requires
            self.wf(),
        ensures
            lists_tiles_once(r@, self.tiles_view(), |k: u64| true),
            forall|i: int, j: int| 0 <= i < j < r@.len() ==> r@[i].lamport.0 <= r@[j].lamport.0,
            r@.len() == self.tiles_view().len(),
    {
        let ghost tv = self.tiles@;
        let ghost keep = |k: u64| true;
        let mut r: Vec<&TrustTile> = Vec::new();
        let ghost ks = spec_keys_iter(&self.tiles).remaining();
        let ghost mut n: int = 0;
        for key in it: self.tiles.keys()
            invariant
                self.wf(),
                tv == self.tiles@,
                keep == (|k: u64| true),
                ks == spec_keys_iter(&self.tiles).remaining(),
                it.seq() == ks,
                n == it.index(),
                0 <= n <= ks.len(),
                collected(r@, tv, keep, ks, n),
                forall|i: int, j: int| 0 <= i < j < r@.len() ==> r@[i].lamport.0 <= r@[j].lamport.0,
        {
            let k = *key;
            proof {
                assert(k == key_at(ks, n));
                lemma_key_in_map(ks, tv, n);
            }
            let t = self.tiles.get(&k).unwrap();
            let ghost r0 = r@;
            let mut pos: usize = 0;
            while pos < r.len() && r[pos].lamport.0 <= t.lamport.0
                invariant
                    pos <= r@.len(),
                    forall|i: int| 0 <= i < pos ==> r@[i].lamport.0 <= t.lamport.0,
                decreases r@.len() - pos,
            {
                pos = pos + 1;
            }
            r.insert(pos, t);
            proof {
                lemma_collect_insert(r0, r@, tv, keep, ks, n, pos as int);
                n = n + 1;
            }
        }
        proof {
            lemma_collected_all(r@, tv, keep, ks);
            lemma_listed_len(r@, tv, keep);
            assert(tv.dom().filter(keep) =~= tv.dom());
        }
        r
    }

    /// Supersedes an old cycle with a new verification: an active tile under
    /// `old_id` becomes superseded, and a new cycle is verified and added.
    /// An unknown `old_id` is allowed (only the new cycle is added); a tile
    /// under `old_id` that is not active is an error and leaves the pool as
    /// it was. Returns the new cycle id.
    pub fn supersede_cycle(
        &mut self,
        old_id: u64,
        agents: Vec<u64>,
        consensus: &ConsensusOutcome,
        bounds: &HolonomyBounds,
    ) -> (r: Result<u64, LifecycleError>)
        requires
            old(self).wf(),
            !old(self).supersede_refused(old_id) ==> old(self).next_id() < u64::MAX,
            !old(self).supersede_refused(old_id) ==> old(self).clock_value() < u64::MAX,
            !old(self).supersede_refused(old_id) ==> bounds.max_deviation > i32::MIN,
        ensures
            final(self).wf(),
            old(self).supersede_refused(old_id) ==> {
                &&& r matches Err(LifecycleError::InvalidTransition { from, to, reason }) && from
                    == old(self).tiles_view()[old_id].state && to == TrustState::Superseded
                    && reason@ == "can only supersede Active tiles"@
                &&& final(self).tiles_view() == old(self).tiles_view()
                &&& final(self).next_id() == old(self).next_id()
                &&& final(self).clock_value() == old(self).clock_value()
            },
            !old(self).supersede_refused(old_id) ==> {
                let marked = if old(self).tiles_view().contains_key(old_id) {
                    old(self).tiles_view().insert(old_id, superseded(old(self).tiles_view()[old_id]))
                } else {
                    old(self).tiles_view()
                };
                &&& r == Ok::<u64, LifecycleError>(old(self).next_id())
                &&& !old(self).tiles_view().contains_key(old(self).next_id())
                &&& final(self).tiles_view() == marked.insert(
                    old(self).next_id(),
                    verified_tile(
                        old(self).next_id(),
                        agents,
                        *consensus,
                        *bounds,
                        LamportClock((old(self).clock_value() + 1) as u64),
                        final(self).tiles_view()[old(self).next_id()].timestamp,
                    ),
                )
                &&& final(self).next_id() == old(self).next_id() + 1
                &&& final(self).clock_value() == old(self).clock_value() + 1
                &&& final(self).tiles_view().len() == old(self).tiles_view().len() + 1
            },
    {
        let found = match self.tiles.get(&old_id) {
            Some(t) => Some(t.state),
            None => None,
        };
        if let Some(state) = found {
            if state != TrustState::Active {
                return Err(
                    LifecycleError::InvalidTransition {
                        from: state,
                        to: TrustState::Superseded,
                        reason: "can only supersede Active tiles".to_owned(),
                    },
                );
            }
            let mut old_tile = self.tiles.remove(&old_id).unwrap();
            old_tile.state = TrustState::Superseded;
            self.tiles.insert(old_id, old_tile);
        }
        let new_id = self.verify_cycle(agents, consensus, bounds);
        Ok(new_id)
    }

    /// Retracts an active cycle. A holonomy violation marks the result as
    /// failed; a constraint violation marks a recorded constraint check as
    /// failed and adds its error bits. An unknown id, or a tile that is not
    /// active, is an error and leaves the pool as it was.
    pub fn retract_cycle(&mut self, cycle_id: u64, reason: RetractionReason) -> (r: Result<
        (),
        LifecycleError,
    >)
        requires
            old(self).wf(),
        ensures
            final(self).wf(),
            final(self).next_id() == old(self).next_id(),
            final(self).clock_value() == old(self).clock_value(),
            !old(self).tiles_view().contains_key(cycle_id) ==> {
                &&& r == Err::<(), LifecycleError>(LifecycleError::TileNotFound { cycle_id })
                &&& final(self).tiles_view() == old(self).tiles_view()
            },
            old(self).tiles_view().contains_key(cycle_id) && old(self).tiles_view()[cycle_id].state
                != TrustState::Active ==> {
                &&& r matches Err(LifecycleError::InvalidTransition { from, to, reason }) && from
                    == old(self).tiles_view()[cycle_id].state && to == TrustState::Retracted
                    && reason@ == "can only retract Active tiles"@
                &&& final(self).tiles_view() == old(self).tiles_view()
            },
            old(self).tiles_view().contains_key(cycle_id) && old(self).tiles_view()[cycle_id].state
                == TrustState::Active ==> {
                &&& r == Ok::<(), LifecycleError>(())
                &&& final(self).tiles_view() == old(self).tiles_view().insert(
                    cycle_id,
                    retracted(old(self).tiles_view()[cycle_id], reason),
                )
                &&& active_ids(final(self).tiles_view()).len() == active_ids(
                    old(self).tiles_view(),
                ).len() - 1
            },
            final(self).tiles_view().len() == old(self).tiles_view().len(),
    {
        let ghost o = self.tiles@;
        let state = match self.tiles.get(&cycle_id) {
            Some(t) => t.state,
            None => {
                return Err(LifecycleError::TileNotFound { cycle_id });
            },
        };
        if state != TrustState::Active {
            return Err(
                LifecycleError::InvalidTransition {
                    from: state,
                    to: TrustState::Retracted,
                    reason: "can only retract Active tiles".to_owned(),
                },
            );
        }
        let mut tile = self.tiles.remove(&cycle_id).unwrap();
        tile.state = TrustState::Retracted;
        match &reason {
            RetractionReason::HolonomyViolation { .. } => {
                tile.result.passed = false;
            },
            RetractionReason::ConstraintViolation { error_mask } => {
                tile.result.constraint = match tile.result.constraint {
                    Some(c) => Some(
                        ConstraintCheckResult {
                            pass: false,
                            error_mask: c.error_mask | *error_mask,
                            deviation: c.deviation,
                        },
                    ),
                    None => None,
                };
            },
            _ => {},
        }
        self.tiles.insert(cycle_id, tile);
        proof {
            assert(active_ids(self.tiles@) =~= active_ids(o).remove(cycle_id));
            assert(active_ids(o).contains(cycle_id));
            vstd::set_lib::lemma_len_subset(active_ids(o), o.dom());
        }
        Ok(())
    }

    /// Total number of tiles (all states).
    pub fn len(&self) -> (n: usize)
        requires
            self.wf(),
        ensures
            n == self.tiles_view().len(),
    {
        self.tiles.len()
    }

    /// Merges an external Lamport clock into the pool's clock and returns
    /// the merged time.
    pub fn merge_clock(&mut self, external: LamportClock) -> (t: LamportClock)
        requires
            old(self).wf(),
            old(self).clock_value() < u64::MAX,
            external.0 < u64::MAX,
        ensures
            final(self).wf(),
            final(self).clock_value() == (if old(self).clock_value() >= external.0 {
                old(self).clock_value()
            } else {
                external.0
            }) + 1,
            t.0 == final(self).clock_value(),
            final(self).tiles_view() == old(self).tiles_view(),
            final(self).next_id() == old(self).next_id(),
    {
        self.lamport.merge(external)
    }

    /// The id the next verification cycle receives.
    pub fn next_cycle_id(&self) -> (id: u64)
        ensures
            id == self.next_id(),
    {
        self.next_cycle_id
    }

    /// The pool's current Lamport clock.
    pub fn clock(&self) -> (c: LamportClock)
        ensures
            c.0 == self.clock_value(),
    {
        self.lamport
    }
}

impl Default for TrustPool {
    fn default() -> (p: Self)
        ensures
            p.wf(),
            p.tiles_view() == Map::<u64, TrustTile>::empty(),
            p.next_id() == 1,
            p.clock_value() == 0,
    {
        Self::new()
    }
}

} // verus!
