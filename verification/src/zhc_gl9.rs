//! The integer side of GL(9) zero-holonomy consensus: which agents exist,
//! who their neighbours are, which cycles the agent graph holds, and how a
//! fault is narrowed down by bisection along a cycle.
//!
//! The 9×9 transforms and intent vectors themselves are floating point and
//! live outside this library; here an agent is its id and neighbour list.
use vstd::prelude::*;
use std::collections::HashMap;
use std::collections::HashSet;

verus! {

broadcast use vstd::std_specs::hash::group_hash_axioms;

/// Dimensionality of the intent space (9 CI facets).
pub const INTENT_DIM: usize = 9;

/// An agent of the consensus network, as far as the graph is concerned.
#[derive(Clone, Debug)]
pub struct AgentLinks {
    /// The agent's id.
    pub id: u64,
    /// Neighbouring agents, in order.
    pub neighbors: Vec<u64>,
}

/// The position of the last agent in `links` with id `id`, if any.
pub open spec fn latest_position(links: Seq<AgentLinks>, id: u64) -> Option<int>
    decreases links.len(),
{
    if links.len() == 0 {
        None
    } else if links.last().id == id {
        Some(links.len() - 1)
    } else {
        latest_position(links.drop_last(), id)
    }
}

/// The agent that a lookup by `id` finds: the one added last with that id.
pub open spec fn agent_with_id(links: Seq<AgentLinks>, id: u64) -> Option<AgentLinks> {
    match latest_position(links, id) {
        Some(p) => Some(links[p]),
        None => None,
    }
}

/// The first entry of `nbrs` other than `prev`.
pub open spec fn first_other(nbrs: Seq<u64>, prev: u64) -> Option<u64>
    decreases nbrs.len(),
{
    if nbrs.len() == 0 {
        None
    } else if nbrs[0] != prev {
        Some(nbrs[0])
    } else {
        first_other(nbrs.drop_first(), prev)
    }
}

/// Follows the ring from the end of the walk `w` (which starts at `start`):
/// each agent passes on to its first neighbour other than the one the walk
/// came from. The walk is returned when the next hop is `start` again, and
/// fails when an agent is unknown, has nowhere else to go, or `fuel` steps
/// run out.
pub open spec fn ring_walk(links: Seq<AgentLinks>, start: u64, w: Seq<u64>, fuel: nat) -> Option<Seq<u64>>
    decreases fuel,
{
    if fuel == 0 || w.len() < 2 {
        None
    } else {
        match agent_with_id(links, w.last()) {
            None => None,
            Some(a) => match first_other(a.neighbors@, w[w.len() - 2]) {
                None => None,
                Some(n) => if n == start {
                    Some(w)
                } else {
                    ring_walk(links, start, w.push(n), (fuel - 1) as nat)
                },
            },
        }
    }
}

/// The cycle traced from `start` through `first`, trying at most one more
/// step than there are agents.
pub open spec fn traced_cycle(links: Seq<AgentLinks>, start: u64, first: u64) -> Option<Seq<u64>> {
    ring_walk(links, start, seq![start, first], (links.len() + 1) as nat)
}

/// The (agent, neighbour) pairs of `links`, agent by agent, neighbours in order.
pub open spec fn link_pairs(links: Seq<AgentLinks>) -> Seq<(u64, u64)>
    decreases links.len(),
{
    if links.len() == 0 {
        seq![]
    } else {
        link_pairs(links.drop_last()) + links.last().neighbors@.map_values(
            |n: u64| (links.last().id, n),
        )
    }
}

/// The cycles found from the pairs `pairs`: each pair `(a, n)` with `a < n`
/// that did not occur before starts a trace, and every trace that closes is
/// kept, in order.
pub open spec fn cycles_from(links: Seq<AgentLinks>, pairs: Seq<(u64, u64)>) -> Seq<Seq<u64>>
    decreases pairs.len(),
{
    if pairs.len() == 0 {
        seq![]
    } else {
        let earlier = cycles_from(links, pairs.drop_last());
        let p = pairs.last();
        if p.0 < p.1 && !pairs.drop_last().contains(p) {
            match traced_cycle(links, p.0, p.1) {
                Some(c) => earlier.push(c),
                None => earlier,
            }
        } else {
            earlier
        }
    }
}

/// The fundamental cycles of the agent graph, in discovery order.
pub open spec fn all_cycles(links: Seq<AgentLinks>) -> Seq<Seq<u64>> {
    cycles_from(links, link_pairs(links))
}

/// A single number that stands for the pair `(a, b)`.
pub open spec fn pair_number(a: u64, b: u64) -> u128 {
    (a as int * 0x1_0000_0000_0000_0000 + b as int) as u128
}

proof fn lemma_pair_number_injective(a: u64, b: u64, c: u64, d: u64)
    requires
        pair_number(a, b) == pair_number(c, d),
    ensures
        a == c && b == d,
{
    let m: int = 0x1_0000_0000_0000_0000;
    assert(a as int * m + b as int <= u128::MAX) by (nonlinear_arith)
        requires
            a <= u64::MAX,
            b <= u64::MAX,
            m == 0x1_0000_0000_0000_0000,
    ;
    assert(c as int * m + d as int <= u128::MAX) by (nonlinear_arith)
        requires
            c <= u64::MAX,
            d <= u64::MAX,
            m == 0x1_0000_0000_0000_0000,
    ;
    assert(a as int * m + b as int == c as int * m + d as int);
    assert(a == c && b == d) by (nonlinear_arith)
        requires
            a as int * m + b as int == c as int * m + d as int,
            0 <= b < m,
            0 <= d < m,
            0 <= a,
            0 <= c,
            m > 0,
    ;
}

fn pair_key(a: u64, b: u64) -> (k: u128)
    ensures
        k == pair_number(a, b),
{
    proof {
        let m: int = 0x1_0000_0000_0000_0000;
        assert(a as int * m + b as int <= u128::MAX) by (nonlinear_arith)
            requires
                a <= u64::MAX,
                b <= u64::MAX,
                m == 0x1_0000_0000_0000_0000,
        ;
    }
    (a as u128) * 0x1_0000_0000_0000_0000u128 + (b as u128)
}

/// The first entry of `nbrs` other than `prev`.
fn first_other_neighbor(nbrs: &Vec<u64>, prev: u64) -> (r: Option<u64>)
    ensures
        r == first_other(nbrs@, prev),
{
    let mut i: usize = 0;
    assert(nbrs@.skip(0) =~= nbrs@);
    while i < nbrs.len()
        invariant
            i <= nbrs@.len(),
            first_other(nbrs@, prev) == first_other(nbrs@.skip(i as int), prev),
        decreases nbrs@.len() - i,
    {
        if nbrs[i] != prev {
            return Some(nbrs[i]);
        }
        assert(nbrs@.skip(i as int).drop_first() =~= nbrs@.skip(i + 1));
        i = i + 1;
    }
    None
}

/// The pairs of the first `j` neighbours of `a`.
pub open spec fn agent_pairs(a: AgentLinks, j: int) -> Seq<(u64, u64)> {
    a.neighbors@.take(j).map_values(|n: u64| (a.id, n))
}

/// The numbers of the ordered pairs `(a, b)` with `a < b` among `pairs`.
pub open spec fn seen_numbers(pairs: Seq<(u64, u64)>) -> Set<u128> {
    Set::new(|k: u128| exists|i: int| 0 <= i < pairs.len() && #[trigger] pairs[i].0 < pairs[i].1
        && pair_number(pairs[i].0, pairs[i].1) == k)
}

proof fn lemma_seen_numbers_push(ps: Seq<(u64, u64)>, p: (u64, u64))
    ensures
        seen_numbers(ps.push(p)) == if p.0 < p.1 {
            seen_numbers(ps).insert(pair_number(p.0, p.1))
        } else {
            seen_numbers(ps)
        },
        p.0 < p.1 ==> (seen_numbers(ps).contains(pair_number(p.0, p.1)) <==> ps.contains(p)),
{
    let ps1 = ps.push(p);
    assert forall|k: u128| #[trigger] seen_numbers(ps1).contains(k) == (if p.0 < p.1 {
        seen_numbers(ps).insert(pair_number(p.0, p.1))
    } else {
        seen_numbers(ps)
    }).contains(k) by {
        if seen_numbers(ps1).contains(k) {
            let i = choose|i: int| 0 <= i < ps1.len() && #[trigger] ps1[i].0 < ps1[i].1
                && pair_number(ps1[i].0, ps1[i].1) == k;
            if i < ps.len() {
                assert(ps1[i] == ps[i]);
            }
        }
        if seen_numbers(ps).contains(k) {
            let i = choose|i: int| 0 <= i < ps.len() && #[trigger] ps[i].0 < ps[i].1
                && pair_number(ps[i].0, ps[i].1) == k;
            assert(ps1[i] == ps[i]);
        }
        if p.0 < p.1 && k == pair_number(p.0, p.1) {
            assert(ps1[ps.len() as int] == p);
        }
    }
    assert(seen_numbers(ps1) =~= if p.0 < p.1 {
        seen_numbers(ps).insert(pair_number(p.0, p.1))
    } else {
        seen_numbers(ps)
    });
    if p.0 < p.1 {
        if seen_numbers(ps).contains(pair_number(p.0, p.1)) {
            let i = choose|i: int| 0 <= i < ps.len() && #[trigger] ps[i].0 < ps[i].1
                && pair_number(ps[i].0, ps[i].1) == pair_number(p.0, p.1);
            lemma_pair_number_injective(ps[i].0, ps[i].1, p.0, p.1);
            assert(ps[i] == p);
        }
        if ps.contains(p) {
            let i = choose|i: int| 0 <= i < ps.len() && ps[i] == p;
            assert(ps[i].0 < ps[i].1);
        }
    }
}

/// The hop a ring walk makes from `cur`, having come from `prev`.
pub open spec fn next_hop(links: Seq<AgentLinks>, prev: u64, cur: u64) -> Option<u64> {
    match agent_with_id(links, cur) {
        Some(a) => first_other(a.neighbors@, prev),
        None => None,
    }
}

/// Hop `k` of the walk `w` goes, as the agents' neighbour lists say, from
/// `w[k]` (reached from `w[k - 1]`) to `w[k + 1]`.
pub open spec fn hop_follows(links: Seq<AgentLinks>, w: Seq<u64>, k: int) -> bool {
    next_hop(links, w[k - 1], w[k]) == Some(w[k + 1])
}

/// `w` is the walk that starts at `w[0]`, goes first to `w[1]`, then always
/// to the first neighbour other than the one it came from, and whose next
/// hop after its last node is `w[0]` again, without passing `w[0]` before.
pub open spec fn closes_ring(links: Seq<AgentLinks>, w: Seq<u64>) -> bool {
    &&& w.len() >= 2
    &&& forall|k: int| 1 <= k < w.len() - 1 ==> #[trigger] hop_follows(links, w, k)
    &&& next_hop(links, w[w.len() - 2], w.last()) == Some(w[0])
    &&& forall|k: int| 2 <= k < w.len() ==> #[trigger] w[k] != w[0]
}

proof fn lemma_ring_walk_from_prefix(links: Seq<AgentLinks>, w: Seq<u64>, j: int, fuel: nat)
    requires
        closes_ring(links, w),
        2 <= j <= w.len(),
        fuel >= w.len() - j + 1,
    ensures
        ring_walk(links, w[0], w.take(j), fuel) == Some(w),
    decreases w.len() - j,
{
    let p = w.take(j);
    assert(p.last() == w[j - 1]);
    assert(p[p.len() - 2] == w[j - 2]);
    if j == w.len() {
        assert(p =~= w);
    } else {
        assert(hop_follows(links, w, j - 1));
        assert(w[j] != w[0]);
        assert(p.push(w[j]) =~= w.take(j + 1));
        lemma_ring_walk_from_prefix(links, w, j + 1, (fuel - 1) as nat);
    }
}

/// Whenever following first-other neighbours from `w[0]` through `w[1]`
/// comes back to `w[0]` within one more hop than there are agents, the
/// trace from `w[0]` through `w[1]` is that walk.
pub proof fn law_trace_finds_closing_walk(links: Seq<AgentLinks>, w: Seq<u64>)
    requires
        closes_ring(links, w),
        w.len() <= links.len() + 2,
    ensures
        traced_cycle(links, w[0], w[1]) == Some(w),
{
    assert(w.take(2) =~= seq![w[0], w[1]]);
    lemma_ring_walk_from_prefix(links, w, 2, (links.len() + 1) as nat);
}

proof fn lemma_latest_position_is(links: Seq<AgentLinks>, id: u64, p: int)
    requires
        0 <= p < links.len(),
        links[p].id == id,
        forall|q: int| p < q < links.len() ==> #[trigger] links[q].id != id,
    ensures
        latest_position(links, id) == Some(p),
    decreases links.len(),
{
    if p < links.len() - 1 {
        assert(links.last().id != id);
        assert forall|q: int| p < q < links.drop_last().len() implies #[trigger] links.drop_last()[q].id != id by {
            assert(links.drop_last()[q] == links[q]);
        }
        lemma_latest_position_is(links.drop_last(), id, p);
    }
}

/// On a ring of `n >= 3` agents added in order, agent `i` having the
/// neighbours `[i - 1, i + 1]` (mod `n`), the trace from 0 through 1 goes
/// round the whole ring: `[0, 1, ..., n - 1]`.
pub proof fn law_trace_ring(links: Seq<AgentLinks>, n: int)
    requires
        n >= 3,
        links.len() == n,
        forall|i: int|
            0 <= i < n ==> (#[trigger] links[i]).id == i && links[i].neighbors@ == seq![
                (if i == 0 { n - 1 } else { i - 1 }) as u64,
                (if i == n - 1 { 0 } else { i + 1 }) as u64,
            ],
    ensures
        traced_cycle(links, 0, 1) == Some(Seq::new(n as nat, |i: int| i as u64)),
{
    let w = Seq::new(n as nat, |i: int| i as u64);
    assert forall|i: int| 0 <= i < n implies agent_with_id(links, i as u64) == Some(links[i]) by {
        assert forall|q: int| i < q < links.len() implies #[trigger] links[q].id != i as u64 by {
            assert(links[q].id == q);
        }
        lemma_latest_position_is(links, i as u64, i);
    }
    assert forall|k: int| 1 <= k < w.len() - 1 implies #[trigger] hop_follows(links, w, k) by {
        assert(agent_with_id(links, k as u64) == Some(links[k]));
        let nb = links[k].neighbors@;
        assert(nb[0] == (k - 1) as u64 && nb[1] == (k + 1) as u64);
        assert(nb.drop_first() =~= seq![(k + 1) as u64]);
        assert(first_other(nb.drop_first(), (k - 1) as u64) == Some((k + 1) as u64));
    }
    assert(agent_with_id(links, (n - 1) as u64) == Some(links[n - 1]));
    assert(links[n - 1].neighbors@[0] == (n - 2) as u64);
    assert(links[n - 1].neighbors@.drop_first() =~= seq![0u64]);
    assert(first_other(links[n - 1].neighbors@.drop_first(), (n - 2) as u64) == Some(0u64));
    assert(next_hop(links, w[w.len() - 2], w.last()) == Some(w[0]));
    assert(closes_ring(links, w));
    law_trace_finds_closing_walk(links, w);
}

/// A lookup by id finds the agent added last with that id, and finds none
/// exactly when no agent has it.
pub proof fn law_lookup_finds_latest(links: Seq<AgentLinks>, id: u64)
    ensures
        match latest_position(links, id) {
            Some(p) => 0 <= p < links.len() && links[p].id == id && forall|q: int|
                p < q < links.len() ==> #[trigger] links[q].id != id,
            None => forall|q: int| 0 <= q < links.len() ==> #[trigger] links[q].id != id,
        },
    decreases links.len(),
{
    if links.len() > 0 && links.last().id != id {
        law_lookup_finds_latest(links.drop_last(), id);
        match latest_position(links.drop_last(), id) {
            Some(p) => {
                assert(links.drop_last()[p] == links[p]);
                assert forall|q: int| p < q < links.len() implies #[trigger] links[q].id != id by {
                    if q < links.len() - 1 {
                        assert(links.drop_last()[q] == links[q]);
                    }
                }
            },
            None => {
                assert forall|q: int| 0 <= q < links.len() implies #[trigger] links[q].id != id by {
                    if q < links.len() - 1 {
                        assert(links.drop_last()[q] == links[q]);
                    }
                }
            },
        }
    }
}

/// The next hop from a neighbour list skips exactly the leading entries
/// equal to the node the walk came from: it is the first other entry, and
/// there is none only when every entry is that node.
pub proof fn law_first_other(nbrs: Seq<u64>, prev: u64)
    ensures
        match first_other(nbrs, prev) {
            Some(x) => x != prev && exists|k: int|
                0 <= k < nbrs.len() && nbrs[k] == x && forall|j: int| 0 <= j < k ==> #[trigger] nbrs[j] == prev,
            None => forall|j: int| 0 <= j < nbrs.len() ==> #[trigger] nbrs[j] == prev,
        },
    decreases nbrs.len(),
{
    if nbrs.len() > 0 && nbrs[0] == prev {
        let rest = nbrs.drop_first();
        law_first_other(rest, prev);
        match first_other(rest, prev) {
            Some(x) => {
                let k = choose|k: int|
                    0 <= k < rest.len() && rest[k] == x && forall|j: int| 0 <= j < k ==> #[trigger] rest[j] == prev;
                assert(nbrs[k + 1] == x);
                assert forall|j: int| 0 <= j < k + 1 implies #[trigger] nbrs[j] == prev by {
                    if j > 0 {
                        assert(nbrs[j] == rest[j - 1]);
                    }
                }
            },
            None => {
                assert forall|j: int| 0 <= j < nbrs.len() implies #[trigger] nbrs[j] == prev by {
                    if j > 0 {
                        assert(nbrs[j] == rest[j - 1]);
                    }
                }
            },
        }
    } else if nbrs.len() > 0 {
        assert(nbrs[0] != prev);
    }
}

proof fn lemma_ring_walk_extends(links: Seq<AgentLinks>, start: u64, w: Seq<u64>, fuel: nat)
    ensures
        ring_walk(links, start, w, fuel) matches Some(r) ==> r.len() >= w.len() && r.take(
            w.len() as int,
        ) == w,
    decreases fuel,
{
    if fuel > 0 && w.len() >= 2 {
        match agent_with_id(links, w.last()) {
            Some(a) => match first_other(a.neighbors@, w[w.len() - 2]) {
                Some(n) => {
                    if n == start {
                        assert(w.take(w.len() as int) =~= w);
                    } else {
                        lemma_ring_walk_extends(links, start, w.push(n), (fuel - 1) as nat);
                        if let Some(r) = ring_walk(links, start, w, fuel) {
                            assert(r.take(w.len() as int) =~= r.take((w.len() + 1) as int).take(w.len() as int));
                            assert(w.push(n).take(w.len() as int) =~= w);
                        }
                    }
                },
                None => {},
            },
            None => {},
        }
    }
}

/// The first two nodes of a trace are the pair it started from.
proof fn lemma_trace_starts_with(links: Seq<AgentLinks>, a: u64, b: u64)
    ensures
        traced_cycle(links, a, b) matches Some(c) ==> c.len() >= 2 && c[0] == a && c[1] == b,
{
    lemma_ring_walk_extends(links, a, seq![a, b], (links.len() + 1) as nat);
    if let Some(c) = traced_cycle(links, a, b) {
        assert(c.take(2)[0] == c[0] && c.take(2)[1] == c[1]);
    }
}

/// The cycles found from a list of (agent, neighbour) pairs are exactly the
/// closing traces of its pairs `(a, n)` with `a < n`: every cycle found is
/// the trace of such a pair of the list, no pair gives two cycles, and every
/// such pair whose trace closes gives one.
pub proof fn law_cycles_are_traces(links: Seq<AgentLinks>, pairs: Seq<(u64, u64)>)
    ensures
        forall|i: int| #![trigger cycles_from(links, pairs)[i]]
            0 <= i < cycles_from(links, pairs).len() ==> {
                let c = cycles_from(links, pairs)[i];
                &&& c.len() >= 2
                &&& c[0] < c[1]
                &&& pairs.contains((c[0], c[1]))
                &&& traced_cycle(links, c[0], c[1]) == Some(c)
            },
        forall|i: int, j: int|
            0 <= i < j < cycles_from(links, pairs).len() ==> (#[trigger] cycles_from(links, pairs)[i])[0]
                != (#[trigger] cycles_from(links, pairs)[j])[0] || cycles_from(links, pairs)[i][1]
                != cycles_from(links, pairs)[j][1],
        forall|p: (u64, u64)|
            pairs.contains(p) && p.0 < p.1 && (#[trigger] traced_cycle(links, p.0, p.1)) is Some ==> exists|i: int|
                0 <= i < cycles_from(links, pairs).len() && cycles_from(links, pairs)[i][0] == p.0
                    && cycles_from(links, pairs)[i][1] == p.1,
    decreases pairs.len(),
{
    if pairs.len() > 0 {
        let prev = pairs.drop_last();
        let p = pairs.last();
        law_cycles_are_traces(links, prev);
        lemma_trace_starts_with(links, p.0, p.1);
        let earlier = cycles_from(links, prev);
        let now = cycles_from(links, pairs);
        assert forall|q: (u64, u64)| prev.contains(q) implies pairs.contains(q) by {
            let k = choose|k: int| 0 <= k < prev.len() && prev[k] == q;
            assert(pairs[k] == q);
        }
        assert(pairs[pairs.len() - 1] == p);
        assert forall|i: int| 0 <= i < earlier.len() implies #[trigger] now[i] == earlier[i] by {}
        assert forall|i: int| #![trigger now[i]] 0 <= i < now.len() implies ({
            let c = now[i];
            &&& c.len() >= 2
            &&& c[0] < c[1]
            &&& pairs.contains((c[0], c[1]))
            &&& traced_cycle(links, c[0], c[1]) == Some(c)
        }) by {
            if i < earlier.len() {
                assert(now[i] == earlier[i]);
            }
        }
        assert forall|i: int, j: int|
            0 <= i < j < now.len() implies (#[trigger] now[i])[0] != (#[trigger] now[j])[0] || now[i][1]
                != now[j][1] by {
            if j >= earlier.len() {
                assert(now[i] == earlier[i]);
                assert(prev.contains((earlier[i][0], earlier[i][1])));
            } else {
                assert(now[i] == earlier[i] && now[j] == earlier[j]);
            }
        }
        assert forall|q: (u64, u64)|
            pairs.contains(q) && q.0 < q.1 && (#[trigger] traced_cycle(links, q.0, q.1)) is Some implies exists|i: int|
                0 <= i < now.len() && now[i][0] == q.0 && now[i][1] == q.1 by {
            if prev.contains(q) {
                let i = choose|i: int| 0 <= i < earlier.len() && earlier[i][0] == q.0 && earlier[i][1] == q.1;
                assert(now[i] == earlier[i]);
            } else {
                let k = choose|k: int| 0 <= k < pairs.len() && pairs[k] == q;
                if k < prev.len() {
                    assert(prev[k] == q);
                }
                assert(q == p);
                assert(now[now.len() - 1] == traced_cycle(links, p.0, p.1)->0);
            }
        }
    }
}

/// The agents of a consensus network, in the order they were added, with an
/// index from agent id to position.
pub struct AgentRegistry {
    links: Vec<AgentLinks>,
    index: HashMap<u64, usize>,
}

proof fn lemma_latest_position_bounds(links: Seq<AgentLinks>, id: u64)
    ensures
        match latest_position(links, id) {
            Some(p) => 0 <= p < links.len() && links[p].id == id,
            None => forall|q: int| 0 <= q < links.len() ==> links[q].id != id,
        },
    decreases links.len(),
{
    if links.len() > 0 && links.last().id != id {
        lemma_latest_position_bounds(links.drop_last(), id);
        match latest_position(links.drop_last(), id) {
            Some(p) => {
                assert(links.drop_last()[p] == links[p]);
            },
            None => {
                assert forall|q: int| 0 <= q < links.len() implies links[q].id != id by {
                    if q < links.len() - 1 {
                        assert(links.drop_last()[q] == links[q]);
                    }
                }
            },
        }
    }
}

impl AgentRegistry {
    /// The index maps each id to the latest position holding it, and holds
    /// no other ids.
    pub closed spec fn wf(self) -> bool {
        forall|id: u64|
            #![trigger self.index@.contains_key(id)]
            #![trigger latest_position(self.links@, id)]
            (self.index@.contains_key(id) <==> latest_position(self.links@, id) is Some) && (
            self.index@.contains_key(id) ==> latest_position(self.links@, id) == Some(
                self.index@[id] as int,
            ))
    }

    /// The agents, in the order they were added.
    pub closed spec fn links_view(self) -> Seq<AgentLinks> {
        self.links@
    }

    /// An empty registry.
    pub fn new() -> (r: Self)
        ensures
            r.wf(),
            r.links_view() == Seq::<AgentLinks>::empty(),
    {
        AgentRegistry { links: Vec::new(), index: HashMap::new() }
    }

    /// Adds an agent at the end; a later agent with the same id shadows an
    /// earlier one in lookups.
    pub fn add(&mut self, agent: AgentLinks)
        requires
            old(self).wf(),
        ensures
            final(self).wf(),
            final(self).links_view() == old(self).links_view().push(agent),
    {
        let id = agent.id;
        let pos = self.links.len();
        self.index.insert(id, pos);
        self.links.push(agent);
        proof {
            let l = self.links@;
            assert(l.drop_last() =~= old(self).links@);
            assert forall|k: u64|
                #![trigger self.index@.contains_key(k)]
                #![trigger latest_position(self.links@, k)]
                (self.index@.contains_key(k) <==> latest_position(self.links@, k) is Some) && (
                self.index@.contains_key(k) ==> latest_position(self.links@, k) == Some(
                    self.index@[k] as int,
                )) by {
                if k != id {
                    assert(latest_position(l, k) == latest_position(old(self).links@, k));
                    assert(old(self).index@.contains_key(k) == self.index@.contains_key(k));
                }
            }
        }
    }

    /// Traces a cycle that starts at `start` and first goes to
    /// `first_neighbor`; see `traced_cycle`.
    pub fn trace_cycle(&self, start: u64, first_neighbor: u64) -> (r: Option<Vec<u64>>)
        requires
            self.wf(),
        ensures
            match r {
                Some(c) => traced_cycle(self.links_view(), start, first_neighbor) == Some(c@),
                None => traced_cycle(self.links_view(), start, first_neighbor) is None,
            },
    {
        let mut cycle: Vec<u64> = Vec::new();
        cycle.push(start);
        cycle.push(first_neighbor);
        let mut current = first_neighbor;
        let mut remaining: usize = self.links.len();
        let ghost links = self.links@;
        assert(cycle@ =~= seq![start, first_neighbor]);
        loop
            invariant
                self.wf(),
                links == self.links@,
                cycle@.len() >= 2,
                current == cycle@.last(),
                ring_walk(links, start, cycle@, (remaining + 1) as nat) == traced_cycle(links, start, first_neighbor),
            decreases remaining,
        {
            let agent = match self.get(current) {
                Some(a) => a,
                None => {
                    return None;
                },
            };
            let prev = cycle[cycle.len() - 2];
            match first_other_neighbor(&agent.neighbors, prev) {
                Some(n) => {
                    if n == start {
                        return Some(cycle);
                    }
                    if remaining == 0 {
                        assert(ring_walk(links, start, cycle@.push(n), 0) is None);
                        return None;
                    }
                    cycle.push(n);
                    current = n;
                    remaining = remaining - 1;
                },
                None => {
                    return None;
                },
            }
        }
    }

    /// The fundamental cycles of the agent graph: for each agent in order and
    /// each of its neighbours in order, a pair `(agent, neighbour)` with
    /// `agent < neighbour` not met before is traced, and the traces that
    /// close are returned.
    pub fn find_cycles(&self) -> (cs: Vec<Vec<u64>>)
        requires
            self.wf(),
        ensures
            cs@.map_values(|c: Vec<u64>| c@) == all_cycles(self.links_view()),
    {
        let ghost links = self.links@;
        let mut cycles: Vec<Vec<u64>> = Vec::new();
        let mut seen: HashSet<u128> = HashSet::new();
        let mut i: usize = 0;
        while i < self.links.len()
            invariant
                self.wf(),
                links == self.links@,
                i <= links.len(),
                seen@ == seen_numbers(link_pairs(links.take(i as int))),
                cycles@.map_values(|c: Vec<u64>| c@) == cycles_from(links, link_pairs(links.take(i as int))),
            decreases links.len() - i,
        {
            let agent = &self.links[i];
            let ghost before = link_pairs(links.take(i as int));
            proof {
                assert(links.take(i + 1).drop_last() =~= links.take(i as int));
                assert(links.take(i + 1).last() == *agent);
            }
            let mut j: usize = 0;
            while j < agent.neighbors.len()
                invariant
                    self.wf(),
                    links == self.links@,
                    *agent == links[i as int],
                    i < links.len(),
                    j <= agent.neighbors@.len(),
                    before == link_pairs(links.take(i as int)),
                    seen@ == seen_numbers(before + agent_pairs(*agent, j as int)),
                    cycles@.map_values(|c: Vec<u64>| c@) == cycles_from(links, before + agent_pairs(*agent, j as int)),
                decreases agent.neighbors@.len() - j,
            {
                let neighbor = agent.neighbors[j];
                let ghost ps = before + agent_pairs(*agent, j as int);
                let ghost ps1 = before + agent_pairs(*agent, j + 1);
                proof {
                    assert(ps1.drop_last() =~= ps);
                    assert(ps1.last() == (agent.id, neighbor));
                    assert(ps1 =~= ps.push((agent.id, neighbor)));
                    lemma_seen_numbers_push(ps, (agent.id, neighbor));
                }
                let ghost cs0 = cycles@;
                if agent.id < neighbor {
                    let key = pair_key(agent.id, neighbor);
                    if !seen.contains(&key) {
                        seen.insert(key);
                        match self.trace_cycle(agent.id, neighbor) {
                            Some(cycle) => {
                                cycles.push(cycle);
                                proof {
                                    assert(cycles@.map_values(|c: Vec<u64>| c@) =~= cs0.map_values(|c: Vec<u64>| c@).push(cycle@));
                                }
                            },
                            None => {},
                        }
                    }
                }
                proof {
                    if agent.id < neighbor {
                        assert(seen_numbers(ps1) == seen_numbers(ps).insert(pair_number(agent.id, neighbor)));
                        assert(seen@.contains(pair_number(agent.id, neighbor)));
                        assert(seen@ =~= seen_numbers(ps1));
                    } else {
                        assert(seen@ =~= seen_numbers(ps1));
                    }
                }
                j = j + 1;
            }
            proof {
                assert(agent_pairs(*agent, agent.neighbors@.len() as int) =~= agent.neighbors@.map_values(|n: u64| (agent.id, n)));
            }
            i = i + 1;
        }
        proof {
            assert(links.take(links.len() as int) =~= links);
        }
        cycles
    }

    /// Number of agents added.
    pub fn len(&self) -> (n: usize)
        ensures
            n == self.links_view().len(),
    {
        self.links.len()
    }

    /// The position of the agent found by `id` (the one added last with
    /// that id), if any.
    pub fn position(&self, id: u64) -> (p: Option<usize>)
        requires
            self.wf(),
        ensures
            match p {
                Some(i) => latest_position(self.links_view(), id) == Some(i as int) && i
                    < self.links_view().len(),
                None => latest_position(self.links_view(), id) is None,
            },
    {
        proof {
            lemma_latest_position_bounds(self.links@, id);
        }
        match self.index.get(&id) {
            Some(i) => Some(*i),
            None => None,
        }
    }

    /// The agent found by `id`, if any.
    pub fn get(&self, id: u64) -> (a: Option<&AgentLinks>)
        requires
            self.wf(),
        ensures
            match a {
                Some(x) => agent_with_id(self.links_view(), id) == Some(*x),
                None => agent_with_id(self.links_view(), id) is None,
            },
    {
        match self.position(id) {
            Some(i) => Some(&self.links[i]),
            None => None,
        }
    }
}

/// Bisection over the positions of a cycle to find the faulty agent: the
/// search keeps the half-open range `[left, right)`, probes its left half
/// `[left, mid)`, and keeps that half when its holonomy exceeds the
/// tolerance, the right half otherwise.
pub struct FaultSearch {
    left: usize,
    right: usize,
}

impl FaultSearch {
    /// The positions still in the range.
    pub closed spec fn range(self) -> (int, int) {
        (self.left as int, self.right as int)
    }

    /// A search over a cycle of `len` agents: the range is `[0, len)`.
    pub fn new(len: usize) -> (s: Self)
        ensures
            s.range() == (0int, len as int),
    {
        FaultSearch { left: 0, right: len }
    }

    /// Whether the range has narrowed to at most one position.
    pub fn is_done(&self) -> (b: bool)
        requires
            self.range().0 <= self.range().1,
        ensures
            b == (self.range().1 - self.range().0 <= 1),
    {
        self.right - self.left <= 1
    }

    /// The half to probe next: `[left, (left + right) / 2)`.
    pub fn probe(&self) -> (h: (usize, usize))
        requires
            self.range().0 <= self.range().1,
        ensures
            h.0 == self.range().0,
            h.1 == (self.range().0 + self.range().1) / 2,
    {
        (self.left, self.left + (self.right - self.left) / 2)
    }

    /// Narrows the range after a probe: to the probed half when it holds the
    /// fault, to the other half when it does not.
    pub fn narrow(&mut self, left_half_faulty: bool)
        requires
            old(self).range().0 + 1 < old(self).range().1,
        ensures
            ({
                let (l, r) = old(self).range();
                let mid = (l + r) / 2;
                final(self).range() == if left_half_faulty { (l, mid) } else { (mid, r) }
            }),
            old(self).range().0 <= final(self).range().0 < final(self).range().1
                <= old(self).range().1,
            final(self).range().1 - final(self).range().0 < old(self).range().1 - old(self).range().0,
    {
        let mid = self.left + (self.right - self.left) / 2;
        if left_half_faulty {
            self.right = mid;
        } else {
            self.left = mid;
        }
    }

    /// The suspected agent: the agent at the left end of the range, if the
    /// cycle has one there.
    pub fn suspect(&self, cycle: &[u64]) -> (a: Option<u64>)
        ensures
            a == if 0 <= self.range().0 < cycle@.len() {
                Some(cycle@[self.range().0])
            } else {
                None::<u64>
            },
    {
        if self.left < cycle.len() {
            Some(cycle[self.left])
        } else {
            None
        }
    }
}

/// Each narrowing step keeps at most half of the range (rounded up), so a
/// cycle of `n` agents is searched in about `log2(n)` probes.
pub proof fn law_bisection_halves(l: int, r: int, left_half_faulty: bool)
    requires
        l + 1 < r,
    ensures
        ({
            let mid = (l + r) / 2;
            let (nl, nr) = if left_half_faulty { (l, mid) } else { (mid, r) };
            &&& l <= nl < nr <= r
            &&& 2 * (nr - nl) <= (r - l) + 1
        }),
{
}

} // verus!
