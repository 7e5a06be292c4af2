//! Emergence detection through the first cohomology group of the agent graph.
//!
//! For a cellular complex with `V` vertices, `E` edges and `H0` connected
//! components, the number of independent cycles is `H1 = E - V + H0`.
//! A non-zero `H1` signals an emergent pattern.
use vstd::prelude::*;
use std::collections::HashMap;
use std::collections::HashSet;

verus! {

broadcast use vstd::std_specs::hash::group_hash_axioms;

// ---------------------------------------------------------------------------
// The graph model
// ---------------------------------------------------------------------------

/// Edge `e` joins `a` and `b` (edges are undirected).
pub open spec fn joins(e: (u64, u64), a: u64, b: u64) -> bool {
    (e.0 == a && e.1 == b) || (e.0 == b && e.1 == a)
}

/// Some edge of `edges` joins `a` and `b`.
pub open spec fn adjacent(edges: Seq<(u64, u64)>, a: u64, b: u64) -> bool {
    exists|i: int| 0 <= i < edges.len() && joins(#[trigger] edges[i], a, b)
}

/// Step `i` of the walk `w` follows an edge.
pub open spec fn walk_step(edges: Seq<(u64, u64)>, w: Seq<u64>, i: int) -> bool {
    adjacent(edges, w[i], w[i + 1])
}

/// `w` is a non-empty sequence of nodes in which consecutive nodes are adjacent.
pub open spec fn is_walk(edges: Seq<(u64, u64)>, w: Seq<u64>) -> bool {
    &&& w.len() > 0
    &&& forall|i: int| 0 <= i < w.len() - 1 ==> #[trigger] walk_step(edges, w, i)
}

/// There is a walk from `a` to `b` (a node is always connected to itself).
pub open spec fn connected(edges: Seq<(u64, u64)>, a: u64, b: u64) -> bool {
    exists|w: Seq<u64>| #[trigger] is_walk(edges, w) && w[0] == a && w.last() == b
}

/// All nodes connected to `start`.
pub open spec fn reach(edges: Seq<(u64, u64)>, start: u64) -> Set<u64> {
    Set::new(|x: u64| connected(edges, start, x))
}

/// All nodes connected to some node of `vs`.
pub open spec fn covered(vs: Seq<u64>, edges: Seq<(u64, u64)>) -> Set<u64> {
    Set::new(|x: u64| exists|j: int| 0 <= j < vs.len() && connected(edges, #[trigger] vs[j], x))
}

/// Every neighbour of a node of `s` is in `s`.
pub open spec fn closed_under(s: Set<u64>, edges: Seq<(u64, u64)>) -> bool {
    forall|a: u64, b: u64| s.contains(a) && #[trigger] adjacent(edges, a, b) ==> s.contains(b)
}

/// `vs[i]` is the first vertex of `vs` in its connected component.
pub open spec fn starts_component(vs: Seq<u64>, edges: Seq<(u64, u64)>, i: int) -> bool {
    forall|j: int| 0 <= j < i ==> !connected(edges, #[trigger] vs[j], vs[i])
}

/// Number of connected components among the vertices `vs`: the number of
/// positions that hold the first vertex of a component.
pub open spec fn component_count(vs: Seq<u64>, edges: Seq<(u64, u64)>) -> nat
    decreases vs.len(),
{
    if vs.len() == 0 {
        0
    } else {
        component_count(vs.drop_last(), edges) + if starts_component(vs, edges, vs.len() - 1) {
            1nat
        } else {
            0nat
        }
    }
}

/// `H1 = E - V + H0`, which cannot be negative; inputs that would make it
/// negative give zero.
pub open spec fn first_betti(n_vertices: int, n_edges: int, n_components: int) -> int {
    if n_edges + n_components >= n_vertices {
        n_edges + n_components - n_vertices
    } else {
        0
    }
}

/// `adj` lists, for every node, exactly the nodes adjacent to it.
pub open spec fn lists_neighbours(adj: Map<u64, Vec<u64>>, edges: Seq<(u64, u64)>) -> bool {
    forall|a: u64, b: u64|
        #[trigger] adjacent(edges, a, b) <==> (adj.contains_key(a) && adj[a]@.contains(b))
}

/// Every node named by `vs` or by an edge.
pub open spec fn node_universe(vs: Seq<u64>, edges: Seq<(u64, u64)>) -> Seq<u64> {
    vs + edges.map_values(|e: (u64, u64)| e.0) + edges.map_values(|e: (u64, u64)| e.1)
}

/// How many entries of `u` are outside `s`.
pub open spec fn outside_count(u: Seq<u64>, s: Set<u64>) -> nat
    decreases u.len(),
{
    if u.len() == 0 {
        0
    } else {
        outside_count(u.drop_last(), s) + if s.contains(u.last()) {
            0nat
        } else {
            1nat
        }
    }
}

// ---------------------------------------------------------------------------
// Lemmas on walks
// ---------------------------------------------------------------------------

proof fn lemma_adjacent_symmetric(edges: Seq<(u64, u64)>, a: u64, b: u64)
    requires
        adjacent(edges, a, b),
    ensures
        adjacent(edges, b, a),
{
    let i = choose|i: int| 0 <= i < edges.len() && joins(#[trigger] edges[i], a, b);
    assert(joins(edges[i], b, a));
}

proof fn lemma_connected_refl(edges: Seq<(u64, u64)>, a: u64)
    ensures
        connected(edges, a, a),
{
    let w = seq![a];
    assert(is_walk(edges, w));
}

proof fn lemma_connected_step(edges: Seq<(u64, u64)>, a: u64, b: u64, c: u64)
    requires
        connected(edges, a, b),
        adjacent(edges, b, c),
    ensures
        connected(edges, a, c),
{
    let w = choose|w: Seq<u64>| #[trigger] is_walk(edges, w) && w[0] == a && w.last() == b;
    let w2 = w.push(c);
    assert forall|i: int| 0 <= i < w2.len() - 1 implies #[trigger] walk_step(edges, w2, i) by {
        if i < w.len() - 1 {
            assert(walk_step(edges, w, i));
            assert(w2[i] == w[i] && w2[i + 1] == w[i + 1]);
        } else {
            assert(w2[i] == b && w2[i + 1] == c);
        }
    }
    assert(is_walk(edges, w2));
}

proof fn lemma_connected_trans(edges: Seq<(u64, u64)>, a: u64, b: u64, c: u64)
    requires
        connected(edges, a, b),
        connected(edges, b, c),
    ensures
        connected(edges, a, c),
{
    let w1 = choose|w: Seq<u64>| #[trigger] is_walk(edges, w) && w[0] == a && w.last() == b;
    let w2 = choose|w: Seq<u64>| #[trigger] is_walk(edges, w) && w[0] == b && w.last() == c;
    let w = w1 + w2.drop_first();
    assert forall|i: int| 0 <= i < w.len() - 1 implies #[trigger] walk_step(edges, w, i) by {
        if i < w1.len() - 1 {
            assert(walk_step(edges, w1, i));
            assert(w[i] == w1[i] && w[i + 1] == w1[i + 1]);
        } else {
            let k = i - (w1.len() - 1);
            assert(walk_step(edges, w2, k));
            assert(w[i] == w2[k]);
            assert(w[i + 1] == w2[k + 1]);
        }
    }
    assert(is_walk(edges, w));
    if w2.len() == 1 {
        assert(w.last() == w1.last());
    } else {
        assert(w.last() == w2.last());
    }
}

proof fn lemma_connected_symmetric(edges: Seq<(u64, u64)>, a: u64, b: u64)
    requires
        connected(edges, a, b),
    ensures
        connected(edges, b, a),
{
    let w = choose|w: Seq<u64>| #[trigger] is_walk(edges, w) && w[0] == a && w.last() == b;
    let r = w.reverse();
    assert forall|i: int| 0 <= i < r.len() - 1 implies #[trigger] walk_step(edges, r, i) by {
        let k = w.len() - 2 - i;
        assert(walk_step(edges, w, k));
        assert(r[i] == w[k + 1]);
        assert(r[i + 1] == w[k]);
        lemma_adjacent_symmetric(edges, w[k], w[k + 1]);
    }
    assert(is_walk(edges, r));
    assert(r[0] == b);
    assert(r.last() == a);
}

/// A set closed under adjacency that holds the first node of a walk holds all of it.
proof fn lemma_walk_stays_in(s: Set<u64>, edges: Seq<(u64, u64)>, w: Seq<u64>, k: int)
    requires
        closed_under(s, edges),
        is_walk(edges, w),
        s.contains(w[0]),
        0 <= k < w.len(),
    ensures
        s.contains(w[k]),
    decreases k,
{
    if k > 0 {
        lemma_walk_stays_in(s, edges, w, k - 1);
        assert(walk_step(edges, w, k - 1));
    }
}

proof fn lemma_closed_contains_reach(s: Set<u64>, edges: Seq<(u64, u64)>, a: u64, b: u64)
    requires
        closed_under(s, edges),
        s.contains(a),
        connected(edges, a, b),
    ensures
        s.contains(b),
{
    let w = choose|w: Seq<u64>| #[trigger] is_walk(edges, w) && w[0] == a && w.last() == b;
    lemma_walk_stays_in(s, edges, w, w.len() - 1);
}

proof fn lemma_covered_closed(vs: Seq<u64>, edges: Seq<(u64, u64)>)
    ensures
        closed_under(covered(vs, edges), edges),
{
    assert forall|a: u64, b: u64|
        covered(vs, edges).contains(a) && #[trigger] adjacent(edges, a, b) implies covered(
        vs,
        edges,
    ).contains(b) by {
        let j = choose|j: int| 0 <= j < vs.len() && connected(edges, #[trigger] vs[j], a);
        lemma_connected_step(edges, vs[j], a, b);
    }
}

proof fn lemma_adjacent_in_universe(vs: Seq<u64>, edges: Seq<(u64, u64)>, a: u64, b: u64)
    requires
        adjacent(edges, a, b),
    ensures
        node_universe(vs, edges).contains(b),
{
    let i = choose|i: int| 0 <= i < edges.len() && joins(#[trigger] edges[i], a, b);
    let u = node_universe(vs, edges);
    let firsts = edges.map_values(|e: (u64, u64)| e.0);
    let seconds = edges.map_values(|e: (u64, u64)| e.1);
    if edges[i].1 == b {
        assert(u[vs.len() + edges.len() + i] == seconds[i]);
    } else {
        assert(u[vs.len() + i] == firsts[i]);
    }
}

proof fn lemma_outside_count_mono(u: Seq<u64>, s: Set<u64>, t: Set<u64>)
    requires
        s.subset_of(t),
    ensures
        outside_count(u, t) <= outside_count(u, s),
    decreases u.len(),
{
    if u.len() > 0 {
        lemma_outside_count_mono(u.drop_last(), s, t);
    }
}

proof fn lemma_outside_count_strict(u: Seq<u64>, s: Set<u64>, t: Set<u64>, x: u64)
    requires
        s.subset_of(t),
        u.contains(x),
        !s.contains(x),
        t.contains(x),
    ensures
        outside_count(u, t) < outside_count(u, s),
    decreases u.len(),
{
    if u.last() == x {
        lemma_outside_count_mono(u.drop_last(), s, t);
    } else {
        let k = choose|k: int| 0 <= k < u.len() && u[k] == x;
        assert(u.drop_last()[k] == x);
        lemma_outside_count_strict(u.drop_last(), s, t, x);
    }
}

// ---------------------------------------------------------------------------
// Laws
// ---------------------------------------------------------------------------

/// Connectivity is an equivalence relation: reflexive, symmetric and transitive.
pub proof fn law_connected_is_equivalence(edges: Seq<(u64, u64)>, a: u64, b: u64, c: u64)
    ensures
        connected(edges, a, a),
        connected(edges, a, b) ==> connected(edges, b, a),
        connected(edges, a, b) && connected(edges, b, c) ==> connected(edges, a, c),
{
    lemma_connected_refl(edges, a);
    if connected(edges, a, b) {
        lemma_connected_symmetric(edges, a, b);
        if connected(edges, b, c) {
            lemma_connected_trans(edges, a, b, c);
        }
    }
}

/// The components met by the vertices `vs`.
pub open spec fn component_classes(vs: Seq<u64>, edges: Seq<(u64, u64)>) -> Set<Set<u64>> {
    vs.map_values(|v: u64| reach(edges, v)).to_set()
}

/// `H0` counts components: the number that `count_components` computes is
/// the number of distinct connected components that the vertices meet.
pub proof fn law_component_count_is_number_of_components(vs: Seq<u64>, edges: Seq<(u64, u64)>)
    ensures
        component_count(vs, edges) == component_classes(vs, edges).len(),
        component_count(vs, edges) <= vs.len(),
    decreases vs.len(),
{
    broadcast use vstd::seq_lib::seq_to_set_is_finite;
    if vs.len() == 0 {
        assert(component_classes(vs, edges) =~= Set::<Set<u64>>::empty());
    } else {
        let s = vs.drop_last();
        let v = vs.last();
        law_component_count_is_number_of_components(s, edges);
        let f = |x: u64| reach(edges, x);
        assert(vs.map_values(f) =~= s.map_values(f).push(reach(edges, v)));
        s.map_values(f).lemma_push_to_set_commute(reach(edges, v));
        assert(component_classes(vs, edges) =~= component_classes(s, edges).insert(reach(edges, v)));
        if starts_component(vs, edges, vs.len() - 1) {
            if component_classes(s, edges).contains(reach(edges, v)) {
                let j = choose|j: int| 0 <= j < s.map_values(f).len() && s.map_values(f)[j] == reach(edges, v);
                lemma_connected_refl(edges, v);
                assert(reach(edges, v).contains(v));
                assert(reach(edges, s[j]).contains(v));
                assert(vs[j] == s[j]);
                assert(connected(edges, vs[j], vs[vs.len() - 1]));
                assert(false);
            }
        } else {
            let j = choose|j: int| 0 <= j < vs.len() - 1 && connected(edges, #[trigger] vs[j], vs[vs.len() - 1]);
            assert(vs[j] == s[j]);
            assert forall|x: u64| #[trigger] reach(edges, v).contains(x) == reach(edges, s[j]).contains(x) by {
                if connected(edges, v, x) {
                    lemma_connected_trans(edges, s[j], v, x);
                }
                if connected(edges, s[j], x) {
                    lemma_connected_symmetric(edges, s[j], v);
                    lemma_connected_trans(edges, v, s[j], x);
                }
            }
            assert(reach(edges, v) =~= reach(edges, s[j]));
            assert(s.map_values(f)[j] == reach(edges, v));
            assert(component_classes(s, edges).contains(reach(edges, v)));
        }
    }
}

/// `H1` never goes negative: it is 0 when `E + H0 < V`.
pub proof fn law_first_betti_floor(n_vertices: int, n_edges: int, n_components: int)
    requires
        n_edges + n_components < n_vertices,
    ensures
        first_betti(n_vertices, n_edges, n_components) == 0,
{
}

/// Whenever `E + H0 >= V`, the reported `H1` is exactly `E - V + H0`, and
/// emergence is reported exactly when `E + H0 > V`.
pub proof fn law_first_betti_when_nonnegative(n_vertices: int, n_edges: int, n_components: int)
    requires
        0 <= n_vertices,
        0 <= n_edges,
        0 <= n_components,
        n_edges + n_components >= n_vertices,
    ensures
        first_betti(n_vertices, n_edges, n_components) == n_edges - n_vertices + n_components,
        (first_betti(n_vertices, n_edges, n_components) > 0) <==> n_edges + n_components > n_vertices,
{
}

/// Two edge lists of the same length in which every edge of either joins
/// the same two nodes as some edge of the other (as when one list is the
/// other reordered, with some edges written the other way round).
pub open spec fn same_edges(es: Seq<(u64, u64)>, es2: Seq<(u64, u64)>) -> bool {
    &&& es2.len() == es.len()
    &&& forall|i: int|
        #![trigger es[i]]
        0 <= i < es.len() ==> exists|j: int| 0 <= j < es2.len() && joins(#[trigger] es2[j], es[i].0, es[i].1)
    &&& forall|j: int|
        #![trigger es2[j]]
        0 <= j < es2.len() ==> exists|i: int| 0 <= i < es.len() && joins(#[trigger] es[i], es2[j].0, es2[j].1)
}

proof fn lemma_same_edges_same_reach(es: Seq<(u64, u64)>, es2: Seq<(u64, u64)>, v: u64)
    requires
        same_edges(es, es2),
    ensures
        reach(es, v) == reach(es2, v),
{
    assert forall|a: u64, b: u64| #[trigger] adjacent(es, a, b) == adjacent(es2, a, b) by {
        if adjacent(es, a, b) {
            let i = choose|i: int| 0 <= i < es.len() && joins(#[trigger] es[i], a, b);
            let j = choose|j: int| 0 <= j < es2.len() && joins(#[trigger] es2[j], es[i].0, es[i].1);
            assert(joins(es2[j], a, b));
        }
        if adjacent(es2, a, b) {
            let j = choose|j: int| 0 <= j < es2.len() && joins(#[trigger] es2[j], a, b);
            let i = choose|i: int| 0 <= i < es.len() && joins(#[trigger] es[i], es2[j].0, es2[j].1);
            assert(joins(es[i], a, b));
        }
    }
    assert forall|w: Seq<u64>|
        #![trigger is_walk(es, w)]
        #![trigger is_walk(es2, w)]
        is_walk(es, w) == is_walk(es2, w) by {
        assert forall|i: int|
            #![trigger walk_step(es, w, i)]
            #![trigger walk_step(es2, w, i)]
            0 <= i < w.len() - 1 implies walk_step(es, w, i) == walk_step(es2, w, i) by {
            assert(adjacent(es, w[i], w[i + 1]) == adjacent(es2, w[i], w[i + 1]));
        }
    }
    assert forall|x: u64| #[trigger] reach(es, v).contains(x) == reach(es2, v).contains(x) by {
        if connected(es, v, x) {
            let w = choose|w: Seq<u64>| #[trigger] is_walk(es, w) && w[0] == v && w.last() == x;
            assert(is_walk(es2, w));
        }
        if connected(es2, v, x) {
            let w = choose|w: Seq<u64>| #[trigger] is_walk(es2, w) && w[0] == v && w.last() == x;
            assert(is_walk(es, w));
        }
    }
    assert(reach(es, v) =~= reach(es2, v));
}

/// Listing the vertices in another order, or the edges in another order
/// with some edges written the other way round, changes nothing that
/// `from_edge_list` reports: not `V`, `E`, `H0`, nor `H1`.
pub proof fn law_edge_list_order_free(
    vs: Seq<u64>,
    es: Seq<(u64, u64)>,
    vs2: Seq<u64>,
    es2: Seq<(u64, u64)>,
)
    requires
        vs2.to_multiset() == vs.to_multiset(),
        same_edges(es, es2),
    ensures
        vs2.len() == vs.len(),
        es2.len() == es.len(),
        component_count(vs2, es2) == component_count(vs, es),
        first_betti(vs2.len() as int, es2.len() as int, component_count(vs2, es2) as int)
            == first_betti(vs.len() as int, es.len() as int, component_count(vs, es) as int),
{
    broadcast use vstd::seq_lib::group_to_multiset_ensures;
    broadcast use vstd::seq_lib::seq_to_set_is_finite;
    assert(vs2.len() == vs2.to_multiset().len());
    assert(vs.len() == vs.to_multiset().len());
    let f = |v: u64| reach(es, v);
    let f2 = |v: u64| reach(es2, v);
    assert forall|v: u64| #[trigger] f(v) == f2(v) by {
        lemma_same_edges_same_reach(es, es2, v);
    }
    assert(f =~= f2);
    assert(vs.to_set() =~= vs2.to_set()) by {
        assert forall|x: u64| #[trigger] vs.to_set().contains(x) == vs2.to_set().contains(x) by {
            assert(vs.contains(x) == vs.to_multiset().contains(x));
            assert(vs2.contains(x) == vs2.to_multiset().contains(x));
        }
    }
    vs.lemma_to_set_map_commutes(f);
    vs2.lemma_to_set_map_commutes(f2);
    assert(component_classes(vs, es) == vs.map_values(f).to_set());
    assert(component_classes(vs2, es2) == vs2.map_values(f2).to_set());
    assert(component_classes(vs, es) =~= component_classes(vs2, es2));
    law_component_count_is_number_of_components(vs, es);
    law_component_count_is_number_of_components(vs2, es2);
}

// ---------------------------------------------------------------------------
// Executable detector
// ---------------------------------------------------------------------------

/// Result of emergence detection via cohomology.
pub struct EmergenceResult {
    /// H0 dimension: number of connected components.
    pub h0: usize,
    /// H1 dimension: number of independent cycles (emergent patterns).
    pub h1: usize,
    /// True if emergence was detected (H1 > 0).
    pub emergence_detected: bool,
    /// Number of edges in the complex.
    pub n_edges: usize,
    /// Number of vertices in the complex.
    pub n_vertices: usize,
}

/// H1 cohomology emergence detector.
pub struct EmergenceDetector;

impl EmergenceDetector {
    /// Computes the cohomology dimensions of a complex with `n_vertices`
    /// vertices, `n_edges` edges and `n_components` connected components.
    pub fn detect(n_vertices: usize, n_edges: usize, n_components: usize) -> (r: EmergenceResult)
        requires
            n_edges + n_components - n_vertices <= usize::MAX,
        ensures
            r.h0 == n_components,
            r.h1 == first_betti(n_vertices as int, n_edges as int, n_components as int),
            r.emergence_detected == (r.h1 > 0),
            r.n_edges == n_edges,
            r.n_vertices == n_vertices,
    {
        let h0 = n_components;
        let h1 = if n_edges >= n_vertices {
            n_edges - n_vertices + n_components
        } else {
            let deficit = n_vertices - n_edges;
            if n_components >= deficit {
                n_components - deficit
            } else {
                0
            }
        };
        EmergenceResult { h0, h1, emergence_detected: h1 > 0, n_edges, n_vertices }
    }

    /// Computes the cohomology dimensions of the graph given by a vertex list
    /// and an (undirected) edge list; the components are counted in the graph.
    pub fn from_edge_list(vertices: &[u64], edges: &[(u64, u64)]) -> (r: EmergenceResult)
        ensures
            r.h0 == component_count(vertices@, edges@),
            r.h1 == first_betti(
                vertices@.len() as int,
                edges@.len() as int,
                component_count(vertices@, edges@) as int,
            ),
            r.emergence_detected == (r.h1 > 0),
            r.n_edges == edges@.len(),
            r.n_vertices == vertices@.len(),
    {
        let n_vertices = vertices.len();
        let n_edges = edges.len();
        let n_components = Self::count_components(vertices, edges);
        Self::detect(n_vertices, n_edges, n_components)
    }

    /// Counts the connected components among `vertices`.
    fn count_components(vertices: &[u64], edges: &[(u64, u64)]) -> (n: usize)
        ensures
            n == component_count(vertices@, edges@),
            n <= vertices@.len(),
    {
        if vertices.len() == 0 {
            return 0;
        }
        let ghost es = edges@;
        let ghost vs = vertices@;
        let mut adj: HashMap<u64, Vec<u64>> = HashMap::new();
        let mut i: usize = 0;
        while i < vertices.len()
            invariant
                i <= vertices@.len(),
                forall|x: u64| #[trigger] adj@.contains_key(x) ==> adj@[x]@.len() == 0,
            decreases vertices@.len() - i,
        {
            let v = vertices[i];
            if !adj.contains_key(&v) {
                adj.insert(v, Vec::new());
            }
            i = i + 1;
        }
        proof {
            assert forall|x: u64, y: u64| #[trigger]
                adjacent(es.take(0), x, y) <==> (adj@.contains_key(x) && adj@[x]@.contains(y)) by {
                if adj@.contains_key(x) && adj@[x]@.contains(y) {
                    assert(adj@[x]@.len() == 0);
                }
            }
        }
        let mut k: usize = 0;
        while k < edges.len()
            invariant
                k <= edges@.len(),
                es == edges@,
                lists_neighbours(adj@, es.take(k as int)),
            decreases edges@.len() - k,
        {
            let (a, b) = edges[k];
            let ghost before = adj@;
            let mut la = match adj.remove(&a) {
                Some(l) => l,
                None => Vec::new(),
            };
            la.push(b);
            adj.insert(a, la);
            let ghost middle = adj@;
            let mut lb = match adj.remove(&b) {
                Some(l) => l,
                None => Vec::new(),
            };
            lb.push(a);
            adj.insert(b, lb);
            proof {
                let old_es = es.take(k as int);
                let new_es = es.take(k + 1);
                assert(new_es[k as int] == (a, b));
                assert forall|x: u64, y: u64| #[trigger]
                    adjacent(new_es, x, y) <==> (adj@.contains_key(x) && adj@[x]@.contains(y)) by {
                    if adjacent(new_es, x, y) {
                        let j = choose|j: int| 0 <= j < new_es.len() && joins(#[trigger] new_es[j], x, y);
                        if j < k {
                            assert(old_es[j] == new_es[j]);
                            assert(adjacent(old_es, x, y));
                            let p = choose|p: int| 0 <= p < before[x]@.len() && before[x]@[p] == y;
                            if x == a {
                                assert(middle[x]@[p] == y);
                            }
                            if x == b {
                                assert(middle[x]@.contains(y));
                                let q = choose|q: int| 0 <= q < middle[x]@.len() && middle[x]@[q] == y;
                                assert(adj@[x]@[q] == y);
                            } else {
                                assert(middle[x]@.contains(y));
                            }
                        } else {
                            if x == b {
                                assert(adj@[x]@[adj@[x]@.len() - 1] == a);
                                if y != a {
                                    assert(x == a && y == b);
                                    assert(middle[x]@[middle[x]@.len() - 1] == b);
                                    assert(adj@[x]@[middle[x]@.len() - 1] == b);
                                }
                            } else {
                                assert(x == a && y == b);
                                assert(middle[x]@[middle[x]@.len() - 1] == b);
                            }
                        }
                    }
                    if adj@.contains_key(x) && adj@[x]@.contains(y) {
                        let q = choose|q: int| 0 <= q < adj@[x]@.len() && adj@[x]@[q] == y;
                        let in_middle = middle.contains_key(x) && middle[x]@.contains(y);
                        if x == b {
                            if q == adj@[x]@.len() - 1 {
                                assert(joins(new_es[k as int], x, y));
                            } else {
                                assert(middle[x]@[q] == y);
                            }
                        }
                        if in_middle {
                            let r = choose|r: int| 0 <= r < middle[x]@.len() && middle[x]@[r] == y;
                            if x == a {
                                if r == middle[x]@.len() - 1 {
                                    assert(joins(new_es[k as int], x, y));
                                } else {
                                    assert(before[x]@[r] == y);
                                    assert(adjacent(old_es, x, y));
                                }
                            } else {
                                assert(before[x]@[r] == y);
                                assert(adjacent(old_es, x, y));
                            }
                            if adjacent(old_es, x, y) {
                                let j = choose|j: int| 0 <= j < old_es.len() && joins(#[trigger] old_es[j], x, y);
                                assert(new_es[j] == old_es[j]);
                            }
                        }
                    }
                }
            }
            k = k + 1;
        }
        proof {
            assert(es.take(edges@.len() as int) =~= es);
        }
        let ghost universe = node_universe(vs, es);
        proof {
            assert forall|a: u64, b: u64| #[trigger] adjacent(es, a, b) implies universe.contains(b) by {
                lemma_adjacent_in_universe(vs, es, a, b);
            }
        }
        let mut visited: HashSet<u64> = HashSet::new();
        let mut components: usize = 0;
        let mut i: usize = 0;
        proof {
            assert(visited@ =~= covered(vs.take(0), es));
        }
        while i < vertices.len()
            invariant
                i <= vertices@.len(),
                vs == vertices@,
                lists_neighbours(adj@, es),
                universe == node_universe(vs, es),
                forall|a: u64, b: u64| #[trigger] adjacent(es, a, b) ==> universe.contains(b),
                visited@ == covered(vs.take(i as int), es),
                components == component_count(vs.take(i as int), es),
                components <= i,
            decreases vertices@.len() - i,
        {
            let v = vertices[i];
            let ghost pre = vs.take(i as int);
            let ghost post = vs.take(i + 1);
            assert(post.drop_last() =~= pre);
            assert(post[i as int] == v);
            if !visited.contains(&v) {
                proof {
                    lemma_covered_closed(pre, es);
                    assert(universe[i as int] == v);
                    assert forall|j: int| 0 <= j < i implies !connected(es, #[trigger] post[j], post[i as int]) by {
                        assert(post[j] == pre[j]);
                    }
                }
                Self::bfs(v, &adj, &mut visited, Ghost(es), Ghost(universe));
                proof {
                    assert forall|x: u64| #[trigger] visited@.contains(x) == covered(post, es).contains(x) by {
                        if covered(post, es).contains(x) {
                            let j = choose|j: int| 0 <= j < post.len() && connected(es, #[trigger] post[j], x);
                            if j < i {
                                assert(pre[j] == post[j]);
                                assert(covered(pre, es).contains(x));
                            }
                        }
                        if covered(pre, es).contains(x) {
                            let j = choose|j: int| 0 <= j < pre.len() && connected(es, #[trigger] pre[j], x);
                            assert(pre[j] == post[j]);
                        }
                    }
                    assert(visited@ =~= covered(post, es));
                }
                components = components + 1;
            } else {
                proof {
                    let j0 = choose|j: int| 0 <= j < pre.len() && connected(es, #[trigger] pre[j], v);
                    assert(post[j0] == pre[j0]);
                    assert(!starts_component(post, es, i as int));
                    assert forall|x: u64| #[trigger] visited@.contains(x) == covered(post, es).contains(x) by {
                        if covered(post, es).contains(x) {
                            let j = choose|j: int| 0 <= j < post.len() && connected(es, #[trigger] post[j], x);
                            if j < i {
                                assert(pre[j] == post[j]);
                            } else {
                                lemma_connected_trans(es, pre[j0], v, x);
                            }
                        }
                        if covered(pre, es).contains(x) {
                            let j = choose|j: int| 0 <= j < pre.len() && connected(es, #[trigger] pre[j], x);
                            assert(pre[j] == post[j]);
                        }
                    }
                    assert(visited@ =~= covered(post, es));
                }
            }
            i = i + 1;
        }
        proof {
            assert(vs.take(vs.len() as int) =~= vs);
        }
        components
    }

    /// Marks every node connected to `start` as visited, walking the graph
    /// from a stack of pending nodes.
    fn bfs(
        start: u64,
        adj: &HashMap<u64, Vec<u64>>,
        visited: &mut HashSet<u64>,
        Ghost(es): Ghost<Seq<(u64, u64)>>,
        Ghost(universe): Ghost<Seq<u64>>,
    )
        requires
            lists_neighbours(adj@, es),
            closed_under(old(visited)@, es),
            universe.contains(start),
            forall|a: u64, b: u64| #[trigger] adjacent(es, a, b) ==> universe.contains(b),
        ensures
            final(visited)@ == old(visited)@.union(reach(es, start)),
    {
        let ghost initial = visited@;
        let mut queue: Vec<u64> = Vec::new();
        queue.push(start);
        proof {
            lemma_connected_refl(es, start);
            assert(queue@[0] == start);
        }
        while queue.len() > 0
            invariant
                lists_neighbours(adj@, es),
                closed_under(initial, es),
                forall|a: u64, b: u64| #[trigger] adjacent(es, a, b) ==> universe.contains(b),
                initial.subset_of(visited@),
                forall|x: u64| #[trigger] visited@.contains(x) ==> initial.contains(x) || connected(es, start, x),
                forall|k: int| 0 <= k < queue@.len() ==> connected(es, start, #[trigger] queue@[k]),
                forall|k: int| 0 <= k < queue@.len() ==> universe.contains(#[trigger] queue@[k]),
                forall|x: u64, y: u64|
                    visited@.contains(x) && !initial.contains(x) && #[trigger] adjacent(es, x, y)
                        ==> visited@.contains(y) || queue@.contains(y),
                visited@.contains(start) || queue@.contains(start),
            decreases outside_count(universe, visited@), queue@.len(),
        {
            let ghost q0 = queue@;
            let ghost vis0 = visited@;
            let v = queue.pop().unwrap();
            assert(q0[q0.len() - 1] == v);
            assert forall|k: int| 0 <= k < queue@.len() implies #[trigger] queue@[k] == q0[k] by {}
            if visited.contains(&v) {
                proof {
                    assert forall|y: u64| q0.contains(y) implies visited@.contains(y) || queue@.contains(y) by {
                        let k = choose|k: int| 0 <= k < q0.len() && q0[k] == y;
                        if k < queue@.len() {
                            assert(queue@[k] == y);
                        }
                    }
                }
                continue;
            }
            visited.insert(v);
            proof {
                assert(connected(es, start, v));
                assert(universe.contains(v));
                lemma_outside_count_strict(universe, vis0, visited@, v);
                assert forall|y: u64| q0.contains(y) implies visited@.contains(y) || queue@.contains(y) by {
                    let k = choose|k: int| 0 <= k < q0.len() && q0[k] == y;
                    if k < queue@.len() {
                        assert(queue@[k] == y);
                    }
                }
            }
            let ghost q1 = queue@;
            match adj.get(&v) {
                Some(neighbors) => {
                    let mut j: usize = 0;
                    while j < neighbors.len()
                        invariant
                            j <= neighbors@.len(),
                            adj@.contains_key(v) && adj@[v] == *neighbors,
                            lists_neighbours(adj@, es),
                            connected(es, start, v),
                            forall|a: u64, b: u64| #[trigger] adjacent(es, a, b) ==> universe.contains(b),
                            visited@.contains(v),
                            forall|k: int| 0 <= k < q1.len() ==> #[trigger] queue@[k] == q1[k],
                            q1.len() <= queue@.len(),
                            forall|k: int| 0 <= k < queue@.len() ==> connected(es, start, #[trigger] queue@[k]),
                            forall|k: int| 0 <= k < queue@.len() ==> universe.contains(#[trigger] queue@[k]),
                            forall|k: int| 0 <= k < j ==> visited@.contains(#[trigger] neighbors@[k]) || queue@.contains(neighbors@[k]),
                        decreases neighbors@.len() - j,
                    {
                        let n = neighbors[j];
                        proof {
                            assert(adj@[v]@.contains(n));
                            assert(adjacent(es, v, n));
                            lemma_connected_step(es, start, v, n);
                        }
                        let ghost qb = queue@;
                        if !visited.contains(&n) {
                            queue.push(n);
                            proof {
                                assert(queue@[queue@.len() - 1] == n);
                                assert forall|k: int| 0 <= k < j implies visited@.contains(#[trigger] neighbors@[k]) || queue@.contains(neighbors@[k]) by {
                                    if !visited@.contains(neighbors@[k]) {
                                        let p = choose|p: int| 0 <= p < qb.len() && qb[p] == neighbors@[k];
                                        assert(queue@[p] == qb[p]);
                                    }
                                }
                            }
                        }
                        j = j + 1;
                    }
                    proof {
                        assert forall|y: u64| #[trigger] adjacent(es, v, y) implies visited@.contains(y) || queue@.contains(y) by {
                            let p = choose|p: int| 0 <= p < neighbors@.len() && neighbors@[p] == y;
                            assert(visited@.contains(neighbors@[p]) || queue@.contains(neighbors@[p]));
                        }
                    }
                }
                None => {}
            }
            proof {
                assert forall|y: u64| q1.contains(y) implies queue@.contains(y) by {
                    let k = choose|k: int| 0 <= k < q1.len() && q1[k] == y;
                    assert(queue@[k] == y);
                }
            }
        }
        proof {
            assert(closed_under(visited@, es)) by {
                assert forall|a: u64, b: u64| visited@.contains(a) && #[trigger] adjacent(es, a, b) implies visited@.contains(b) by {
                    if initial.contains(a) {
                        assert(initial.contains(b));
                    }
                }
            }
            assert forall|x: u64| #[trigger] visited@.contains(x) == initial.union(reach(es, start)).contains(x) by {
                if reach(es, start).contains(x) {
                    lemma_closed_contains_reach(visited@, es, start, x);
                }
            }
            assert(visited@ =~= initial.union(reach(es, start)));
        }
    }
}

} // verus!
