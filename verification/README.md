# openshell-holonomy-consensus

Zero-holonomy consensus primitives for fleet coordination, verified with Verus.

- `src/` is the verified library:
  - `cohomology`: connected components of an agent graph (a stack-based walk
    over an adjacency map) and the cohomology dimensions `H0`, `H1 = E - V + H0`.
  - `constraints`: INT8 saturation and the constraint check of a scaled
    holonomy deviation.
  - `encoding`: the table of 48 exact Pythagorean directions.
  - `lifecycle`: trust states and Lamport clocks.
  - `trust_lifecycle`: trust tiles and the trust pool (verification cycles,
    supersession, retraction, queries).
  - `zhc_gl9`: the agent registry of GL(9) consensus, cycle tracing and the
    fault bisection.
  - `benchmarks`: baseline protocol state (PBFT sequence, Raft log, G-Counter
    CRDT) and the figures the benchmarks report.
- `app/` holds what works in floating point (the 9×9 transforms, intent
  vectors, direction conversions, deviation scaling), the timed benchmark
  harness, and serialisable copies of the library's types.
- `tests/` exercises the library.

Not here: the holonomy benchmark (`benchmark_holonomy` and its
`HolonomySummary`). It builds a `HolonomyConsensus` of 3×3 rotation tiles
from the `consensus` module of the upstream holonomy-consensus crate, and
that module is not part of this source tree; only its tile wiring is kept,
as `benchmarks::ring_neighbors`.

The direction table gives 48 pairwise distinct directions (proved in
`encoding::law_directions_distinct`); codes 20 to 23 are the four sign
variants of the 20-21-29 triple.
