//! Zero-holonomy consensus primitives for fleet coordination: emergence
//! detection through cohomology, INT8 constraint bounds, Pythagorean
//! direction encoding, trust lifecycle states with Lamport clocks, a pool of
//! trust tiles, the agent graph of GL(9) consensus and the integer side of
//! the consensus benchmarks.
use vstd::prelude::*;

pub mod benchmarks;
pub mod cohomology;
pub mod constraints;
pub mod encoding;
pub mod lifecycle;
pub mod trust_lifecycle;
pub mod zhc_gl9;

pub use cohomology::{EmergenceDetector, EmergenceResult};
pub use constraints::{sat8, ConstraintResult, HolonomyBounds};
pub use encoding::{Pythagorean48, Vector48};
pub use lifecycle::{LamportClock, RetractionReason, TrustState};
pub use trust_lifecycle::{ConsensusOutcome, LifecycleError, TrustPool, TrustTile};

verus! {

/// Result of a lifecycle operation.
pub type Result<T> = core::result::Result<T, trust_lifecycle::LifecycleError>;

} // verus!
