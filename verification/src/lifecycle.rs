//! Tile lifecycle: trust states and Lamport clocks for causal ordering.
//!
//! A trust tile is `Active` while its verification holds. A newer
//! verification makes it `Superseded`; a failed check makes it `Retracted`.
use vstd::prelude::*;

verus! {

/// The lifecycle state of a trust tile.
///
/// Transitions:
/// - Active → Superseded (a newer verification replaces this one)
/// - Active → Retracted (constraint violation detected)
#[derive(Clone, Copy, Debug, PartialEq, Eq, Structural)]
pub enum TrustState {
    /// Trust tile is current and valid; it participates in consensus.
    Active,
    /// A newer verification has replaced this tile; historical only.
    Superseded,
    /// Constraint violation detected; the tile is invalidated.
    Retracted,
}

/// The name of a trust state, as it is displayed.
pub open spec fn trust_state_name(s: TrustState) -> Seq<char> {
    match s {
        TrustState::Active => "Active"@,
        TrustState::Superseded => "Superseded"@,
        TrustState::Retracted => "Retracted"@,
    }
}

/// The lifecycle allows exactly the moves out of `Active`.
pub open spec fn transition_allowed(from: TrustState, to: TrustState) -> bool {
    from == TrustState::Active && to != TrustState::Active
}

impl TrustState {
    /// The display name of this state ("Active", "Superseded" or "Retracted").
    pub fn display_name(&self) -> (s: String)
        ensures
            s@ == trust_state_name(*self),
    {
        match self {
            TrustState::Active => "Active".to_owned(),
            TrustState::Superseded => "Superseded".to_owned(),
            TrustState::Retracted => "Retracted".to_owned(),
        }
    }
}

/// `a` causally precedes `b`: its time is strictly earlier.
pub open spec fn happens_before(a: LamportClock, b: LamportClock) -> bool {
    a.0 < b.0
}

/// Lamport logical clock for causal ordering of trust tiles.
///
/// If `a.0 < b.0` then `a` happened before `b`.
#[derive(Clone, Copy, Debug, PartialEq, Eq, Structural, PartialOrd, Ord)]
pub struct LamportClock(pub u64);

impl LamportClock {
    /// A new clock starting at 0.
    pub fn new() -> (c: Self)
        ensures
            c.0 == 0,
    {
        LamportClock(0)
    }

    /// Ticks the clock forward (before creating a new tile) and returns the new time.
    pub fn tick(&mut self) -> (t: Self)
        requires
            old(self).0 < u64::MAX,
        ensures
            final(self).0 == old(self).0 + 1,
            t == *final(self),
            happens_before(*old(self), *final(self)),
    {
        self.0 = self.0 + 1;
        *self
    }

    /// Merges with another clock (after receiving a message): the maximum of
    /// both times, plus one.
    pub fn merge(&mut self, other: LamportClock) -> (t: Self)
        requires
            old(self).0 < u64::MAX,
            other.0 < u64::MAX,
        ensures
            final(self).0 == (if old(self).0 >= other.0 { old(self).0 } else { other.0 }) + 1,
            t == *final(self),
            happens_before(*old(self), *final(self)),
            happens_before(other, *final(self)),
    {
        let m = if self.0 >= other.0 { self.0 } else { other.0 };
        self.0 = m + 1;
        *self
    }

    /// Current value without incrementing.
    pub fn now(&self) -> (v: u64)
        ensures
            v == self.0,
    {
        self.0
    }

    /// Whether this timestamp causally precedes `other`.
    pub fn happened_before(&self, other: &LamportClock) -> (b: bool)
        ensures
            b == happens_before(*self, *other),
    {
        self.0 < other.0
    }
}

impl Default for LamportClock {
    fn default() -> (c: Self)
        ensures
            c.0 == 0,
    {
        Self::new()
    }
}

/// Why a trust tile was invalidated.
#[derive(Clone, Debug, PartialEq, Eq)]
pub enum RetractionReason {
    /// Holonomy check failed: cycle deviation exceeded tolerance.
    HolonomyViolation { deviation: String },
    /// Constraint check failed: INT8 bounds exceeded.
    ConstraintViolation { error_mask: u32 },
    /// Manual retraction by an operator.
    Manual { reason: String },
    /// Tile expired (max cycle age exceeded).
    Expired,
}

// ---------------------------------------------------------------------------
// Laws
// ---------------------------------------------------------------------------

/// `happened_before` is a strict order: irreflexive, asymmetric and transitive.
pub proof fn law_happened_before_strict_order(a: LamportClock, b: LamportClock, c: LamportClock)
    ensures
        !happens_before(a, a),
        happens_before(a, b) ==> !happens_before(b, a),
        happens_before(a, b) && happens_before(b, c) ==> happens_before(a, c),
{
}

/// Only `Active` tiles move, and only to `Superseded` or `Retracted`;
/// `Superseded` and `Retracted` are final.
pub proof fn law_terminal_states(to: TrustState)
    ensures
        !transition_allowed(TrustState::Superseded, to),
        !transition_allowed(TrustState::Retracted, to),
        transition_allowed(TrustState::Active, TrustState::Superseded),
        transition_allowed(TrustState::Active, TrustState::Retracted),
{
}

} // verus!
