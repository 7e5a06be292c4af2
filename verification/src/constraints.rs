//! INT8-saturated constraint boundaries for holonomy consensus.
//!
//! All arithmetic saturates to `[-127, 127]`; a holonomy deviation that
//! exceeds its INT8 bound is a constraint violation.
use vstd::prelude::*;

verus! {

/// INT8 saturation: `v` clamped into `[-127, 127]`.
pub open spec fn spec_sat8(v: int) -> int {
    if v < -127 {
        -127
    } else if v > 127 {
        127
    } else {
        v
    }
}

/// INT8 saturation: clamps `v` to `[-127, 127]`.
pub fn sat8(v: i32) -> (r: i32)
    ensures
        r == spec_sat8(v as int),
{
    if v < -127 {
        -127
    } else if v > 127 {
        127
    } else {
        v
    }
}

/// Constraint bounds for holonomy deviation.
#[derive(Clone, Copy, Debug)]
pub struct HolonomyBounds {
    /// Maximum allowed deviation from identity (scaled by 1000 into INT8 range).
    pub max_deviation: i32,
    /// Maximum number of cycles before recheck.
    pub max_cycle_age: i32,
    /// Minimum number of agreeing cycles for consensus.
    pub min_agreement: i32,
}

impl Default for HolonomyBounds {
    /// Deviation bound 10 (0.01 scaled by 1000), recheck after 100 cycles,
    /// 7 agreeing neighbours.
    fn default() -> (b: Self)
        ensures
            b.max_deviation == 10,
            b.max_cycle_age == 100,
            b.min_agreement == 7,
    {
        HolonomyBounds { max_deviation: 10, max_cycle_age: 100, min_agreement: 7 }
    }
}

/// Bit set in the error mask when the deviation is out of bounds.
pub const OUT_OF_BOUNDS_BIT: u32 = 1;

/// Bit set in the error mask when saturation lost information.
pub const SATURATED_BIT: u32 = 2;

/// Whether a saturated deviation lies within the bounds.
pub open spec fn within_bounds(sat_dev: int, bounds: HolonomyBounds) -> bool {
    -bounds.max_deviation <= sat_dev <= bounds.max_deviation
}

/// The error mask of a check on the scaled deviation `scaled`.
pub open spec fn error_mask_of(scaled: int, bounds: HolonomyBounds) -> u32 {
    let sat = spec_sat8(scaled);
    let out = if within_bounds(sat, bounds) { 0u32 } else { OUT_OF_BOUNDS_BIT };
    let lossy = if scaled != sat { SATURATED_BIT } else { 0u32 };
    (out + lossy) as u32
}

/// Result of constraint checking a holonomy cycle.
#[derive(Clone, Copy, Debug)]
pub struct ConstraintResult {
    /// True if all constraints are satisfied.
    pub pass: bool,
    /// Bit mask of which constraints failed.
    pub error_mask: u32,
    /// Saturated deviation value.
    pub deviation: i32,
}

impl ConstraintResult {
    /// Checks a deviation, already scaled by 1000 into integer units, against
    /// the bounds: the deviation is saturated to INT8, bit 0x01 of the mask
    /// marks a deviation outside `[-max_deviation, max_deviation]` (and a
    /// failed check), bit 0x02 marks a deviation that saturation changed.
    pub fn check_scaled(scaled: i32, bounds: &HolonomyBounds) -> (r: Self)
        requires
            bounds.max_deviation > i32::MIN,
        ensures
            r.deviation == spec_sat8(scaled as int),
            r.pass == within_bounds(spec_sat8(scaled as int), *bounds),
            r.error_mask == error_mask_of(scaled as int, *bounds),
            r.pass <==> r.error_mask & OUT_OF_BOUNDS_BIT == 0,
            (r.error_mask & SATURATED_BIT != 0) <==> scaled as int != spec_sat8(scaled as int),
            r.error_mask <= 3,
    {
        let sat_dev = sat8(scaled);
        let mut mask = 0u32;
        let mut pass = true;
        if sat_dev > bounds.max_deviation || sat_dev < -bounds.max_deviation {
            mask = mask | OUT_OF_BOUNDS_BIT;
            pass = false;
        }
        if scaled != sat_dev {
            mask = mask | SATURATED_BIT;
        }
        proof {
            assert(0u32 | 1u32 == 1u32) by (bit_vector);
            assert(0u32 | 2u32 == 2u32) by (bit_vector);
            assert(1u32 | 2u32 == 3u32) by (bit_vector);
            assert(0u32 & 1u32 == 0u32 && 0u32 & 2u32 == 0u32) by (bit_vector);
            assert(1u32 & 1u32 == 1u32 && 1u32 & 2u32 == 0u32) by (bit_vector);
            assert(2u32 & 1u32 == 0u32 && 2u32 & 2u32 == 2u32) by (bit_vector);
            assert(3u32 & 1u32 == 1u32 && 3u32 & 2u32 == 2u32) by (bit_vector);
            law_error_mask_documented_bits(scaled as int, *bounds);
        }
        ConstraintResult { pass, error_mask: mask, deviation: sat_dev }
    }
}

// ---------------------------------------------------------------------------
// Laws of INT8 saturation
// ---------------------------------------------------------------------------

/// Saturation always lands in `[-127, 127]`.
pub proof fn law_sat8_bounded(n: int)
    ensures
        -127 <= spec_sat8(n) <= 127,
{
}

/// Saturation leaves values already in `[-127, 127]` unchanged.
pub proof fn law_sat8_identity_in_range(n: int)
    requires
        -127 <= n <= 127,
    ensures
        spec_sat8(n) == n,
{
}

/// Saturation commutes with negation: `sat8(-n) == -sat8(n)`.
pub proof fn law_sat8_negation_symmetry(n: int)
    ensures
        spec_sat8(-n) == -spec_sat8(n),
{
}

/// Saturation is monotone: `a <= b` implies `sat8(a) <= sat8(b)`.
pub proof fn law_sat8_monotone(a: int, b: int)
    requires
        a <= b,
    ensures
        spec_sat8(a) <= spec_sat8(b),
{
}

/// Saturating twice is saturating once.
pub proof fn law_sat8_idempotent(n: int)
    ensures
        spec_sat8(spec_sat8(n)) == spec_sat8(n),
{
}

/// The saturated sum of two saturated values stays in range and never
/// overflows 32 bits: `|sat8(a) + sat8(b)| <= 254`.
pub proof fn law_sat8_addition_closed(a: int, b: int)
    ensures
        -254 <= spec_sat8(a) + spec_sat8(b) <= 254,
        -127 <= spec_sat8(spec_sat8(a) + spec_sat8(b)) <= 127,
{
}

/// For a bound below the saturation limit, a scaled deviation passes exactly
/// when its magnitude is at most the bound; saturation is flagged exactly outside `[-127, 127]`.
pub proof fn law_check_pass_iff_small(scaled: int, bounds: HolonomyBounds)
    requires
        0 <= bounds.max_deviation < 127,
    ensures
        within_bounds(spec_sat8(scaled), bounds) <==> (-bounds.max_deviation <= scaled
            <= bounds.max_deviation),
        (scaled != spec_sat8(scaled)) <==> (scaled < -127 || scaled > 127),
{
}

/// The error mask of a check carries only the two documented bits: 0x01
/// exactly when the saturated deviation lies outside
/// `[-max_deviation, max_deviation]`, 0x02 exactly when the deviation lies
/// outside `[-127, 127]` (so saturation changed it). A check that passes
/// without saturating has mask 0.
pub proof fn law_error_mask_documented_bits(scaled: int, bounds: HolonomyBounds)
    ensures
        error_mask_of(scaled, bounds) <= 3,
        (error_mask_of(scaled, bounds) & 1u32 != 0) <==> !(-bounds.max_deviation <= spec_sat8(scaled)
            <= bounds.max_deviation),
        (error_mask_of(scaled, bounds) & 2u32 != 0) <==> (scaled < -127 || scaled > 127),
        (-bounds.max_deviation <= spec_sat8(scaled) <= bounds.max_deviation && -127 <= scaled
            <= 127) ==> error_mask_of(scaled, bounds) == 0,
        !(-bounds.max_deviation <= spec_sat8(scaled) <= bounds.max_deviation) && -127 <= scaled
            <= 127 ==> error_mask_of(scaled, bounds) == 1,
        (-bounds.max_deviation <= spec_sat8(scaled) <= bounds.max_deviation) && !(-127 <= scaled
            <= 127) ==> error_mask_of(scaled, bounds) == 2,
        !(-bounds.max_deviation <= spec_sat8(scaled) <= bounds.max_deviation) && !(-127 <= scaled
            <= 127) ==> error_mask_of(scaled, bounds) == 3,
{
    assert(0u32 & 1u32 == 0u32 && 0u32 & 2u32 == 0u32) by (bit_vector);
    assert(1u32 & 1u32 == 1u32 && 1u32 & 2u32 == 0u32) by (bit_vector);
    assert(2u32 & 1u32 == 0u32 && 2u32 & 2u32 == 2u32) by (bit_vector);
    assert(3u32 & 1u32 == 1u32 && 3u32 & 2u32 == 2u32) by (bit_vector);
}

} // verus!
