//! Pythagorean vector encoding: a direction is one of 48 exact rational
//! points on the unit circle, stored in 6 bits.
use vstd::prelude::*;

verus! {

/// The direction with table index `i` (0 to 47).
pub open spec fn direction_at(i: int) -> (i16, i16, i16, i16) {
    if i == 0 {
        (1i16, 1i16, 0i16, 1i16)
    } else if i == 1 {
        (-1i16, 1i16, 0i16, 1i16)
    } else if i == 2 {
        (0i16, 1i16, 1i16, 1i16)
    } else if i == 3 {
        (0i16, 1i16, -1i16, 1i16)
    } else if i == 4 {
        (3i16, 5i16, 4i16, 5i16)
    } else if i == 5 {
        (-3i16, 5i16, 4i16, 5i16)
    } else if i == 6 {
        (3i16, 5i16, -4i16, 5i16)
    } else if i == 7 {
        (-3i16, 5i16, -4i16, 5i16)
    } else if i == 8 {
        (4i16, 5i16, 3i16, 5i16)
    } else if i == 9 {
        (-4i16, 5i16, 3i16, 5i16)
    } else if i == 10 {
        (4i16, 5i16, -3i16, 5i16)
    } else if i == 11 {
        (-4i16, 5i16, -3i16, 5i16)
    } else if i == 12 {
        (5i16, 13i16, 12i16, 13i16)
    } else if i == 13 {
        (-5i16, 13i16, 12i16, 13i16)
    } else if i == 14 {
        (5i16, 13i16, -12i16, 13i16)
    } else if i == 15 {
        (-5i16, 13i16, -12i16, 13i16)
    } else if i == 16 {
        (12i16, 13i16, 5i16, 13i16)
    } else if i == 17 {
        (-12i16, 13i16, 5i16, 13i16)
    } else if i == 18 {
        (12i16, 13i16, -5i16, 13i16)
    } else if i == 19 {
        (-12i16, 13i16, -5i16, 13i16)
    } else if i == 20 {
        (20i16, 29i16, 21i16, 29i16)
    } else if i == 21 {
        (-20i16, 29i16, 21i16, 29i16)
    } else if i == 22 {
        (20i16, 29i16, -21i16, 29i16)
    } else if i == 23 {
        (-20i16, 29i16, -21i16, 29i16)
    } else if i == 24 {
        (7i16, 25i16, 24i16, 25i16)
    } else if i == 25 {
        (-7i16, 25i16, 24i16, 25i16)
    } else if i == 26 {
        (7i16, 25i16, -24i16, 25i16)
    } else if i == 27 {
        (-7i16, 25i16, -24i16, 25i16)
    } else if i == 28 {
        (24i16, 25i16, 7i16, 25i16)
    } else if i == 29 {
        (-24i16, 25i16, 7i16, 25i16)
    } else if i == 30 {
        (24i16, 25i16, -7i16, 25i16)
    } else if i == 31 {
        (-24i16, 25i16, -7i16, 25i16)
    } else if i == 32 {
        (8i16, 17i16, 15i16, 17i16)
    } else if i == 33 {
        (-8i16, 17i16, 15i16, 17i16)
    } else if i == 34 {
        (8i16, 17i16, -15i16, 17i16)
    } else if i == 35 {
        (-8i16, 17i16, -15i16, 17i16)
    } else if i == 36 {
        (15i16, 17i16, 8i16, 17i16)
    } else if i == 37 {
        (-15i16, 17i16, 8i16, 17i16)
    } else if i == 38 {
        (15i16, 17i16, -8i16, 17i16)
    } else if i == 39 {
        (-15i16, 17i16, -8i16, 17i16)
    } else if i == 40 {
        (9i16, 41i16, 40i16, 41i16)
    } else if i == 41 {
        (-9i16, 41i16, 40i16, 41i16)
    } else if i == 42 {
        (9i16, 41i16, -40i16, 41i16)
    } else if i == 43 {
        (-9i16, 41i16, -40i16, 41i16)
    } else if i == 44 {
        (40i16, 41i16, 9i16, 41i16)
    } else if i == 45 {
        (-40i16, 41i16, 9i16, 41i16)
    } else if i == 46 {
        (40i16, 41i16, -9i16, 41i16)
    } else {
        (-40i16, 41i16, -9i16, 41i16)
    }
}

/// The table index of the direction `d`, or 48 when `d` is not in the table.
pub open spec fn code_of(d: (i16, i16, i16, i16)) -> int {
    if d == (1i16, 1i16, 0i16, 1i16) {
        0
    } else if d == (-1i16, 1i16, 0i16, 1i16) {
        1
    } else if d == (0i16, 1i16, 1i16, 1i16) {
        2
    } else if d == (0i16, 1i16, -1i16, 1i16) {
        3
    } else if d == (3i16, 5i16, 4i16, 5i16) {
        4
    } else if d == (-3i16, 5i16, 4i16, 5i16) {
        5
    } else if d == (3i16, 5i16, -4i16, 5i16) {
        6
    } else if d == (-3i16, 5i16, -4i16, 5i16) {
        7
    } else if d == (4i16, 5i16, 3i16, 5i16) {
        8
    } else if d == (-4i16, 5i16, 3i16, 5i16) {
        9
    } else if d == (4i16, 5i16, -3i16, 5i16) {
        10
    } else if d == (-4i16, 5i16, -3i16, 5i16) {
        11
    } else if d == (5i16, 13i16, 12i16, 13i16) {
        12
    } else if d == (-5i16, 13i16, 12i16, 13i16) {
        13
    } else if d == (5i16, 13i16, -12i16, 13i16) {
        14
    } else if d == (-5i16, 13i16, -12i16, 13i16) {
        15
    } else if d == (12i16, 13i16, 5i16, 13i16) {
        16
    } else if d == (-12i16, 13i16, 5i16, 13i16) {
        17
    } else if d == (12i16, 13i16, -5i16, 13i16) {
        18
    } else if d == (-12i16, 13i16, -5i16, 13i16) {
        19
    } else if d == (20i16, 29i16, 21i16, 29i16) {
        20
    } else if d == (-20i16, 29i16, 21i16, 29i16) {
        21
    } else if d == (20i16, 29i16, -21i16, 29i16) {
        22
    } else if d == (-20i16, 29i16, -21i16, 29i16) {
        23
    } else if d == (7i16, 25i16, 24i16, 25i16) {
        24
    } else if d == (-7i16, 25i16, 24i16, 25i16) {
        25
    } else if d == (7i16, 25i16, -24i16, 25i16) {
        26
    } else if d == (-7i16, 25i16, -24i16, 25i16) {
        27
    } else if d == (24i16, 25i16, 7i16, 25i16) {
        28
    } else if d == (-24i16, 25i16, 7i16, 25i16) {
        29
    } else if d == (24i16, 25i16, -7i16, 25i16) {
        30
    } else if d == (-24i16, 25i16, -7i16, 25i16) {
        31
    } else if d == (8i16, 17i16, 15i16, 17i16) {
        32
    } else if d == (-8i16, 17i16, 15i16, 17i16) {
        33
    } else if d == (8i16, 17i16, -15i16, 17i16) {
        34
    } else if d == (-8i16, 17i16, -15i16, 17i16) {
        35
    } else if d == (15i16, 17i16, 8i16, 17i16) {
        36
    } else if d == (-15i16, 17i16, 8i16, 17i16) {
        37
    } else if d == (15i16, 17i16, -8i16, 17i16) {
        38
    } else if d == (-15i16, 17i16, -8i16, 17i16) {
        39
    } else if d == (9i16, 41i16, 40i16, 41i16) {
        40
    } else if d == (-9i16, 41i16, 40i16, 41i16) {
        41
    } else if d == (9i16, 41i16, -40i16, 41i16) {
        42
    } else if d == (-9i16, 41i16, -40i16, 41i16) {
        43
    } else if d == (40i16, 41i16, 9i16, 41i16) {
        44
    } else if d == (-40i16, 41i16, 9i16, 41i16) {
        45
    } else if d == (40i16, 41i16, -9i16, 41i16) {
        46
    } else if d == (-40i16, 41i16, -9i16, 41i16) {
        47
    } else {
        48
    }
}

/// The 48 directions, in table order.
pub open spec fn direction_table() -> Seq<(i16, i16, i16, i16)> {
    Seq::new(48, |i: int| direction_at(i))
}

/// The point of `d` lies exactly on the unit circle:
/// `(xn/xd)^2 + (yn/yd)^2 == 1`, written without division.
pub open spec fn on_unit_circle(d: (i16, i16, i16, i16)) -> bool {
    &&& d.1 != 0
    &&& d.3 != 0
    &&& d.0 * d.0 * (d.3 * d.3) + d.2 * d.2 * (d.1 * d.1) == (d.1 * d.1) * (d.3 * d.3)
}

/// A vector encoded as one of 48 exact directions (the index into the table).
#[derive(Clone, Copy, Debug, PartialEq, Structural)]
pub struct Vector48(pub u8);

/// Number of distinct direction codes.
pub const DIRECTION_COUNT: usize = 48;

impl Vector48 {
    /// Number of direction codes.
    pub const COUNT: usize = 48;

    /// All 48 direction vectors as `(x_numer, x_denom, y_numer, y_denom)`.
    pub fn all_directions() -> (t: [(i16, i16, i16, i16); 48])
        ensures
            t@ == direction_table(),
            forall|i: int, j: int| 0 <= i < j < 48 ==> t@[i] != t@[j],
    {
        let t: [(i16, i16, i16, i16); 48] = [
            (1, 1, 0, 1), (-1, 1, 0, 1), (0, 1, 1, 1), (0, 1, -1, 1),
            (3, 5, 4, 5), (-3, 5, 4, 5), (3, 5, -4, 5), (-3, 5, -4, 5),
            (4, 5, 3, 5), (-4, 5, 3, 5), (4, 5, -3, 5), (-4, 5, -3, 5),
            (5, 13, 12, 13), (-5, 13, 12, 13), (5, 13, -12, 13), (-5, 13, -12, 13),
            (12, 13, 5, 13), (-12, 13, 5, 13), (12, 13, -5, 13), (-12, 13, -5, 13),
            (20, 29, 21, 29), (-20, 29, 21, 29), (20, 29, -21, 29), (-20, 29, -21, 29),
            (7, 25, 24, 25), (-7, 25, 24, 25), (7, 25, -24, 25), (-7, 25, -24, 25),
            (24, 25, 7, 25), (-24, 25, 7, 25), (24, 25, -7, 25), (-24, 25, -7, 25),
            (8, 17, 15, 17), (-8, 17, 15, 17), (8, 17, -15, 17), (-8, 17, -15, 17),
            (15, 17, 8, 17), (-15, 17, 8, 17), (15, 17, -8, 17), (-15, 17, -8, 17),
            (9, 41, 40, 41), (-9, 41, 40, 41), (9, 41, -40, 41), (-9, 41, -40, 41),
            (40, 41, 9, 41), (-40, 41, 9, 41), (40, 41, -9, 41), (-40, 41, -9, 41),
        ];
        assert(t@ =~= direction_table());
        proof {
            law_directions_distinct();
            assert forall|i: int, j: int| 0 <= i < j < 48 implies t@[i] != t@[j] by {
                assert(direction_table()[i] != direction_table()[j]);
            }
        }
        t
    }

    /// The exact direction this code stands for.
    pub fn direction(&self) -> (d: (i16, i16, i16, i16))
        requires
            self.0 < 48,
        ensures
            d == direction_table()[self.0 as int],
    {
        let t = Self::all_directions();
        t[self.0 as usize]
    }
}

/// Pythagorean encoding: 6 bits per vector for fleet communications.
pub struct Pythagorean48;

/// Every one of the 48 directions is an exact point of the unit circle.
pub proof fn law_directions_on_unit_circle(i: int)
    requires
        0 <= i < 48,
    ensures
        on_unit_circle(direction_table()[i]),
{
    assert(direction_table()[i] == direction_at(i));
    if i == 0 {
        assert(direction_at(0) == (1i16, 1i16, 0i16, 1i16));
        assert(on_unit_circle((1i16, 1i16, 0i16, 1i16))) by (nonlinear_arith);
    } else if i == 1 {
        assert(direction_at(1) == (-1i16, 1i16, 0i16, 1i16));
        assert(on_unit_circle((-1i16, 1i16, 0i16, 1i16))) by (nonlinear_arith);
    } else if i == 2 {
        assert(direction_at(2) == (0i16, 1i16, 1i16, 1i16));
        assert(on_unit_circle((0i16, 1i16, 1i16, 1i16))) by (nonlinear_arith);
    } else if i == 3 {
        assert(direction_at(3) == (0i16, 1i16, -1i16, 1i16));
        assert(on_unit_circle((0i16, 1i16, -1i16, 1i16))) by (nonlinear_arith);
    } else if i == 4 {
        assert(direction_at(4) == (3i16, 5i16, 4i16, 5i16));
        assert(on_unit_circle((3i16, 5i16, 4i16, 5i16))) by (nonlinear_arith);
    } else if i == 5 {
        assert(direction_at(5) == (-3i16, 5i16, 4i16, 5i16));
        assert(on_unit_circle((-3i16, 5i16, 4i16, 5i16))) by (nonlinear_arith);
    } else if i == 6 {
        assert(direction_at(6) == (3i16, 5i16, -4i16, 5i16));
        assert(on_unit_circle((3i16, 5i16, -4i16, 5i16))) by (nonlinear_arith);
    } else if i == 7 {
        assert(direction_at(7) == (-3i16, 5i16, -4i16, 5i16));
        assert(on_unit_circle((-3i16, 5i16, -4i16, 5i16))) by (nonlinear_arith);
    } else if i == 8 {
        assert(direction_at(8) == (4i16, 5i16, 3i16, 5i16));
        assert(on_unit_circle((4i16, 5i16, 3i16, 5i16))) by (nonlinear_arith);
    } else if i == 9 {
        assert(direction_at(9) == (-4i16, 5i16, 3i16, 5i16));
        assert(on_unit_circle((-4i16, 5i16, 3i16, 5i16))) by (nonlinear_arith);
    } else if i == 10 {
        assert(direction_at(10) == (4i16, 5i16, -3i16, 5i16));
        assert(on_unit_circle((4i16, 5i16, -3i16, 5i16))) by (nonlinear_arith);
    } else if i == 11 {
        assert(direction_at(11) == (-4i16, 5i16, -3i16, 5i16));
        assert(on_unit_circle((-4i16, 5i16, -3i16, 5i16))) by (nonlinear_arith);
    } else if i == 12 {
        assert(direction_at(12) == (5i16, 13i16, 12i16, 13i16));
        assert(on_unit_circle((5i16, 13i16, 12i16, 13i16))) by (nonlinear_arith);
    } else if i == 13 {
        assert(direction_at(13) == (-5i16, 13i16, 12i16, 13i16));
        assert(on_unit_circle((-5i16, 13i16, 12i16, 13i16))) by (nonlinear_arith);
    } else if i == 14 {
        assert(direction_at(14) == (5i16, 13i16, -12i16, 13i16));
        assert(on_unit_circle((5i16, 13i16, -12i16, 13i16))) by (nonlinear_arith);
    } else if i == 15 {
        assert(direction_at(15) == (-5i16, 13i16, -12i16, 13i16));
        assert(on_unit_circle((-5i16, 13i16, -12i16, 13i16))) by (nonlinear_arith);
    } else if i == 16 {
        assert(direction_at(16) == (12i16, 13i16, 5i16, 13i16));
        assert(on_unit_circle((12i16, 13i16, 5i16, 13i16))) by (nonlinear_arith);
    } else if i == 17 {
        assert(direction_at(17) == (-12i16, 13i16, 5i16, 13i16));
        assert(on_unit_circle((-12i16, 13i16, 5i16, 13i16))) by (nonlinear_arith);
    } else if i == 18 {
        assert(direction_at(18) == (12i16, 13i16, -5i16, 13i16));
        assert(on_unit_circle((12i16, 13i16, -5i16, 13i16))) by (nonlinear_arith);
    } else if i == 19 {
        assert(direction_at(19) == (-12i16, 13i16, -5i16, 13i16));
        assert(on_unit_circle((-12i16, 13i16, -5i16, 13i16))) by (nonlinear_arith);
    } else if i == 20 {
        assert(direction_at(20) == (20i16, 29i16, 21i16, 29i16));
        assert(on_unit_circle((20i16, 29i16, 21i16, 29i16))) by (nonlinear_arith);
    } else if i == 21 {
        assert(direction_at(21) == (-20i16, 29i16, 21i16, 29i16));
        assert(on_unit_circle((-20i16, 29i16, 21i16, 29i16))) by (nonlinear_arith);
    } else if i == 22 {
        assert(direction_at(22) == (20i16, 29i16, -21i16, 29i16));
        assert(on_unit_circle((20i16, 29i16, -21i16, 29i16))) by (nonlinear_arith);
    } else if i == 23 {
        assert(direction_at(23) == (-20i16, 29i16, -21i16, 29i16));
        assert(on_unit_circle((-20i16, 29i16, -21i16, 29i16))) by (nonlinear_arith);
    } else if i == 24 {
        assert(direction_at(24) == (7i16, 25i16, 24i16, 25i16));
        assert(on_unit_circle((7i16, 25i16, 24i16, 25i16))) by (nonlinear_arith);
    } else if i == 25 {
        assert(direction_at(25) == (-7i16, 25i16, 24i16, 25i16));
        assert(on_unit_circle((-7i16, 25i16, 24i16, 25i16))) by (nonlinear_arith);
    } else if i == 26 {
        assert(direction_at(26) == (7i16, 25i16, -24i16, 25i16));
        assert(on_unit_circle((7i16, 25i16, -24i16, 25i16))) by (nonlinear_arith);
    } else if i == 27 {
        assert(direction_at(27) == (-7i16, 25i16, -24i16, 25i16));
        assert(on_unit_circle((-7i16, 25i16, -24i16, 25i16))) by (nonlinear_arith);
    } else if i == 28 {
        assert(direction_at(28) == (24i16, 25i16, 7i16, 25i16));
        assert(on_unit_circle((24i16, 25i16, 7i16, 25i16))) by (nonlinear_arith);
    } else if i == 29 {
        assert(direction_at(29) == (-24i16, 25i16, 7i16, 25i16));
        assert(on_unit_circle((-24i16, 25i16, 7i16, 25i16))) by (nonlinear_arith);
    } else if i == 30 {
        assert(direction_at(30) == (24i16, 25i16, -7i16, 25i16));
        assert(on_unit_circle((24i16, 25i16, -7i16, 25i16))) by (nonlinear_arith);
    } else if i == 31 {
        assert(direction_at(31) == (-24i16, 25i16, -7i16, 25i16));
        assert(on_unit_circle((-24i16, 25i16, -7i16, 25i16))) by (nonlinear_arith);
    } else if i == 32 {
        assert(direction_at(32) == (8i16, 17i16, 15i16, 17i16));
        assert(on_unit_circle((8i16, 17i16, 15i16, 17i16))) by (nonlinear_arith);
    } else if i == 33 {
        assert(direction_at(33) == (-8i16, 17i16, 15i16, 17i16));
        assert(on_unit_circle((-8i16, 17i16, 15i16, 17i16))) by (nonlinear_arith);
    } else if i == 34 {
        assert(direction_at(34) == (8i16, 17i16, -15i16, 17i16));
        assert(on_unit_circle((8i16, 17i16, -15i16, 17i16))) by (nonlinear_arith);
    } else if i == 35 {
        assert(direction_at(35) == (-8i16, 17i16, -15i16, 17i16));
        assert(on_unit_circle((-8i16, 17i16, -15i16, 17i16))) by (nonlinear_arith);
    } else if i == 36 {
        assert(direction_at(36) == (15i16, 17i16, 8i16, 17i16));
        assert(on_unit_circle((15i16, 17i16, 8i16, 17i16))) by (nonlinear_arith);
    } else if i == 37 {
        assert(direction_at(37) == (-15i16, 17i16, 8i16, 17i16));
        assert(on_unit_circle((-15i16, 17i16, 8i16, 17i16))) by (nonlinear_arith);
    } else if i == 38 {
        assert(direction_at(38) == (15i16, 17i16, -8i16, 17i16));
        assert(on_unit_circle((15i16, 17i16, -8i16, 17i16))) by (nonlinear_arith);
    } else if i == 39 {
        assert(direction_at(39) == (-15i16, 17i16, -8i16, 17i16));
        assert(on_unit_circle((-15i16, 17i16, -8i16, 17i16))) by (nonlinear_arith);
    } else if i == 40 {
        assert(direction_at(40) == (9i16, 41i16, 40i16, 41i16));
        assert(on_unit_circle((9i16, 41i16, 40i16, 41i16))) by (nonlinear_arith);
    } else if i == 41 {
        assert(direction_at(41) == (-9i16, 41i16, 40i16, 41i16));
        assert(on_unit_circle((-9i16, 41i16, 40i16, 41i16))) by (nonlinear_arith);
    } else if i == 42 {
        assert(direction_at(42) == (9i16, 41i16, -40i16, 41i16));
        assert(on_unit_circle((9i16, 41i16, -40i16, 41i16))) by (nonlinear_arith);
    } else if i == 43 {
        assert(direction_at(43) == (-9i16, 41i16, -40i16, 41i16));
        assert(on_unit_circle((-9i16, 41i16, -40i16, 41i16))) by (nonlinear_arith);
    } else if i == 44 {
        assert(direction_at(44) == (40i16, 41i16, 9i16, 41i16));
        assert(on_unit_circle((40i16, 41i16, 9i16, 41i16))) by (nonlinear_arith);
    } else if i == 45 {
        assert(direction_at(45) == (-40i16, 41i16, 9i16, 41i16));
        assert(on_unit_circle((-40i16, 41i16, 9i16, 41i16))) by (nonlinear_arith);
    } else if i == 46 {
        assert(direction_at(46) == (40i16, 41i16, -9i16, 41i16));
        assert(on_unit_circle((40i16, 41i16, -9i16, 41i16))) by (nonlinear_arith);
    } else if i == 47 {
        assert(direction_at(47) == (-40i16, 41i16, -9i16, 41i16));
        assert(on_unit_circle((-40i16, 41i16, -9i16, 41i16))) by (nonlinear_arith);
    }
}

/// The table names each direction once: `code_of` recovers every index, so
/// the 48 directions are pairwise distinct.
pub proof fn law_directions_distinct()
    ensures
        forall|i: int| 0 <= i < 48 ==> #[trigger] code_of(direction_at(i)) == i,
        forall|i: int, j: int|
            0 <= i < j < 48 ==> #[trigger] direction_table()[i] != #[trigger] direction_table()[j],
{
    assert forall|i: int| 0 <= i < 48 implies #[trigger] code_of(direction_at(i)) == i by {
        if i == 0 {
            assert(code_of(direction_at(0)) == 0);
        } else if i == 1 {
            assert(code_of(direction_at(1)) == 1);
        } else if i == 2 {
            assert(code_of(direction_at(2)) == 2);
        } else if i == 3 {
            assert(code_of(direction_at(3)) == 3);
        } else if i == 4 {
            assert(code_of(direction_at(4)) == 4);
        } else if i == 5 {
            assert(code_of(direction_at(5)) == 5);
        } else if i == 6 {
            assert(code_of(direction_at(6)) == 6);
        } else if i == 7 {
            assert(code_of(direction_at(7)) == 7);
        } else if i == 8 {
            assert(code_of(direction_at(8)) == 8);
        } else if i == 9 {
            assert(code_of(direction_at(9)) == 9);
        } else if i == 10 {
            assert(code_of(direction_at(10)) == 10);
        } else if i == 11 {
            assert(code_of(direction_at(11)) == 11);
        } else if i == 12 {
            assert(code_of(direction_at(12)) == 12);
        } else if i == 13 {
            assert(code_of(direction_at(13)) == 13);
        } else if i == 14 {
            assert(code_of(direction_at(14)) == 14);
        } else if i == 15 {
            assert(code_of(direction_at(15)) == 15);
        } else if i == 16 {
            assert(code_of(direction_at(16)) == 16);
        } else if i == 17 {
            assert(code_of(direction_at(17)) == 17);
        } else if i == 18 {
            assert(code_of(direction_at(18)) == 18);
        } else if i == 19 {
            assert(code_of(direction_at(19)) == 19);
        } else if i == 20 {
            assert(code_of(direction_at(20)) == 20);
        } else if i == 21 {
            assert(code_of(direction_at(21)) == 21);
        } else if i == 22 {
            assert(code_of(direction_at(22)) == 22);
        } else if i == 23 {
            assert(code_of(direction_at(23)) == 23);
        } else if i == 24 {
            assert(code_of(direction_at(24)) == 24);
        } else if i == 25 {
            assert(code_of(direction_at(25)) == 25);
        } else if i == 26 {
            assert(code_of(direction_at(26)) == 26);
        } else if i == 27 {
            assert(code_of(direction_at(27)) == 27);
        } else if i == 28 {
            assert(code_of(direction_at(28)) == 28);
        } else if i == 29 {
            assert(code_of(direction_at(29)) == 29);
        } else if i == 30 {
            assert(code_of(direction_at(30)) == 30);
        } else if i == 31 {
            assert(code_of(direction_at(31)) == 31);
        } else if i == 32 {
            assert(code_of(direction_at(32)) == 32);
        } else if i == 33 {
            assert(code_of(direction_at(33)) == 33);
        } else if i == 34 {
            assert(code_of(direction_at(34)) == 34);
        } else if i == 35 {
            assert(code_of(direction_at(35)) == 35);
        } else if i == 36 {
            assert(code_of(direction_at(36)) == 36);
        } else if i == 37 {
            assert(code_of(direction_at(37)) == 37);
        } else if i == 38 {
            assert(code_of(direction_at(38)) == 38);
        } else if i == 39 {
            assert(code_of(direction_at(39)) == 39);
        } else if i == 40 {
            assert(code_of(direction_at(40)) == 40);
        } else if i == 41 {
            assert(code_of(direction_at(41)) == 41);
        } else if i == 42 {
            assert(code_of(direction_at(42)) == 42);
        } else if i == 43 {
            assert(code_of(direction_at(43)) == 43);
        } else if i == 44 {
            assert(code_of(direction_at(44)) == 44);
        } else if i == 45 {
            assert(code_of(direction_at(45)) == 45);
        } else if i == 46 {
            assert(code_of(direction_at(46)) == 46);
        } else if i == 47 {
            assert(code_of(direction_at(47)) == 47);
        }
    }
    assert forall|i: int, j: int|
        0 <= i < j < 48 implies #[trigger] direction_table()[i] != #[trigger] direction_table()[j] by {
        assert(direction_table()[i] == direction_at(i));
        assert(direction_table()[j] == direction_at(j));
        assert(code_of(direction_at(i)) == i);
        assert(code_of(direction_at(j)) == j);
    }
}

} // verus!
