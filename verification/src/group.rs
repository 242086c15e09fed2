//! The group law as mathematics: points with integer coordinates, and the
//! functions that say what the sum of two points and the negative of a point
//! are.
//!
//! The formulas are this library's own. The tangent's slope has the numerator
//! `3x² + 2ax + 1` and the denominator `2by`, and the third point's first
//! coordinate is `slope² · b - a - x1 - x2`.

use crate::euclid::inverse_mod;
use vstd::prelude::*;

verus! {

/// A point as mathematics sees it: the point at infinity, or two integers.
pub enum GroupElement {
    Infinity,
    Finite { x: int, y: int },
}

/// Whether the coordinates of `p` lie in `[0, m)`. The point at infinity has
/// none, and is reduced.
pub open spec fn reduced(p: GroupElement, m: int) -> bool {
    p matches GroupElement::Finite { x, y } ==> 0 <= x < m && 0 <= y < m
}

/// The slope of the line through `(x1, y1)` and `(x2, y2)`, modulo `m`:
/// the difference of the second coordinates times the inverse of the
/// difference of the first.
pub open spec fn chord_slope(x1: int, y1: int, x2: int, y2: int, m: int) -> int {
    (((y2 - y1) % m) * inverse_mod((x2 - x1) % m, m)) % m
}

/// The slope that doubling a point `(x1, y1)` uses, modulo `m`.
pub open spec fn tangent_slope(x1: int, y1: int, a: int, b: int, m: int) -> int {
    (((3 * x1 * x1 + 2 * a * x1 + 1) % m) * inverse_mod((2 * b * y1) % m, m)) % m
}

/// The point that the formulas give for the line of the given slope through
/// `(x1, y1)` and a second point with the first coordinate `x2`.
pub open spec fn third_point(
    x1: int,
    y1: int,
    x2: int,
    slope: int,
    a: int,
    b: int,
    m: int,
) -> GroupElement {
    let x3 = (slope * slope * b - a - x1 - x2) % m;
    let y3 = (slope * (x1 - x3) - y1) % m;
    GroupElement::Finite { x: x3, y: y3 }
}

/// The sum of `p` and `q` in the group of the curve with the coefficients `a`
/// and `b` over the integers modulo `m`.
///
/// The point at infinity is the identity. Two points with the same first
/// coordinate whose second coordinates add up to a multiple of `m` give the
/// point at infinity. Otherwise the sum is the third point on the tangent,
/// where the first coordinates agree, or else on the chord.
pub open spec fn group_sum(p: GroupElement, q: GroupElement, a: int, b: int, m: int) -> GroupElement {
    match (p, q) {
        (GroupElement::Infinity, _) => q,
        (_, GroupElement::Infinity) => p,
        (GroupElement::Finite { x: x1, y: y1 }, GroupElement::Finite { x: x2, y: y2 }) => {
            if x1 == x2 && (y1 + y2) % m == 0 {
                GroupElement::Infinity
            } else if x1 == x2 {
                third_point(x1, y1, x2, tangent_slope(x1, y1, a, b, m), a, b, m)
            } else {
                third_point(x1, y1, x2, chord_slope(x1, y1, x2, y2, m), a, b, m)
            }
        },
    }
}

/// The negative of `p` in the group: the same first coordinate, and the
/// residue of the negated second coordinate modulo `m`.
pub open spec fn negation(p: GroupElement, m: int) -> GroupElement {
    match p {
        GroupElement::Infinity => GroupElement::Infinity,
        GroupElement::Finite { x, y } => GroupElement::Finite { x, y: (-y) % m },
    }
}

} // verus!
