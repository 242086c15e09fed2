//! Laws of the group operations, proved of the functions in `group`, in which
//! the contracts of `Point`'s methods are stated.

use crate::group::{chord_slope, group_sum, negation, reduced, tangent_slope, GroupElement};
use vstd::arithmetic::div_mod::{
    lemma_add_mod_noop_right, lemma_mod_bound, lemma_mod_sub_multiples_vanish, lemma_small_mod,
};
use vstd::prelude::*;

verus! {

/// Identity law: the point at infinity added to a point, on either side, gives
/// that point with its coordinates as they are, under every modulus.
pub proof fn lemma_infinity_is_identity(p: GroupElement, a: int, b: int, m: int)
    ensures
        group_sum(p, GroupElement::Infinity, a, b, m) == p,
        group_sum(GroupElement::Infinity, p, a, b, m) == p,
{
}

/// Inverse law: a point and its negative add up to the point at infinity.
/// This holds of every affine point under a positive modulus, also of one
/// whose second coordinate is 0 or not reduced, and of the point at infinity
/// under every modulus.
pub proof fn lemma_sum_with_negation_is_infinity(p: GroupElement, a: int, b: int, m: int)
    requires
        p is Finite ==> m > 0,
    ensures
        group_sum(p, negation(p, m), a, b, m) == GroupElement::Infinity,
        group_sum(negation(p, m), p, a, b, m) == GroupElement::Infinity,
{
    if let GroupElement::Finite { x, y } = p {
        lemma_add_mod_noop_right(y, -y, m);
        lemma_small_mod(0, m as nat);
        assert((y + (-y) % m) % m == 0);
        assert(((-y) % m + y) % m == 0);
    }
}

/// Negation involution: the negative of the negative of a point is the point,
/// for the point at infinity and for every point whose second coordinate lies
/// in `[0, m)`.
pub proof fn lemma_negation_is_involution(p: GroupElement, m: int)
    requires
        p matches GroupElement::Finite { x, y } ==> 0 <= y < m,
    ensures
        negation(negation(p, m), m) == p,
{
    if let GroupElement::Finite { x, y } = p {
        if y == 0 {
            lemma_small_mod(0, m as nat);
        } else {
            lemma_mod_sub_multiples_vanish(m - y, m);
            lemma_small_mod((m - y) as nat, m as nat);
            assert((-y) % m == m - y);
            lemma_mod_sub_multiples_vanish(y, m);
            lemma_small_mod(y as nat, m as nat);
            assert((-(m - y)) % m == y);
        }
    }
}

/// Range invariant of the sum: the formulas give coordinates in `[0, m)`, so
/// the sum of two affine points is reduced, and so is the sum of any two
/// reduced points.
pub proof fn lemma_sum_is_reduced(p: GroupElement, q: GroupElement, a: int, b: int, m: int)
    requires
        p is Finite && q is Finite ==> m > 0,
        (p is Finite && q is Finite) || (reduced(p, m) && reduced(q, m)),
    ensures
        reduced(group_sum(p, q, a, b, m), m),
{
    match (p, q) {
        (GroupElement::Finite { x: x1, y: y1 }, GroupElement::Finite { x: x2, y: y2 }) => {
            if !(x1 == x2 && (y1 + y2) % m == 0) {
                let slope = if x1 == x2 {
                    tangent_slope(x1, y1, a, b, m)
                } else {
                    chord_slope(x1, y1, x2, y2, m)
                };
                let x3 = (slope * slope * b - a - x1 - x2) % m;
                lemma_mod_bound(slope * slope * b - a - x1 - x2, m);
                lemma_mod_bound(slope * (x1 - x3) - y1, m);
            }
        },
        _ => {},
    }
}

/// Range invariant of the negative: the second coordinate of the negative of
/// a point lies in `[0, m)`, and the first is that of the point.
pub proof fn lemma_negation_is_reduced(p: GroupElement, m: int)
    requires
        p is Finite ==> m > 0,
    ensures
        negation(p, m) matches GroupElement::Finite { x, y } ==> 0 <= y < m && x == p->x,
        reduced(p, m) ==> reduced(negation(p, m), m),
{
    if let GroupElement::Finite { x, y } = p {
        lemma_mod_bound(-y, m);
    }
}

} // verus!
