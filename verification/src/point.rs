//! Points of the curve group and the group operations on them.

use crate::euclid::{
    coprime, euclid_coefficient, inverse_mod, lemma_inverse_mod_is_inverse,
    lemma_inverse_mod_of_residue, lemma_inverse_mod_range, lemma_step_shrinks, starting_value,
};
use crate::group::{group_sum, negation, reduced, GroupElement};
use crate::integer::{
    copy, difference, equal, int_value, is_zero, less, multiple, negated, one, product, quotient,
    remainder, sum, zero,
};
use crate::modular::{lemma_residue_from_truncation, lemma_truncated_division, residue};
use num_bigint::BigInt;
use vstd::arithmetic::mul::lemma_mul_nonnegative;
use vstd::math::abs;
use vstd::prelude::*;

verus! {

/// A point of the curve group: the point at infinity, which is the identity of
/// the group, or an affine point with two coordinates.
#[derive(Debug)]
pub enum Point {
    Infinity,
    Finite { x: BigInt, y: BigInt },
}

impl View for Point {
    type V = GroupElement;

    open spec fn view(&self) -> GroupElement {
        match *self {
            Point::Infinity => GroupElement::Infinity,
            Point::Finite { x, y } => GroupElement::Finite { x: int_value(x), y: int_value(y) },
        }
    }
}

impl Clone for Point {
    fn clone(&self) -> (r: Self)
        ensures
            r@ == self@,
    {
        match self {
            Point::Infinity => Point::Infinity,
            Point::Finite { x, y } => Point::Finite { x: copy(x), y: copy(y) },
        }
    }
}

impl PartialEq for Point {
    /// Two points are equal where both are the point at infinity, or both
    /// are affine with the same coordinates.
    fn eq(&self, other: &Point) -> (r: bool) {
        match (self, other) {
            (Point::Infinity, Point::Infinity) => true,
            (Point::Finite { x: x1, y: y1 }, Point::Finite { x: x2, y: y2 }) => equal(x1, x2)
                && equal(y1, y2),
            _ => false,
        }
    }
}

impl vstd::std_specs::cmp::PartialEqSpecImpl for Point {
    open spec fn obeys_eq_spec() -> bool {
        true
    }

    open spec fn eq_spec(&self, other: &Point) -> bool {
        self@ == other@
    }
}

impl Point {
    /// The affine point with the coordinates `x` and `y`.
    pub fn new(x: BigInt, y: BigInt) -> (r: Self)
        ensures
            r == (Point::Finite { x, y }),
            r@ == (GroupElement::Finite { x: int_value(x), y: int_value(y) }),
    {
        Point::Finite { x, y }
    }

    /// The point at infinity.
    pub fn infinity() -> (r: Self)
        ensures
            r == Point::Infinity,
            r@ == GroupElement::Infinity,
    {
        Point::Infinity
    }

    /// Whether this is the point at infinity.
    pub fn is_infinity(&self) -> (r: bool)
        ensures
            r == (self@ is Infinity),
    {
        match self {
            Point::Infinity => true,
            Point::Finite { .. } => false,
        }
    }

    /// The inverse of `value` modulo `modulo`: for a `modulo` above 1 and a
    /// `value` of any sign that has no divisor in common with it, the one
    /// integer in `[0, modulo)` whose product with `value` leaves the
    /// remainder 1.
    ///
    /// It is computed by the extended Euclidean algorithm on `modulo` and
    /// `value`, a negative `value` being replaced by its residue where
    /// `modulo` is positive, and `modulo` being added once to a negative
    /// coefficient. The algorithm runs on all arguments, and the result is
    /// the number that `inverse_mod` defines. Where `value` has no inverse,
    /// nothing reports that: the product of the result with `value` is then
    /// congruent to the greatest common divisor
    /// (`lemma_inverse_mod_gives_gcd`).
    pub fn mod_inverse(value: &BigInt, modulo: &BigInt) -> (r: BigInt)
        ensures
            int_value(r) == inverse_mod(int_value(*value), int_value(*modulo)),
            int_value(*modulo) > 1 ==> 0 <= int_value(r) < int_value(*modulo),
            int_value(*modulo) > 1 && coprime(int_value(*value), int_value(*modulo)) ==> (int_value(
                *value,
            ) * int_value(r)) % int_value(*modulo) == 1,
    {
        proof {
            if int_value(*modulo) > 1 {
                lemma_inverse_mod_range(int_value(*value), int_value(*modulo));
                if coprime(int_value(*value), int_value(*modulo)) {
                    lemma_inverse_mod_is_inverse(int_value(*value), int_value(*modulo));
                }
            }
        }
        let mut t = zero();
        let mut new_t = one();
        let mut r = copy(modulo);
        let mut new_r = if less(value, &zero()) && less(&zero(), modulo) {
            residue(value, modulo)
        } else {
            copy(value)
        };

        while !is_zero(&new_r)
            invariant
                euclid_coefficient(
                    int_value(r),
                    int_value(new_r),
                    int_value(t),
                    int_value(new_t),
                ) == euclid_coefficient(
                    int_value(*modulo),
                    starting_value(int_value(*value), int_value(*modulo)),
                    0,
                    1,
                ),
            decreases abs(int_value(new_r)),
        {
            proof {
                lemma_step_shrinks(int_value(r), int_value(new_r));
            }
            let q = quotient(&r, &new_r);
            t = difference(&t, &product(&q, &new_t));
            std::mem::swap(&mut t, &mut new_t);
            r = difference(&r, &product(&q, &new_r));
            std::mem::swap(&mut r, &mut new_r);
        }

        if less(&t, &zero()) {
            t = sum(&t, modulo);
        }
        t
    }

    /// The slope `(num * inverse(denom)) mod modulo`, for a numerator and a
    /// denominator that are residues modulo `modulo`.
    fn slope(num: &BigInt, denom: &BigInt, modulo: &BigInt) -> (r: BigInt)
        requires
            0 <= int_value(*num),
            0 <= int_value(*denom) < int_value(*modulo),
        ensures
            int_value(r) == (int_value(*num) * inverse_mod(
                int_value(*denom),
                int_value(*modulo),
            )) % int_value(*modulo),
    {
        let inverse = Point::mod_inverse(denom, modulo);
        let scaled = product(num, &inverse);
        proof {
            lemma_inverse_mod_of_residue(int_value(*denom), int_value(*modulo));
            lemma_mul_nonnegative(int_value(*num), int_value(inverse));
            lemma_truncated_division(int_value(scaled), int_value(*modulo));
        }
        remainder(&scaled, modulo)
    }

    /// The sum of `self` and `other` in the group of the curve with the
    /// coefficients `a` and `b` over the integers modulo `modulo`.
    ///
    /// The coordinates of a sum that the formulas compute lie in
    /// `[0, modulo)`; where one of the two points is the point at infinity,
    /// the sum is the other point as it is, and `modulo` is not looked at.
    /// Two affine points need a positive `modulo`; `checked_add` tests that.
    pub fn add(&self, other: &Point, a: &BigInt, b: &BigInt, modulo: &BigInt) -> (r: Point)
        requires
            self@ is Finite && other@ is Finite ==> int_value(*modulo) > 0,
        ensures
            r@ == group_sum(self@, other@, int_value(*a), int_value(*b), int_value(*modulo)),
            self@ is Infinity ==> r@ == other@,
            other@ is Infinity ==> r@ == self@,
            self@ is Finite && other@ is Finite ==> reduced(r@, int_value(*modulo)),
            reduced(self@, int_value(*modulo)) && reduced(other@, int_value(*modulo)) ==> reduced(
                r@,
                int_value(*modulo),
            ),
    {
        match (self, other) {
            (Point::Infinity, _) => other.clone(),
            (_, Point::Infinity) => self.clone(),
            (Point::Finite { x: x1, y: y1 }, Point::Finite { x: x2, y: y2 }) => {
                let same_x = equal(x1, x2);
                let y_sum = sum(y1, y2);
                proof {
                    lemma_residue_from_truncation(int_value(y_sum), int_value(*modulo));
                }
                if same_x && is_zero(&remainder(&y_sum, modulo)) {
                    return Point::infinity();
                }
                let slope = if same_x {
                    let num = residue(
                        &sum(
                            &sum(&product(&multiple(3, x1), x1), &product(&multiple(2, a), x1)),
                            &one(),
                        ),
                        modulo,
                    );
                    let denom = residue(&product(&multiple(2, b), y1), modulo);
                    Point::slope(&num, &denom, modulo)
                } else {
                    let num = residue(&difference(y2, y1), modulo);
                    let denom = residue(&difference(x2, x1), modulo);
                    Point::slope(&num, &denom, modulo)
                };
                let x3 = residue(
                    &difference(
                        &difference(&difference(&product(&product(&slope, &slope), b), a), x1),
                        x2,
                    ),
                    modulo,
                );
                let y3 = residue(&difference(&product(&slope, &difference(x1, &x3)), y1), modulo);
                Point::new(x3, y3)
            },
        }
    }

    /// The sum of `self` and `other` where `add` is defined, that is where one
    /// of the two is the point at infinity or `modulo` is positive, and
    /// `None` elsewhere.
    pub fn checked_add(&self, other: &Point, a: &BigInt, b: &BigInt, modulo: &BigInt) -> (r: Option<
        Point,
    >)
        ensures
            r is Some <==> (self@ is Finite && other@ is Finite ==> int_value(*modulo) > 0),
            r matches Some(sum) ==> sum@ == group_sum(
                self@,
                other@,
                int_value(*a),
                int_value(*b),
                int_value(*modulo),
            ),
    {
        if self.is_infinity() || other.is_infinity() || less(&zero(), modulo) {
            Some(self.add(other, a, b, modulo))
        } else {
            None
        }
    }

    /// The sum of `self` with itself. An affine point needs a positive
    /// `modulo`; `checked_double` tests that.
    pub fn double(&self, a: &BigInt, b: &BigInt, modulo: &BigInt) -> (r: Point)
        requires
            self@ is Finite ==> int_value(*modulo) > 0,
        ensures
            r@ == group_sum(self@, self@, int_value(*a), int_value(*b), int_value(*modulo)),
            reduced(r@, int_value(*modulo)),
    {
        self.add(self, a, b, modulo)
    }

    /// The sum of `self` with itself where `double` is defined, that is for
    /// the point at infinity or a positive `modulo`, and `None` elsewhere.
    pub fn checked_double(&self, a: &BigInt, b: &BigInt, modulo: &BigInt) -> (r: Option<Point>)
        ensures
            r is Some <==> (self@ is Finite ==> int_value(*modulo) > 0),
            r matches Some(doubled) ==> doubled@ == group_sum(
                self@,
                self@,
                int_value(*a),
                int_value(*b),
                int_value(*modulo),
            ),
    {
        if self.is_infinity() || less(&zero(), modulo) {
            Some(self.double(a, b, modulo))
        } else {
            None
        }
    }

    /// The negative of `self` in the group: the point at infinity for the
    /// point at infinity, whatever `modulo` is, and else the point with the
    /// same first coordinate and the residue of the negated second
    /// coordinate. An affine point needs a positive `modulo`;
    /// `checked_inverse` tests that.
    pub fn inverse(&self, modulo: &BigInt) -> (r: Point)
        requires
            self@ is Finite ==> int_value(*modulo) > 0,
        ensures
            r@ == negation(self@, int_value(*modulo)),
            r@ matches GroupElement::Finite { x, y } ==> 0 <= y < int_value(*modulo),
            reduced(self@, int_value(*modulo)) ==> reduced(r@, int_value(*modulo)),
    {
        match self {
            Point::Infinity => Point::Infinity,
            Point::Finite { x, y } => Point::new(copy(x), residue(&negated(y), modulo)),
        }
    }

    /// The negative of `self` where `inverse` is defined, that is for the
    /// point at infinity or a positive `modulo`, and `None` elsewhere.
    pub fn checked_inverse(&self, modulo: &BigInt) -> (r: Option<Point>)
        ensures
            r is Some <==> (self@ is Finite ==> int_value(*modulo) > 0),
            r matches Some(negative) ==> negative@ == negation(self@, int_value(*modulo)),
    {
        if self.is_infinity() || less(&zero(), modulo) {
            Some(self.inverse(modulo))
        } else {
            None
        }
    }
}

} // verus!
