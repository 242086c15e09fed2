//! The extended Euclidean algorithm as a mathematical function, and what it
//! computes: a coefficient that, multiplied with the value, is congruent to
//! the greatest common divisor of value and modulus; so the inverse of the
//! value, where the two have no divisor in common.

use crate::integer::{truncated_quotient, truncated_remainder};
use crate::modular::lemma_truncated_division;
use vstd::arithmetic::div_mod::{
    lemma_div_pos_is_pos, lemma_fundamental_div_mod, lemma_mod_bound, lemma_mod_multiples_basic,
    lemma_mod_multiples_vanish, lemma_mod_self_0, lemma_mul_mod_noop_right, lemma_small_mod,
};
use vstd::math::abs;
use vstd::prelude::*;

verus! {

/// The coefficient that the extended Euclidean algorithm ends with, started
/// from the remainders `r`, `new_r` and the coefficients `t`, `new_t`.
///
/// Each step divides `r` by `new_r`, rounding toward zero, and replaces the
/// pair of remainders by `new_r` and what the division leaves over, and the
/// pair of coefficients in the same way. When nothing is left over, the first
/// coefficient is the result.
pub open spec fn euclid_coefficient(r: int, new_r: int, t: int, new_t: int) -> int
    decreases abs(new_r),
    via euclid_coefficient_terminates
{
    if new_r == 0 {
        t
    } else {
        let q = truncated_quotient(r, new_r);
        euclid_coefficient(new_r, r - q * new_r, new_t, t - q * new_t)
    }
}

#[via_fn]
proof fn euclid_coefficient_terminates(r: int, new_r: int, t: int, new_t: int) {
    if new_r != 0 {
        lemma_truncated_division(r, new_r);
    }
}

/// The remainder that the same algorithm ends with: the last one before
/// nothing is left over.
pub open spec fn euclid_remainder(r: int, new_r: int) -> int
    decreases abs(new_r),
    via euclid_remainder_terminates
{
    if new_r == 0 {
        r
    } else {
        euclid_remainder(new_r, r - truncated_quotient(r, new_r) * new_r)
    }
}

#[via_fn]
proof fn euclid_remainder_terminates(r: int, new_r: int) {
    if new_r != 0 {
        lemma_truncated_division(r, new_r);
    }
}

/// The number that the algorithm is run on in place of `value`: for a
/// negative `value` and a positive `modulo` the residue of `value`, which is
/// congruent to it and not negative, and else `value` itself.
pub open spec fn starting_value(value: int, modulo: int) -> int {
    if value < 0 && modulo > 0 {
        value % modulo
    } else {
        value
    }
}

/// What `mod_inverse` returns for `value` and `modulo`: the coefficient that
/// the extended Euclidean algorithm finds on `modulo` and the starting value,
/// with `modulo` added once where that coefficient is negative.
///
/// For a `modulo` above 1 this is the inverse of `value` modulo `modulo`
/// exactly where `value` and `modulo` are coprime
/// (`lemma_inverse_mod_is_inverse`, `lemma_inverts_exactly_the_coprime`).
pub open spec fn inverse_mod(value: int, modulo: int) -> int {
    let t = euclid_coefficient(modulo, starting_value(value, modulo), 0, 1);
    if t < 0 {
        t + modulo
    } else {
        t
    }
}

/// The remainder that the algorithm ends with when it computes
/// `inverse_mod(value, modulo)`.
pub open spec fn last_remainder(value: int, modulo: int) -> int {
    euclid_remainder(modulo, starting_value(value, modulo))
}

/// `d` is a positive divisor of both `a` and `b`.
pub open spec fn common_divisor(d: int, a: int, b: int) -> bool {
    d > 0 && a % d == 0 && b % d == 0
}

/// `a` and `b` have no positive divisor in common but 1.
pub open spec fn coprime(a: int, b: int) -> bool {
    forall|d: int| #[trigger] common_divisor(d, a, b) ==> d == 1
}

/// One step of the algorithm leaves a remainder smaller in magnitude than the
/// divisor, which is why the algorithm ends.
pub proof fn lemma_step_shrinks(r: int, new_r: int)
    requires
        new_r != 0,
    ensures
        r - truncated_quotient(r, new_r) * new_r == truncated_remainder(r, new_r),
        abs(r - truncated_quotient(r, new_r) * new_r) < abs(new_r),
{
    lemma_truncated_division(r, new_r);
}

/// A multiple of `d` plus a multiple of a multiple of `d` is a multiple of `d`.
pub proof fn lemma_combination_of_multiples(a: int, b: int, k: int, d: int)
    requires
        d > 0,
        a % d == 0,
        b % d == 0,
    ensures
        (a + k * b) % d == 0,
{
    lemma_fundamental_div_mod(a, d);
    lemma_fundamental_div_mod(b, d);
    let qa = a / d;
    let qb = b / d;
    assert(a + k * b == (qa + k * qb) * d) by (nonlinear_arith)
        requires
            a == d * qa,
            b == d * qb,
    ;
    lemma_mod_multiples_basic(qa + k * qb, d);
}

/// On positive remainders and coefficients of opposite signs, the algorithm
/// keeps `|t| * new_r + |new_t| * r` unchanged, and the coefficient it ends with
/// is smaller in magnitude than that number.
proof fn lemma_coefficient_bound(r: int, new_r: int, t: int, new_t: int, bound: int)
    requires
        r > 0,
        new_r > 0,
        t * new_t <= 0,
        bound == abs(t) * new_r + abs(new_t) * r,
        (r > new_r && bound > 0) || abs(new_t) < bound,
    ensures
        abs(euclid_coefficient(r, new_r, t, new_t)) < bound,
    decreases new_r,
{
    lemma_truncated_division(r, new_r);
    lemma_div_pos_is_pos(r, new_r);
    let q = r / new_r;
    let rest = r % new_r;
    let next_t = t - q * new_t;
    assert(rest == r - q * new_r);
    assert(euclid_coefficient(r, new_r, t, new_t) == euclid_coefficient(
        new_r,
        rest,
        new_t,
        next_t,
    ));
    assert((t >= 0 && new_t <= 0) || (t <= 0 && new_t >= 0)) by (nonlinear_arith)
        requires
            t * new_t <= 0,
    ;
    if rest == 0 {
        assert(euclid_coefficient(new_r, rest, new_t, next_t) == new_t);
        if !(abs(new_t) < bound) {
            assert(abs(new_t) * r >= abs(new_t) * 2) by (nonlinear_arith)
                requires
                    r >= 2,
                    abs(new_t) >= 0,
            ;
            assert(abs(t) * new_r >= 0) by (nonlinear_arith)
                requires
                    new_r > 0,
                    abs(t) >= 0,
            ;
        }
    } else {
        assert(new_t * next_t <= 0 && abs(new_t) * rest + abs(next_t) * new_r == bound)
            by (nonlinear_arith)
            requires
                (t >= 0 && new_t <= 0) || (t <= 0 && new_t >= 0),
                q >= 0,
                next_t == t - q * new_t,
                rest == r - q * new_r,
                bound == abs(t) * new_r + abs(new_t) * r,
        ;
        assert(bound > 0);
        lemma_coefficient_bound(new_r, rest, new_t, next_t, bound);
    }
}

/// The algorithm keeps each remainder congruent modulo `m` to `v` times its
/// coefficient, so the coefficient that it ends with, times `v`, is congruent
/// to the remainder that it ends with.
proof fn lemma_coefficient_congruence(r: int, new_r: int, t: int, new_t: int, v: int, m: int)
    requires
        m > 0,
        (t * v - r) % m == 0,
        (new_t * v - new_r) % m == 0,
    ensures
        (euclid_coefficient(r, new_r, t, new_t) * v - euclid_remainder(r, new_r)) % m == 0,
    decreases abs(new_r),
{
    if new_r != 0 {
        lemma_truncated_division(r, new_r);
        let q = truncated_quotient(r, new_r);
        let rest = r - q * new_r;
        let next_t = t - q * new_t;
        lemma_combination_of_multiples(t * v - r, new_t * v - new_r, -q, m);
        assert(next_t * v - rest == (t * v - r) + (-q) * (new_t * v - new_r)) by (nonlinear_arith)
            requires
                next_t == t - q * new_t,
                rest == r - q * new_r,
        ;
        lemma_coefficient_congruence(new_r, rest, new_t, next_t, v, m);
    }
}

/// On two numbers that are not negative and not both zero, the algorithm ends
/// with their greatest common divisor: a common divisor that every common
/// divisor divides.
pub proof fn lemma_last_remainder_is_gcd(r: int, new_r: int)
    requires
        r >= 0,
        new_r >= 0,
        r + new_r > 0,
    ensures
        common_divisor(euclid_remainder(r, new_r), r, new_r),
        forall|d: int| #[trigger]
            common_divisor(d, r, new_r) ==> euclid_remainder(r, new_r) % d == 0,
    decreases new_r,
{
    let g = euclid_remainder(r, new_r);
    if new_r == 0 {
        lemma_mod_self_0(r);
        lemma_small_mod(0, r as nat);
    } else {
        lemma_truncated_division(r, new_r);
        let q = r / new_r;
        let rest = r % new_r;
        assert(rest == r - q * new_r);
        lemma_last_remainder_is_gcd(new_r, rest);
        lemma_combination_of_multiples(rest, new_r, q, g);
        assert(rest + q * new_r == r);
        assert forall|d: int| #[trigger] common_divisor(d, r, new_r) implies g % d == 0 by {
            lemma_combination_of_multiples(r, new_r, -q, d);
            assert(r + (-q) * new_r == rest) by (nonlinear_arith)
                requires
                    rest == r - q * new_r,
            ;
            assert(common_divisor(d, new_r, rest));
        }
    }
}

/// The starting value is not negative under a positive `modulo`, differs from
/// `value` by a multiple of `modulo`, and has the same divisors in common with
/// `modulo` as `value` has.
pub proof fn lemma_starting_value(value: int, modulo: int, d: int)
    requires
        modulo > 0,
    ensures
        starting_value(value, modulo) >= 0,
        (value - starting_value(value, modulo)) % modulo == 0,
        common_divisor(d, value, modulo) == common_divisor(
            d,
            starting_value(value, modulo),
            modulo,
        ),
{
    let start = starting_value(value, modulo);
    lemma_small_mod(0, modulo as nat);
    if value < 0 {
        let q = value / modulo;
        lemma_mod_bound(value, modulo);
        lemma_fundamental_div_mod(value, modulo);
        assert(value - start == q * modulo) by (nonlinear_arith)
            requires
                value == modulo * q + start,
        ;
        lemma_mod_multiples_basic(q, modulo);
        if d > 0 && modulo % d == 0 {
            if value % d == 0 {
                lemma_combination_of_multiples(value, modulo, -q, d);
                assert(value + (-q) * modulo == start) by (nonlinear_arith)
                    requires
                        value == modulo * q + start,
                ;
            }
            if start % d == 0 {
                lemma_combination_of_multiples(start, modulo, q, d);
                assert(start + q * modulo == value) by (nonlinear_arith)
                    requires
                        value == modulo * q + start,
                ;
            }
        }
    }
}

/// For a `modulo` above 1, `inverse_mod` lies in `[0, modulo)`, whatever the
/// `value` and whether or not it has an inverse.
pub proof fn lemma_inverse_mod_range(value: int, modulo: int)
    requires
        modulo > 1,
    ensures
        0 <= inverse_mod(value, modulo) < modulo,
{
    let start = starting_value(value, modulo);
    lemma_starting_value(value, modulo, 1);
    if start > 0 {
        assert(abs(0) * start + abs(1) * modulo == modulo) by (nonlinear_arith);
        lemma_coefficient_bound(modulo, start, 0, 1, modulo);
    }
}

/// On a residue modulo `modulo`, `inverse_mod` is a residue too.
pub proof fn lemma_inverse_mod_of_residue(value: int, modulo: int)
    requires
        0 <= value < modulo,
    ensures
        0 <= inverse_mod(value, modulo) < modulo,
{
    if value > 0 {
        lemma_inverse_mod_range(value, modulo);
    }
}

/// What `inverse_mod` gives for every `value` under a positive `modulo`: its
/// product with `value` is congruent modulo `modulo` to the last remainder,
/// and the last remainder is the greatest common divisor of `value` and
/// `modulo`, a common divisor that every common divisor divides.
pub proof fn lemma_inverse_mod_gives_gcd(value: int, modulo: int)
    requires
        modulo > 0,
    ensures
        (value * inverse_mod(value, modulo) - last_remainder(value, modulo)) % modulo == 0,
        common_divisor(last_remainder(value, modulo), value, modulo),
        forall|d: int| #[trigger]
            common_divisor(d, value, modulo) ==> last_remainder(value, modulo) % d == 0,
{
    let start = starting_value(value, modulo);
    let t = euclid_coefficient(modulo, start, 0, 1);
    let inv = inverse_mod(value, modulo);
    let g = last_remainder(value, modulo);
    lemma_starting_value(value, modulo, g);
    // the last remainder is the greatest common divisor
    lemma_last_remainder_is_gcd(modulo, start);
    assert(common_divisor(g, start, modulo));
    assert forall|d: int| #[trigger] common_divisor(d, value, modulo) implies g % d == 0 by {
        lemma_starting_value(value, modulo, d);
        assert(common_divisor(d, modulo, start));
    }
    // the coefficient times the starting value is congruent to it
    assert((0 * start - modulo) % modulo == 0) by {
        lemma_mod_multiples_basic(-1, modulo);
        assert(0 * start - modulo == (-1) * modulo) by (nonlinear_arith);
    }
    assert((1 * start - start) % modulo == 0) by {
        assert(1 * start - start == 0) by (nonlinear_arith);
        lemma_small_mod(0, modulo as nat);
    }
    lemma_coefficient_congruence(modulo, start, 0, 1, start, modulo);
    // and so is the result times the value
    let shift: int = if t < 0 { 1 } else { 0 };
    lemma_mod_self_0(modulo);
    lemma_combination_of_multiples(t * start - g, modulo, shift * start, modulo);
    assert(start * inv - g == (t * start - g) + (shift * start) * modulo) by (nonlinear_arith)
        requires
            inv == t + shift * modulo,
    ;
    lemma_combination_of_multiples(start * inv - g, value - start, inv, modulo);
    assert(value * inv - g == (start * inv - g) + inv * (value - start)) by (nonlinear_arith);
}

/// Two residues that both invert `value` modulo `modulo` are the same.
pub proof fn lemma_inverse_is_unique(value: int, modulo: int, u: int, w: int)
    requires
        modulo > 0,
        0 <= u < modulo,
        0 <= w < modulo,
        (value * u) % modulo == 1,
        (value * w) % modulo == 1,
    ensures
        u == w,
{
    lemma_mul_mod_noop_right(u, value * w, modulo);
    lemma_mul_mod_noop_right(w, value * u, modulo);
    assert(u * (value * w) == w * (value * u)) by (nonlinear_arith);
    assert(u * 1 == u && w * 1 == w);
    lemma_small_mod(u as nat, modulo as nat);
    lemma_small_mod(w as nat, modulo as nat);
}

/// Modular inverse correctness: for a `value` of any sign that has no divisor
/// in common with a `modulo` above 1, `inverse_mod(value, modulo)` is the one
/// integer in `[0, modulo)` whose product with `value` leaves the remainder 1.
pub proof fn lemma_inverse_mod_is_inverse(value: int, modulo: int)
    requires
        modulo > 1,
        coprime(value, modulo),
    ensures
        0 <= inverse_mod(value, modulo) < modulo,
        (value * inverse_mod(value, modulo)) % modulo == 1,
        forall|u: int|
            0 <= u < modulo && #[trigger] ((value * u) % modulo) == 1 ==> u == inverse_mod(
                value,
                modulo,
            ),
{
    let inv = inverse_mod(value, modulo);
    let p = value * inv;
    lemma_inverse_mod_range(value, modulo);
    lemma_inverse_mod_gives_gcd(value, modulo);
    assert(last_remainder(value, modulo) == 1);
    let k = (p - 1) / modulo;
    lemma_fundamental_div_mod(p - 1, modulo);
    assert(p == modulo * k + 1);
    lemma_mod_multiples_vanish(k, 1, modulo);
    lemma_small_mod(1, modulo as nat);
    assert forall|u: int| 0 <= u < modulo && #[trigger] ((value * u) % modulo) == 1 implies u
        == inv by {
        lemma_inverse_is_unique(value, modulo, u, inv);
    }
}

/// For a `modulo` above 1, `inverse_mod(value, modulo)` inverts `value` where
/// `value` and `modulo` are coprime, and nowhere else: a `value` that has a
/// divisor above 1 in common with `modulo` has no inverse at all.
pub proof fn lemma_inverts_exactly_the_coprime(value: int, modulo: int)
    requires
        modulo > 1,
    ensures
        ((value * inverse_mod(value, modulo)) % modulo == 1) <==> coprime(value, modulo),
{
    let inv = inverse_mod(value, modulo);
    let p = value * inv;
    if coprime(value, modulo) {
        lemma_inverse_mod_is_inverse(value, modulo);
    }
    if p % modulo == 1 {
        let k = p / modulo;
        lemma_fundamental_div_mod(p, modulo);
        assert forall|d: int| #[trigger] common_divisor(d, value, modulo) implies d == 1 by {
            lemma_small_mod(0, d as nat);
            lemma_combination_of_multiples(0, value, inv, d);
            assert(0 + inv * value == p) by (nonlinear_arith)
                requires
                    p == value * inv,
            ;
            lemma_combination_of_multiples(p, modulo, -k, d);
            assert(p + (-k) * modulo == 1) by (nonlinear_arith)
                requires
                    p == modulo * k + 1,
            ;
            if d > 1 {
                lemma_small_mod(1, d as nat);
            }
        }
    }
}

} // verus!
