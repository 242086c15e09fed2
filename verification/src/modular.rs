//! Residues modulo a positive integer, computed with the truncating
//! remainder that `BigInt` offers.

use crate::integer::{int_value, less, remainder, sum, truncated_quotient, truncated_remainder, zero};
use num_bigint::BigInt;
use vstd::arithmetic::div_mod::{
    lemma_fundamental_div_mod, lemma_fundamental_div_mod_converse, lemma_mod_bound,
};
use vstd::math::abs;
use vstd::prelude::*;

verus! {

/// Truncating division is a division with remainder: quotient and remainder
/// rebuild `x`, and the remainder is smaller than `d` in magnitude and never of
/// the sign opposite to `x`. Where neither `x` nor `d` is negative it is the
/// division of the natural numbers.
pub proof fn lemma_truncated_division(x: int, d: int)
    requires
        d != 0,
    ensures
        x == truncated_quotient(x, d) * d + truncated_remainder(x, d),
        abs(truncated_remainder(x, d)) < abs(d),
        x >= 0 ==> truncated_remainder(x, d) >= 0,
        x <= 0 ==> truncated_remainder(x, d) <= 0,
        x >= 0 && d > 0 ==> truncated_quotient(x, d) == x / d && truncated_remainder(x, d) == x % d,
{
    let ax = abs(x) as int;
    let ad = abs(d) as int;
    let q = ax / ad;
    let r = ax % ad;
    lemma_fundamental_div_mod(ax, ad);
    lemma_mod_bound(ax, ad);
    assert(ax == ad * q + r);
    assert(truncated_quotient(x, d) * d == if x < 0 { -(ad * q) } else { ad * q }) by (nonlinear_arith)
        requires
            ad == (if d < 0 { -d } else { d }),
            truncated_quotient(x, d) == (if (x < 0) == (d < 0) { q } else { -q }),
    ;
}

/// The residue of `x` modulo a positive `m` is the truncating remainder,
/// moved up by `m` where it is negative.
pub proof fn lemma_residue_from_truncation(x: int, m: int)
    requires
        m > 0,
    ensures
        x % m == (if truncated_remainder(x, m) < 0 {
            truncated_remainder(x, m) + m
        } else {
            truncated_remainder(x, m)
        }),
        0 <= x % m < m,
        (truncated_remainder(x, m) == 0) == (x % m == 0),
{
    lemma_mod_bound(x, m);
    lemma_truncated_division(x, m);
    let q = truncated_quotient(x, m);
    let r = truncated_remainder(x, m);
    if r < 0 {
        assert(x == (q - 1) * m + (r + m)) by (nonlinear_arith)
            requires
                x == q * m + r,
        ;
        lemma_fundamental_div_mod_converse(x, m, q - 1, r + m);
    } else {
        lemma_fundamental_div_mod_converse(x, m, q, r);
    }
}

/// The residue of `x` modulo `m`: the one integer in `[0, m)` that differs from
/// `x` by a multiple of `m`. It needs a positive `m`; `checked_residue` tests
/// that.
pub fn residue(x: &BigInt, m: &BigInt) -> (r: BigInt)
    requires
        int_value(*m) > 0,
    ensures
        int_value(r) == int_value(*x) % int_value(*m),
        0 <= int_value(r) < int_value(*m),
{
    proof {
        lemma_residue_from_truncation(int_value(*x), int_value(*m));
    }
    let r = remainder(x, m);
    if less(&r, &zero()) {
        sum(&r, m)
    } else {
        r
    }
}

/// The residue of `x` modulo `m` where `m` is positive, and `None` elsewhere.
pub fn checked_residue(x: &BigInt, m: &BigInt) -> (r: Option<BigInt>)
    ensures
        r is Some <==> int_value(*m) > 0,
        r matches Some(n) ==> int_value(n) == int_value(*x) % int_value(*m),
{
    if less(&zero(), m) {
        Some(residue(x, m))
    } else {
        None
    }
}

} // verus!
