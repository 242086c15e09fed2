//! The boundary to `num_bigint`: the type `BigInt`, the mathematical integer
//! that a `BigInt` stands for, and one small function for each operation of
//! `num_bigint` and `num_traits` that the library performs.
//!
//! Verus does not look into the bodies of the functions marked
//! `external_body`: their contracts are assumptions about `num_bigint`.

use num_bigint::BigInt;
use num_traits::{One, Zero};
use vstd::math::abs;
use vstd::prelude::*;

verus! {

/// `num_bigint::BigInt`, a signed integer of any size. Verus sees nothing
/// inside one.
#[verifier::external_type_specification]
#[verifier::external_body]
pub struct ExBigInt(num_bigint::BigInt);

/// The mathematical integer that `n` holds: its sign and magnitude read as
/// one integer.
pub uninterp spec fn int_value(n: BigInt) -> int;

/// `x / d` rounded toward zero, as Rust's `/` rounds on its signed integers.
pub open spec fn truncated_quotient(x: int, d: int) -> int
    recommends
        d != 0,
{
    let q = abs(x) as int / abs(d) as int;
    if (x < 0) == (d < 0) {
        q
    } else {
        -q
    }
}

/// What `x` leaves over when it is divided by `d` with rounding toward zero:
/// zero or of the sign of `x`, and smaller than `d` in magnitude.
pub open spec fn truncated_remainder(x: int, d: int) -> int
    recommends
        d != 0,
{
    let r = abs(x) as int % abs(d) as int;
    if x < 0 {
        -r
    } else {
        r
    }
}

/// `<BigInt as num_traits::Zero>::zero`: the constant 0.
#[verifier::external_body]
pub(crate) fn zero() -> (r: BigInt)
    ensures
        int_value(r) == 0,
{
    BigInt::zero()
}

/// `<BigInt as num_traits::One>::one`: the constant 1.
#[verifier::external_body]
pub(crate) fn one() -> (r: BigInt)
    ensures
        int_value(r) == 1,
{
    BigInt::one()
}

/// `<BigInt as num_traits::Zero>::is_zero`: whether the value is 0.
#[verifier::external_body]
pub(crate) fn is_zero(n: &BigInt) -> (r: bool)
    ensures
        r == (int_value(*n) == 0),
{
    n.is_zero()
}

/// `<BigInt as Clone>::clone`: a second `BigInt` of the same value.
#[verifier::external_body]
pub(crate) fn copy(n: &BigInt) -> (r: BigInt)
    ensures
        int_value(r) == int_value(*n),
{
    n.clone()
}

/// `<BigInt as PartialEq>::eq`, written `x == y`: whether the two hold the
/// same integer. (`num_bigint` keeps one representation of each integer, and
/// compares sign and digits.)
#[verifier::external_body]
pub(crate) fn equal(x: &BigInt, y: &BigInt) -> (r: bool)
    ensures
        r == (int_value(*x) == int_value(*y)),
{
    x == y
}

/// `<BigInt as PartialOrd>::lt`, written `x < y`: the order of the integers.
#[verifier::external_body]
pub(crate) fn less(x: &BigInt, y: &BigInt) -> (r: bool)
    ensures
        r == (int_value(*x) < int_value(*y)),
{
    x < y
}

/// `<&BigInt as Add<&BigInt>>::add`, written `x + y`: the exact sum.
#[verifier::external_body]
pub(crate) fn sum(x: &BigInt, y: &BigInt) -> (r: BigInt)
    ensures
        int_value(r) == int_value(*x) + int_value(*y),
{
    x + y
}

/// `<&BigInt as Sub<&BigInt>>::sub`, written `x - y`: the exact difference.
#[verifier::external_body]
pub(crate) fn difference(x: &BigInt, y: &BigInt) -> (r: BigInt)
    ensures
        int_value(r) == int_value(*x) - int_value(*y),
{
    x - y
}

/// `<&BigInt as Mul<&BigInt>>::mul`, written `x * y`: the exact product.
#[verifier::external_body]
pub(crate) fn product(x: &BigInt, y: &BigInt) -> (r: BigInt)
    ensures
        int_value(r) == int_value(*x) * int_value(*y),
{
    x * y
}

/// `<i32 as Mul<&BigInt>>::mul`, written `k * x`: the exact product of a
/// machine integer and a `BigInt`.
#[verifier::external_body]
pub(crate) fn multiple(k: i32, x: &BigInt) -> (r: BigInt)
    ensures
        int_value(r) == k * int_value(*x),
{
    k * x
}

/// `<&BigInt as Neg>::neg`, written `-x`: the negation.
#[verifier::external_body]
pub(crate) fn negated(x: &BigInt) -> (r: BigInt)
    ensures
        int_value(r) == -int_value(*x),
{
    -x
}

/// `<&BigInt as Div<&BigInt>>::div`, written `x / d`: the quotient rounded
/// toward zero. `num_bigint` panics on a zero divisor, which the precondition
/// leaves out.
#[verifier::external_body]
pub(crate) fn quotient(x: &BigInt, d: &BigInt) -> (r: BigInt)
    requires
        int_value(*d) != 0,
    ensures
        int_value(r) == truncated_quotient(int_value(*x), int_value(*d)),
{
    x / d
}

/// `<&BigInt as Rem<&BigInt>>::rem`, written `x % d`: the remainder of the
/// division rounded toward zero, which is zero or of the sign of `x`.
/// `num_bigint` panics on a zero divisor, which the precondition leaves out.
#[verifier::external_body]
pub(crate) fn remainder(x: &BigInt, d: &BigInt) -> (r: BigInt)
    requires
        int_value(*d) != 0,
    ensures
        int_value(r) == truncated_remainder(int_value(*x), int_value(*d)),
{
    x % d
}

} // verus!
