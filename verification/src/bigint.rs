//! The arbitrary-precision integer collaborator: trusted wrappers around
//! `num_bigint::BigUint`, each stated over the number the value denotes,
//! and verified ceiling division built on them.

use vstd::prelude::*;

use num_bigint::BigUint;

verus! {

#[verifier::external_type_specification]
#[verifier::external_body]
pub struct ExBigUint(BigUint);

/// The natural number a `BigUint` denotes.
pub uninterp spec fn big(b: BigUint) -> nat;

/// Relies on `u64: Into<BigUint>`: the exact value, converted.
#[verifier::external_body]
pub fn big_from_u64(x: u64) -> (r: BigUint)
    ensures
        big(r) == x,
{
    BigUint::from(x)
}

/// Relies on `Clone for BigUint`: an equal value.
#[verifier::external_body]
pub fn big_clone(a: &BigUint) -> (r: BigUint)
    ensures
        big(r) == big(*a),
{
    a.clone()
}

/// Relies on `Add for &BigUint`: exact unbounded addition.
#[verifier::external_body]
pub fn big_add(a: &BigUint, b: &BigUint) -> (r: BigUint)
    ensures
        big(r) == big(*a) + big(*b),
{
    a + b
}

/// Relies on `Sub for &BigUint`, which panics when the result would be
/// negative: exact subtraction on the admitted inputs.
#[verifier::external_body]
pub fn big_sub(a: &BigUint, b: &BigUint) -> (r: BigUint)
    requires
        big(*b) <= big(*a),
    ensures
        big(r) == big(*a) - big(*b),
{
    a - b
}

/// Relies on `Mul for &BigUint`: exact unbounded multiplication.
#[verifier::external_body]
pub fn big_mul(a: &BigUint, b: &BigUint) -> (r: BigUint)
    ensures
        big(r) == big(*a) * big(*b),
{
    a * b
}

/// Relies on `Div for &BigUint`, which panics on a zero divisor: the
/// quotient rounded towards zero, which on naturals is the floor.
#[verifier::external_body]
pub fn big_div(a: &BigUint, b: &BigUint) -> (r: BigUint)
    requires
        big(*b) > 0,
    ensures
        big(r) == big(*a) / big(*b),
{
    a / b
}

/// Relies on `Rem for &BigUint`, which panics on a zero divisor: the
/// remainder of the floor division.
#[verifier::external_body]
pub fn big_rem(a: &BigUint, b: &BigUint) -> (r: BigUint)
    requires
        big(*b) > 0,
    ensures
        big(r) == big(*a) % big(*b),
{
    a % b
}

/// Relies on `Ord for BigUint`: the order of the denoted numbers.
#[verifier::external_body]
pub fn big_le(a: &BigUint, b: &BigUint) -> (r: bool)
    ensures
        r == (big(*a) <= big(*b)),
{
    a <= b
}

/// Relies on `Ord for BigUint`: the strict order of the denoted numbers.
#[verifier::external_body]
pub fn big_lt(a: &BigUint, b: &BigUint) -> (r: bool)
    ensures
        r == (big(*a) < big(*b)),
{
    a < b
}

/// Relies on `PartialEq for BigUint`: equality of the denoted numbers.
#[verifier::external_body]
pub fn big_eq(a: &BigUint, b: &BigUint) -> (r: bool)
    ensures
        r == (big(*a) == big(*b)),
{
    a == b
}

/// The ceiling of `x / d` over the naturals.
pub open spec fn ceil_div(x: nat, d: nat) -> nat {
    ((x + d - 1) / d as int) as nat
}

/// Verified ceiling division: add `d - 1`, then take the floor quotient.
pub fn big_ceil_div(x: &BigUint, d: &BigUint) -> (r: BigUint)
    requires
        big(*d) > 0,
    ensures
        big(r) == ceil_div(big(*x), big(*d)),
{
    let one = big_from_u64(1);
    let sum = big_add(x, d);
    let sum1 = big_sub(&sum, &one);
    big_div(&sum1, d)
}

/// The ceiling quotient is at most any factor whose multiple reaches `x`,
/// and the floor quotient at least any factor whose multiple stays below.
pub proof fn lemma_ceil_floor_bounds(x: nat, d: nat, k: nat)
    requires
        d > 0,
    ensures
        x <= k * d ==> ceil_div(x, d) <= k,
        k * d <= x ==> k <= (x as int) / (d as int),
{
    if x <= k * d {
        vstd::arithmetic::div_mod::lemma_div_multiples_vanish_fancy(
            k as int,
            d as int - 1,
            d as int,
        );
        assert(k as int * d == d as int * k) by (nonlinear_arith);
        assert((d as int * k + (d - 1)) / d as int == k);
        vstd::arithmetic::div_mod::lemma_div_is_ordered(
            x + d - 1,
            k as int * d + d - 1,
            d as int,
        );
    }
    if k * d <= x {
        vstd::arithmetic::div_mod::lemma_div_multiples_vanish(k as int, d as int);
        assert(k as int * d == d as int * k) by (nonlinear_arith);
        vstd::arithmetic::div_mod::lemma_div_is_ordered(k as int * d, x as int, d as int);
    }
}

} // verus!
