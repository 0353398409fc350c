//! The arbitrary-precision arithmetic that the trajectory engine stands on.
//!
//! `num_bigint::BigUint` does the arithmetic. Verus cannot look inside it, so
//! this module gives the number that a `BigUint` holds a name, [`value_of`],
//! and states over that name what each operation used by the engine returns.
//! None of the contracts in this module is proved: they restate what the
//! `num-bigint`, `num-integer` and `num-traits` crates document.

use num_bigint::BigUint;
use num_integer::Integer;
use num_traits::One;
use vstd::arithmetic::power::pow;
use vstd::arithmetic::power2::pow2;
use vstd::prelude::*;

verus! {

#[verifier::external_type_specification]
#[verifier::external_body]
pub struct ExBigUint(num_bigint::BigUint);

/// The natural number that a `BigUint` holds.
pub uninterp spec fn value_of(n: BigUint) -> nat;

/// `num_traits::One::one` for `BigUint`: the number one.
#[verifier::external_body]
pub(crate) fn one() -> (r: BigUint)
    ensures
        value_of(r) == 1,
{
    One::one()
}

/// `BigUint::from(u64)`: the same number, widened.
#[verifier::external_body]
pub(crate) fn from_u64(x: u64) -> (r: BigUint)
    ensures
        value_of(r) == x,
{
    BigUint::from(x)
}

/// `BigUint::clone`: a second number with the same value.
#[verifier::external_body]
pub(crate) fn duplicate(n: &BigUint) -> (r: BigUint)
    ensures
        value_of(r) == value_of(*n),
{
    n.clone()
}

/// `BigUint == BigUint`: true exactly when both hold the same number.
#[verifier::external_body]
pub(crate) fn same(a: &BigUint, b: &BigUint) -> (r: bool)
    ensures
        r == (value_of(*a) == value_of(*b)),
{
    a == b
}

/// `BigUint < BigUint`: the order of the natural numbers.
#[verifier::external_body]
pub(crate) fn less(a: &BigUint, b: &BigUint) -> (r: bool)
    ensures
        r == (value_of(*a) < value_of(*b)),
{
    a < b
}

/// `num_integer::Integer::is_even` for `BigUint`: true exactly when the number
/// is divisible by two. The crate decides it from the lowest bit.
#[verifier::external_body]
pub(crate) fn is_even(n: &BigUint) -> (r: bool)
    ensures
        r == (value_of(*n) % 2 == 0),
{
    n.is_even()
}

/// `BigUint::trailing_zeros`: `None` for zero; otherwise the number of low
/// bits that are zero, that is the largest `k` such that `2^k` divides the
/// number.
#[verifier::external_body]
pub(crate) fn trailing_zeros(n: &BigUint) -> (r: Option<u64>)
    ensures
        r is None <==> value_of(*n) == 0,
        r matches Some(k) ==> value_of(*n) % pow2(k as nat) == 0 && (value_of(*n) / pow2(
            k as nat,
        )) % 2 == 1,
{
    n.trailing_zeros()
}

/// `&BigUint >> u64`: the number divided by `2^bits`, rounded down.
#[verifier::external_body]
pub(crate) fn shift_right(n: &BigUint, bits: u64) -> (r: BigUint)
    ensures
        value_of(r) == value_of(*n) / pow2(bits as nat),
{
    n >> bits
}

/// `&BigUint << u64`: the number multiplied by `2^bits`. The crate panics
/// when `bits / 64` does not fit in a `usize`; such shifts are left out.
#[verifier::external_body]
pub(crate) fn shift_left(n: &BigUint, bits: u64) -> (r: BigUint)
    requires
        bits / 64 <= usize::MAX,
    ensures
        value_of(r) == value_of(*n) * pow2(bits as nat),
{
    n << bits
}

/// `&BigUint + &BigUint`: the sum.
#[verifier::external_body]
pub(crate) fn sum(a: &BigUint, b: &BigUint) -> (r: BigUint)
    ensures
        value_of(r) == value_of(*a) + value_of(*b),
{
    a + b
}

/// `&BigUint * &BigUint`: the product.
#[verifier::external_body]
pub(crate) fn product(a: &BigUint, b: &BigUint) -> (r: BigUint)
    ensures
        value_of(r) == value_of(*a) * value_of(*b),
{
    a * b
}

/// `&BigUint / &BigUint`: the quotient, rounded down. The crate panics on a
/// zero divisor, which is left out.
#[verifier::external_body]
pub(crate) fn quotient(a: &BigUint, b: &BigUint) -> (r: BigUint)
    requires
        value_of(*b) != 0,
    ensures
        value_of(r) == value_of(*a) / value_of(*b),
{
    a / b
}

/// `&BigUint % &BigUint`: the remainder. The crate panics on a zero divisor,
/// which is left out.
#[verifier::external_body]
pub(crate) fn remainder(a: &BigUint, b: &BigUint) -> (r: BigUint)
    requires
        value_of(*b) != 0,
    ensures
        value_of(r) == value_of(*a) % value_of(*b),
{
    a % b
}

/// `BigUint::pow`: the number raised to `exponent`, with `0^0 == 1`.
#[verifier::external_body]
pub(crate) fn power(base: &BigUint, exponent: u32) -> (r: BigUint)
    ensures
        value_of(r) == pow(value_of(*base) as int, exponent as nat),
{
    base.pow(exponent)
}

} // verus!
