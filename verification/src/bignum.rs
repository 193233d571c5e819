//! Arbitrary-precision integers for bignum boxes. Storage and arithmetic
//! come from the `num` crate; `big_value` names the integer a `BigInt`
//! represents, and every operation used here is stated over that name.

use vstd::prelude::*;

use vstd::arithmetic::power2::pow2;

verus! {

#[verifier::external_type_specification]
#[verifier::external_body]
pub struct ExBigInt(num::BigInt);

/// The integer represented by a `BigInt`; a function of the digits and
/// sign alone.
pub uninterp spec fn big_value(b: num::BigInt) -> int;

/// Relies on num's `impl From<i128> for BigInt`: the result represents
/// exactly the given value.
#[verifier::external_body]
pub fn big_from_i128(v: i128) -> (r: num::BigInt)
    ensures
        big_value(r) == v as int,
{
    num::BigInt::from(v)
}

/// Relies on num's `impl Ord for BigInt`: compares the represented values
/// (sign first, then magnitude).
#[verifier::external_body]
pub fn big_cmp(a: &num::BigInt, b: &num::BigInt) -> (r: core::cmp::Ordering)
    ensures
        (r == core::cmp::Ordering::Less <==> big_value(*a) < big_value(*b)),
        (r == core::cmp::Ordering::Equal <==> big_value(*a) == big_value(*b)),
        (r == core::cmp::Ordering::Greater <==> big_value(*a) > big_value(*b)),
{
    a.cmp(b)
}

/// Relies on num's `impl ToPrimitive for BigInt`: `to_i128` returns the
/// value exactly when it fits in an `i128`, and `None` otherwise.
#[verifier::external_body]
pub fn big_to_i128(a: &num::BigInt) -> (r: Option<i128>)
    ensures
        match r {
            Some(v) => v as int == big_value(*a),
            None => big_value(*a) < i128::MIN || big_value(*a) > i128::MAX,
        },
{
    num::ToPrimitive::to_i128(a)
}

/// Relies on num's derived `Clone for BigInt`: the copy represents the
/// same integer.
#[verifier::external_body]
pub fn big_clone(a: &num::BigInt) -> (r: num::BigInt)
    ensures
        big_value(r) == big_value(*a),
{
    a.clone()
}

/// Relies on num's `impl Add for &BigInt`: exact integer addition.
#[verifier::external_body]
pub fn big_add(a: &num::BigInt, b: &num::BigInt) -> (r: num::BigInt)
    ensures
        big_value(r) == big_value(*a) + big_value(*b),
{
    a + b
}

/// Relies on num's `impl Sub for &BigInt`: exact integer subtraction.
#[verifier::external_body]
pub fn big_sub(a: &num::BigInt, b: &num::BigInt) -> (r: num::BigInt)
    ensures
        big_value(r) == big_value(*a) - big_value(*b),
{
    a - b
}

/// Relies on num's `impl Mul for &BigInt`: exact integer multiplication.
#[verifier::external_body]
pub fn big_mul(a: &num::BigInt, b: &num::BigInt) -> (r: num::BigInt)
    ensures
        big_value(r) == big_value(*a) * big_value(*b),
{
    a * b
}

/// Relies on num's `impl Display for BigInt`: plain base-10 digits with a
/// leading minus sign for negatives, no padding or grouping.
#[verifier::external_body]
pub fn big_to_dec_bytes(a: &num::BigInt) -> (r: Vec<u8>)
    ensures
        r@ == crate::lterm::int_dec_bytes(big_value(*a)),
{
    a.to_string().into_bytes()
}

/// Relies on num's `impl Shl<u64> for &BigInt`: an exact scaling by a
/// power of two.
#[verifier::external_body]
pub fn big_shl(a: &num::BigInt, k: u64) -> (r: num::BigInt)
    ensures
        big_value(r) == big_value(*a) * pow2(k as nat),
{
    a << k
}

} // verus!
