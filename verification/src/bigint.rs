//! Arbitrary-precision arithmetic on two's-complement byte strings, done by
//! `num_bigint`.
//!
//! Every function here takes and returns big-endian two's-complement bytes;
//! what they denote is given by [`signed_value`]. The contracts are taken on
//! trust from `num_bigint`: Verus does not see its code.

use crate::signed_bytes::{minimal_bytes, signed_value};
use num_bigint::BigInt;
use num_traits::Pow;
use vstd::arithmetic::power::pow;
use vstd::prelude::*;

verus! {

/// The shortest two's-complement representation of the integer that `bytes`
/// denotes.
///
/// Trusted: `BigInt::from_signed_bytes_be` reads `bytes` as a big-endian
/// two's-complement integer (the empty string as zero), and
/// `BigInt::to_signed_bytes_be` writes an integer in the fewest bytes that
/// keep its sign, one zero byte for zero.
#[verifier::external_body]
pub(crate) fn to_signed_bytes(bytes: &Vec<u8>) -> (shortest: Vec<u8>)
    ensures
        shortest@ == minimal_bytes(signed_value(bytes@)),
{
    BigInt::from_signed_bytes_be(bytes.as_slice()).to_signed_bytes_be()
}

/// `base` to the power `exponent`, in its shortest two's-complement
/// representation.
///
/// Trusted: `Pow::pow` of a `BigInt` by a `usize` is exact exponentiation,
/// with the zeroth power equal to one. The result takes memory in proportion
/// to `exponent`.
#[verifier::external_body]
pub(crate) fn power(base: u8, exponent: usize) -> (result: Vec<u8>)
    ensures
        result@ == minimal_bytes(pow(base as int, exponent as nat)),
{
    Pow::pow(BigInt::from(base), exponent).to_signed_bytes_be()
}

/// The product of the integers that `left` and `right` denote, in its
/// shortest two's-complement representation.
///
/// Trusted: `*` on two `BigInt`s is exact multiplication.
#[verifier::external_body]
pub(crate) fn product(left: &Vec<u8>, right: &Vec<u8>) -> (result: Vec<u8>)
    ensures
        result@ == minimal_bytes(signed_value(left@) * signed_value(right@)),
{
    let left = BigInt::from_signed_bytes_be(left.as_slice());
    let right = BigInt::from_signed_bytes_be(right.as_slice());
    (left * right).to_signed_bytes_be()
}

} // verus!
