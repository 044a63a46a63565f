//! Arbitrary-precision integers.
//!
//! A [`BigInteger`] holds its value as two's-complement bytes; the arithmetic on
//! it is `num_bigint::BigInt`'s. Its model is the mathematical integer.

use crate::text::decimal;
use num_bigint::BigInt;
use std::cmp::Ordering;
use vstd::arithmetic::power::pow;
use vstd::prelude::*;

verus! {

/// The natural number whose base-256 digits are `bytes`, least significant first.
pub open spec fn le_nat(bytes: Seq<u8>) -> nat
    decreases bytes.len(),
{
    if bytes.len() == 0 {
        0
    } else {
        bytes[0] as nat + 256 * le_nat(bytes.subrange(1, bytes.len() as int))
    }
}

/// The integer whose two's-complement bytes are `bytes`, least significant first.
pub open spec fn twos_complement(bytes: Seq<u8>) -> int {
    if bytes.len() > 0 && bytes.last() >= 0x80 {
        le_nat(bytes) - pow(256, bytes.len())
    } else {
        le_nat(bytes) as int
    }
}

/// The absolute value.
pub open spec fn magnitude(n: int) -> nat {
    if n < 0 {
        (-n) as nat
    } else {
        n as nat
    }
}

/// `a / b` rounded toward zero.
pub open spec fn truncated_div(a: int, b: int) -> int {
    if a < 0 {
        -((-a) / b)
    } else {
        a / b
    }
}

/// An integer of any size.
#[derive(Debug)]
pub struct BigInteger {
    bytes: Vec<u8>,
}

impl View for BigInteger {
    type V = int;

    closed spec fn view(&self) -> int {
        twos_complement(self.bytes@)
    }
}

impl Clone for BigInteger {
    fn clone(&self) -> (r: Self)
        ensures
            r@ == self@,
    {
        let bytes = self.bytes.clone();
        proof {
            assert(bytes@ =~= self.bytes@);
        }
        BigInteger { bytes }
    }
}

/// `BigInt::from(u8)`, written out as two's-complement bytes: the value of `n`.
#[verifier::external_body]
fn big_from(n: u8) -> (r: Vec<u8>)
    ensures
        twos_complement(r@) == n as int,
{
    BigInt::from(n).to_signed_bytes_le()
}

/// `BigInt`'s `+`: the exact sum, arguments and result as two's-complement bytes.
#[verifier::external_body]
fn big_add(a: &Vec<u8>, b: &Vec<u8>) -> (r: Vec<u8>)
    ensures
        twos_complement(r@) == twos_complement(a@) + twos_complement(b@),
{
    (BigInt::from_signed_bytes_le(a) + BigInt::from_signed_bytes_le(b)).to_signed_bytes_le()
}

/// `BigInt`'s `*`: the exact product, arguments and result as two's-complement bytes.
#[verifier::external_body]
fn big_mul(a: &Vec<u8>, b: &Vec<u8>) -> (r: Vec<u8>)
    ensures
        twos_complement(r@) == twos_complement(a@) * twos_complement(b@),
{
    (BigInt::from_signed_bytes_le(a) * BigInt::from_signed_bytes_le(b)).to_signed_bytes_le()
}

/// `BigInt`'s unary `-`: the exact negation, argument and result as two's-complement bytes.
#[verifier::external_body]
fn big_neg(a: &Vec<u8>) -> (r: Vec<u8>)
    ensures
        twos_complement(r@) == -twos_complement(a@),
{
    (-BigInt::from_signed_bytes_le(a)).to_signed_bytes_le()
}

/// `BigInt`'s `/`, for a positive divisor: the quotient rounded toward zero.
#[verifier::external_body]
fn big_div(a: &Vec<u8>, b: &Vec<u8>) -> (r: Vec<u8>)
    requires
        twos_complement(b@) > 0,
    ensures
        twos_complement(r@) == truncated_div(twos_complement(a@), twos_complement(b@)),
{
    (BigInt::from_signed_bytes_le(a) / BigInt::from_signed_bytes_le(b)).to_signed_bytes_le()
}

/// `BigInt`'s `%`, for a positive divisor: what rounding the quotient toward zero leaves.
#[verifier::external_body]
fn big_rem(a: &Vec<u8>, b: &Vec<u8>) -> (r: Vec<u8>)
    requires
        twos_complement(b@) > 0,
    ensures
        twos_complement(r@) == twos_complement(a@) - twos_complement(b@) * truncated_div(
            twos_complement(a@),
            twos_complement(b@),
        ),
{
    (BigInt::from_signed_bytes_le(a) % BigInt::from_signed_bytes_le(b)).to_signed_bytes_le()
}

/// `BigInt::pow`: the base multiplied by itself `exponent` times.
#[verifier::external_body]
fn big_pow(base: &Vec<u8>, exponent: u8) -> (r: Vec<u8>)
    ensures
        twos_complement(r@) == pow(twos_complement(base@), exponent as nat),
{
    BigInt::from_signed_bytes_le(base).pow(u32::from(exponent)).to_signed_bytes_le()
}

/// `BigInt`'s `Ord::cmp`: the order of the two values.
#[verifier::external_body]
fn big_compare(a: &Vec<u8>, b: &Vec<u8>) -> (r: Ordering)
    ensures
        r == Ordering::Less <==> twos_complement(a@) < twos_complement(b@),
        r == Ordering::Equal <==> twos_complement(a@) == twos_complement(b@),
        r == Ordering::Greater <==> twos_complement(a@) > twos_complement(b@),
{
    BigInt::from_signed_bytes_le(a).cmp(&BigInt::from_signed_bytes_le(b))
}

/// `BigUint::to_str_radix` in base ten, on `BigInt::magnitude`: the decimal
/// numeral of the absolute value, with neither sign nor leading zero.
#[verifier::external_body]
fn big_magnitude_decimal(a: &Vec<u8>) -> (r: String)
    ensures
        r@ == decimal(magnitude(twos_complement(a@))),
{
    BigInt::from_signed_bytes_le(a).magnitude().to_str_radix(10)
}

impl BigInteger {
    /// The integer `n`.
    pub fn from_u8(n: u8) -> (r: BigInteger)
        ensures
            r@ == n,
    {
        BigInteger { bytes: big_from(n) }
    }

    /// `self + other`.
    pub fn plus(&self, other: &BigInteger) -> (r: BigInteger)
        ensures
            r@ == self@ + other@,
    {
        BigInteger { bytes: big_add(&self.bytes, &other.bytes) }
    }

    /// `self * other`.
    pub fn times(&self, other: &BigInteger) -> (r: BigInteger)
        ensures
            r@ == self@ * other@,
    {
        BigInteger { bytes: big_mul(&self.bytes, &other.bytes) }
    }

    /// `-self`.
    pub fn negated(&self) -> (r: BigInteger)
        ensures
            r@ == -self@,
    {
        BigInteger { bytes: big_neg(&self.bytes) }
    }

    /// `self / divisor`, rounded toward zero.
    pub fn divided_by(&self, divisor: &BigInteger) -> (r: BigInteger)
        requires
            divisor@ > 0,
        ensures
            r@ == truncated_div(self@, divisor@),
    {
        BigInteger { bytes: big_div(&self.bytes, &divisor.bytes) }
    }

    /// What `divided_by` leaves over: it has the sign of `self`.
    pub fn remainder(&self, divisor: &BigInteger) -> (r: BigInteger)
        requires
            divisor@ > 0,
        ensures
            r@ == self@ - divisor@ * truncated_div(self@, divisor@),
    {
        BigInteger { bytes: big_rem(&self.bytes, &divisor.bytes) }
    }

    /// `self` to the power `exponent`.
    pub fn to_power(&self, exponent: u8) -> (r: BigInteger)
        ensures
            r@ == pow(self@, exponent as nat),
    {
        BigInteger { bytes: big_pow(&self.bytes, exponent) }
    }

    /// How `self` is ordered against `other`.
    pub fn compare(&self, other: &BigInteger) -> (r: Ordering)
        ensures
            r == Ordering::Less <==> self@ < other@,
            r == Ordering::Equal <==> self@ == other@,
            r == Ordering::Greater <==> self@ > other@,
    {
        big_compare(&self.bytes, &other.bytes)
    }

    /// The decimal numeral of the absolute value.
    pub fn magnitude_decimal(&self) -> (r: String)
        ensures
            r@ == decimal(magnitude(self@)),
    {
        big_magnitude_decimal(&self.bytes)
    }

    /// Whether the two values are equal.
    pub fn equals(&self, other: &BigInteger) -> (r: bool)
        ensures
            r == (self@ == other@),
    {
        match self.compare(other) {
            Ordering::Equal => true,
            _ => false,
        }
    }

    /// Whether the value is below zero.
    pub fn is_negative(&self) -> (r: bool)
        ensures
            r == (self@ < 0),
    {
        match self.compare(&BigInteger::from_u8(0)) {
            Ordering::Less => true,
            _ => false,
        }
    }
}

} // verus!
