//! Amounts of money as 128-bit decimal floating-point numbers.
//!
//! All arithmetic is done by the `decimal` crate on its `d128` type. An
//! [`Amount`] holds the IEEE 754 decimal128 encoding of a `d128` as one
//! integer, and this module gives a name to the encoding that each `d128`
//! operation produces. What those encodings are is not restated here: the
//! contracts in this crate say which operations were applied to which
//! operands and in which order, and rely on nothing else.

use decimal::d128;
use std::ops::{Add, Mul, Sub};
use vstd::prelude::*;
use vstd::std_specs::convert::FromSpecImpl;
use vstd::std_specs::ops::{AddSpecImpl, MulSpecImpl, SubSpecImpl};

verus! {

/// The encoding of positive zero with exponent zero.
pub const ZERO_ENCODING: u128 = 0x2208_0000_0000_0000_0000_0000_0000_0000;

/// The encoding of `x + y` for the `d128` values encoded by `a` and `b`.
pub uninterp spec fn decimal_sum(a: u128, b: u128) -> u128;

/// The encoding of `x - y` for the `d128` values encoded by `a` and `b`.
pub uninterp spec fn decimal_difference(a: u128, b: u128) -> u128;

/// The encoding of `x * y` for the `d128` values encoded by `a` and `b`.
pub uninterp spec fn decimal_product(a: u128, b: u128) -> u128;

/// Whether `x == y` for the `d128` values encoded by `a` and `b`. This
/// compares numbers, not encodings: it holds of 1.0 and 1.00, and it does
/// not hold of a NaN and itself.
pub uninterp spec fn decimal_equal(a: u128, b: u128) -> bool;

/// The encoding of the `d128` that an integer converts to.
pub uninterp spec fn decimal_of_integer(v: i64) -> u128;

/// `d128::zero`, which returns positive zero with exponent zero.
#[verifier::external_body]
fn zero_encoding() -> (r: u128)
    ensures
        r == ZERO_ENCODING,
{
    u128::from_ne_bytes(d128::zero().to_raw_bytes())
}

/// `d128::from` on an `i64`. The result is only given its name.
#[verifier::external_body]
fn encode_integer(v: i64) -> (r: u128)
    ensures
        r == decimal_of_integer(v),
{
    u128::from_ne_bytes(d128::from(v).to_raw_bytes())
}

/// `Add::add` on two `d128` values. The result is only given its name.
#[verifier::external_body]
fn add_encoded(a: u128, b: u128) -> (r: u128)
    ensures
        r == decimal_sum(a, b),
{
    let x = d128::from_hex(&format!("{:032x}", u128::from_le_bytes(a.to_ne_bytes())));
    let y = d128::from_hex(&format!("{:032x}", u128::from_le_bytes(b.to_ne_bytes())));
    u128::from_ne_bytes((x + y).to_raw_bytes())
}

/// `Sub::sub` on two `d128` values. The result is only given its name.
#[verifier::external_body]
fn sub_encoded(a: u128, b: u128) -> (r: u128)
    ensures
        r == decimal_difference(a, b),
{
    let x = d128::from_hex(&format!("{:032x}", u128::from_le_bytes(a.to_ne_bytes())));
    let y = d128::from_hex(&format!("{:032x}", u128::from_le_bytes(b.to_ne_bytes())));
    u128::from_ne_bytes((x - y).to_raw_bytes())
}

/// `Mul::mul` on two `d128` values. The result is only given its name.
#[verifier::external_body]
fn mul_encoded(a: u128, b: u128) -> (r: u128)
    ensures
        r == decimal_product(a, b),
{
    let x = d128::from_hex(&format!("{:032x}", u128::from_le_bytes(a.to_ne_bytes())));
    let y = d128::from_hex(&format!("{:032x}", u128::from_le_bytes(b.to_ne_bytes())));
    u128::from_ne_bytes((x * y).to_raw_bytes())
}

/// `PartialEq::eq` on two `d128` values. The result is only given its name.
#[verifier::external_body]
fn eq_encoded(a: u128, b: u128) -> (r: bool)
    ensures
        r == decimal_equal(a, b),
{
    let x = d128::from_hex(&format!("{:032x}", u128::from_le_bytes(a.to_ne_bytes())));
    let y = d128::from_hex(&format!("{:032x}", u128::from_le_bytes(b.to_ne_bytes())));
    x == y
}

/// An amount of money. Positive amounts flow in, negative amounts flow out.
///
/// Two amounts are `==` when they have the same encoding. Amounts that
/// stand for the same number may still differ in encoding; use
/// [`Amount::same_value`] to compare numbers.
#[derive(Clone, Copy, Debug, PartialEq, Eq, Structural, Hash)]
pub struct Amount {
    pub bits: u128,
}

impl Amount {
    /// Positive zero.
    pub open spec fn nil() -> Amount {
        Amount { bits: ZERO_ENCODING }
    }

    /// The amount an integer converts to.
    pub open spec fn of_integer(v: i64) -> Amount {
        Amount { bits: decimal_of_integer(v) }
    }

    /// The sum of two amounts.
    pub open spec fn plus(self, other: Amount) -> Amount {
        Amount { bits: decimal_sum(self.bits, other.bits) }
    }

    /// The difference of two amounts.
    pub open spec fn minus(self, other: Amount) -> Amount {
        Amount { bits: decimal_difference(self.bits, other.bits) }
    }

    /// The product of two amounts.
    pub open spec fn times(self, other: Amount) -> Amount {
        Amount { bits: decimal_product(self.bits, other.bits) }
    }

    /// An amount multiplied by itself.
    pub open spec fn squared(self) -> Amount {
        self.times(self)
    }

    /// Whether two amounts stand for the same number.
    pub open spec fn equals(self, other: Amount) -> bool {
        decimal_equal(self.bits, other.bits)
    }

    /// Positive zero.
    pub fn zero() -> (a: Amount)
        ensures
            a == Amount::nil(),
    {
        Amount { bits: zero_encoding() }
    }

    /// The amount with the given encoding.
    pub fn from_bits(bits: u128) -> (a: Amount)
        ensures
            a.bits == bits,
    {
        Amount { bits }
    }

    /// The encoding of this amount.
    pub fn to_bits(&self) -> (bits: u128)
        ensures
            bits == self.bits,
    {
        self.bits
    }

    /// Whether two amounts stand for the same number.
    pub fn same_value(&self, other: &Amount) -> (r: bool)
        ensures
            r == self.equals(*other),
    {
        eq_encoded(self.bits, other.bits)
    }
}

impl From<i64> for Amount {
    fn from(v: i64) -> (a: Amount) {
        Amount { bits: encode_integer(v) }
    }
}

impl FromSpecImpl<i64> for Amount {
    open spec fn obeys_from_spec() -> bool {
        true
    }

    open spec fn from_spec(v: i64) -> Amount {
        Amount::of_integer(v)
    }
}

impl Add for Amount {
    type Output = Amount;

    fn add(self, rhs: Amount) -> (sum: Amount) {
        Amount { bits: add_encoded(self.bits, rhs.bits) }
    }
}

impl AddSpecImpl for Amount {
    open spec fn obeys_add_spec() -> bool {
        true
    }

    open spec fn add_req(self, rhs: Amount) -> bool {
        true
    }

    open spec fn add_spec(self, rhs: Amount) -> Amount {
        self.plus(rhs)
    }
}

impl Sub for Amount {
    type Output = Amount;

    fn sub(self, rhs: Amount) -> (difference: Amount) {
        Amount { bits: sub_encoded(self.bits, rhs.bits) }
    }
}

impl SubSpecImpl for Amount {
    open spec fn obeys_sub_spec() -> bool {
        true
    }

    open spec fn sub_req(self, rhs: Amount) -> bool {
        true
    }

    open spec fn sub_spec(self, rhs: Amount) -> Amount {
        self.minus(rhs)
    }
}

impl Mul for Amount {
    type Output = Amount;

    fn mul(self, rhs: Amount) -> (product: Amount) {
        Amount { bits: mul_encoded(self.bits, rhs.bits) }
    }
}

impl MulSpecImpl for Amount {
    open spec fn obeys_mul_spec() -> bool {
        true
    }

    open spec fn mul_req(self, rhs: Amount) -> bool {
        true
    }

    open spec fn mul_spec(self, rhs: Amount) -> Amount {
        self.times(rhs)
    }
}

} // verus!
