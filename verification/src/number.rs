//! Numbers of the geometry: 32-bit floating-point values, held by their bit
//! patterns so that they can be stored, passed on and compared exactly.
//!
//! The arithmetic is that of std's `f32`, which `descartes` uses under the
//! name `N` as the number type of its paths. What it makes of two patterns
//! is given a name; a result that is not a number is kept as the one
//! pattern `NAN_BITS`, whatever pattern the floating-point unit chose for
//! it. The negative is worked out here: it is the pattern with the sign bit
//! turned.

use descartes::N;
use vstd::prelude::*;

verus! {

/// A 32-bit floating-point number, given by its IEEE 754 bit pattern.
/// `==` compares the patterns.
#[derive(Clone, Copy, Debug, PartialEq, Eq, Structural)]
pub struct Number {
    pub bits: u32,
}

/// The pattern of positive zero.
pub const ZERO_BITS: u32 = 0;

/// The pattern of negative zero.
pub const NEGATIVE_ZERO_BITS: u32 = 0x8000_0000;

/// The pattern of one.
pub const ONE_BITS: u32 = 0x3f80_0000;

/// The pattern of two.
pub const TWO_BITS: u32 = 0x4000_0000;

/// The pattern of positive infinity: every larger magnitude is not a number.
pub const INFINITY_BITS: u32 = 0x7f80_0000;

/// The pattern that stands for every result that is not a number.
pub const NAN_BITS: u32 = 0x7fc0_0000;

/// The pattern without its sign bit.
pub open spec fn magnitude_bits(bits: u32) -> u32 {
    if bits >= NEGATIVE_ZERO_BITS {
        (bits - NEGATIVE_ZERO_BITS) as u32
    } else {
        bits
    }
}

/// Whether the pattern is one of the two zeros.
pub open spec fn is_zero_bits(bits: u32) -> bool {
    bits == ZERO_BITS || bits == NEGATIVE_ZERO_BITS
}

/// Whether the pattern is not a number.
pub open spec fn is_nan_bits(bits: u32) -> bool {
    magnitude_bits(bits) > INFINITY_BITS
}

/// A pattern as the library keeps it: a number as it is, anything else as
/// the one pattern `NAN_BITS`.
pub open spec fn settled_bits(bits: u32) -> u32 {
    if is_nan_bits(bits) {
        NAN_BITS
    } else {
        bits
    }
}

/// Whether two patterns are the same but for the pattern of what is not a
/// number: both are numbers and the same pattern, or neither is a number.
pub open spec fn same_but_nan_bits(a: u32, b: u32) -> bool {
    is_nan_bits(a) == is_nan_bits(b) && (!is_nan_bits(a) ==> a == b)
}

/// Whether two patterns are the same number: the same pattern of a number,
/// or two zeros.
pub open spec fn same_value_bits(a: u32, b: u32) -> bool {
    ||| (a == b && !is_nan_bits(a))
    ||| (is_zero_bits(a) && is_zero_bits(b))
}

/// The pattern of the rounded sum of two numbers.
pub uninterp spec fn sum_bits(a: u32, b: u32) -> u32;

/// The pattern of the rounded difference of two numbers.
pub uninterp spec fn difference_bits(a: u32, b: u32) -> u32;

/// The pattern of the rounded product of two numbers.
pub uninterp spec fn product_bits(a: u32, b: u32) -> u32;

/// The pattern of the rounded quotient of two numbers.
pub uninterp spec fn quotient_bits(a: u32, b: u32) -> u32;

/// The pattern with its sign bit turned.
pub open spec fn sign_turned_bits(bits: u32) -> u32 {
    if bits >= NEGATIVE_ZERO_BITS {
        (bits - NEGATIVE_ZERO_BITS) as u32
    } else {
        (bits + NEGATIVE_ZERO_BITS) as u32
    }
}

/// `a + b` of std's `f32` (`<f32 as Add>::add`), written here by its name
/// `descartes::N`. The sum of two
/// patterns is a number exactly when `sum_bits` is one, and is then that
/// pattern; of a result that is not a number only that much is claimed.
/// Adding a zero to a number gives the same number back, the sum being
/// rounded to the nearest value that can be held.
#[verifier::external_body]
fn float_sum(a: u32, b: u32) -> (r: u32)
    ensures
        is_nan_bits(r) == is_nan_bits(sum_bits(a, b)),
        !is_nan_bits(r) ==> r == sum_bits(a, b),
        !is_nan_bits(a) && is_zero_bits(b) ==> same_value_bits(r, a),
{
    core::ops::Add::add(N::from_bits(a), N::from_bits(b)).to_bits()
}

/// `a - b` of std's `f32` (`<f32 as Sub>::sub`), written here by its name
/// `descartes::N`. The difference is a
/// number exactly when `difference_bits` is one, and is then that pattern.
#[verifier::external_body]
fn float_difference(a: u32, b: u32) -> (r: u32)
    ensures
        is_nan_bits(r) == is_nan_bits(difference_bits(a, b)),
        !is_nan_bits(r) ==> r == difference_bits(a, b),
{
    core::ops::Sub::sub(N::from_bits(a), N::from_bits(b)).to_bits()
}

/// `a * b` of std's `f32` (`<f32 as Mul>::mul`), written here by its name
/// `descartes::N`. The product is a
/// number exactly when `product_bits` is one, and is then that pattern.
#[verifier::external_body]
fn float_product(a: u32, b: u32) -> (r: u32)
    ensures
        is_nan_bits(r) == is_nan_bits(product_bits(a, b)),
        !is_nan_bits(r) ==> r == product_bits(a, b),
{
    core::ops::Mul::mul(N::from_bits(a), N::from_bits(b)).to_bits()
}

/// `a / b` of std's `f32` (`<f32 as Div>::div`), written here by its name
/// `descartes::N`. The quotient is a
/// number exactly when `quotient_bits` is one, and is then that pattern.
#[verifier::external_body]
fn float_quotient(a: u32, b: u32) -> (r: u32)
    ensures
        is_nan_bits(r) == is_nan_bits(quotient_bits(a, b)),
        !is_nan_bits(r) ==> r == quotient_bits(a, b),
{
    core::ops::Div::div(N::from_bits(a), N::from_bits(b)).to_bits()
}

/// Brings a computed pattern into the form the library keeps.
fn settle(bits: u32) -> (r: Number)
    ensures
        r.bits == settled_bits(bits),
{
    let computed = Number { bits };
    if computed.is_nan() {
        Number { bits: NAN_BITS }
    } else {
        computed
    }
}

impl Number {
    /// The number with the given bit pattern.
    pub fn from_bits(bits: u32) -> (r: Number)
        ensures
            r.bits == bits,
    {
        Number { bits }
    }

    /// The bit pattern.
    pub fn to_bits(self) -> (bits: u32)
        ensures
            bits == self.bits,
    {
        self.bits
    }

    /// Positive zero.
    pub fn zero() -> (r: Number)
        ensures
            r.bits == ZERO_BITS,
    {
        Number { bits: ZERO_BITS }
    }

    /// Whether the number is zero, of either sign.
    pub open spec fn is_zero_spec(self) -> bool {
        is_zero_bits(self.bits)
    }

    /// Whether the number is zero, of either sign.
    #[verifier::when_used_as_spec(is_zero_spec)]
    pub fn is_zero(self) -> (r: bool)
        ensures
            r == self.is_zero_spec(),
    {
        self.bits == ZERO_BITS || self.bits == NEGATIVE_ZERO_BITS
    }

    /// Whether the pattern is not a number.
    pub open spec fn is_nan_spec(self) -> bool {
        is_nan_bits(self.bits)
    }

    /// The pattern without its sign bit.
    pub fn magnitude(self) -> (r: u32)
        ensures
            r == magnitude_bits(self.bits),
    {
        if self.bits >= NEGATIVE_ZERO_BITS {
            self.bits - NEGATIVE_ZERO_BITS
        } else {
            self.bits
        }
    }

    /// Whether the pattern is not a number.
    #[verifier::when_used_as_spec(is_nan_spec)]
    pub fn is_nan(self) -> (r: bool)
        ensures
            r == self.is_nan_spec(),
    {
        self.magnitude() > INFINITY_BITS
    }

    /// The number as the library keeps what it computes: `self`, or the one
    /// pattern `NAN_BITS` where `self` is not a number.
    pub open spec fn settled_spec(self) -> Number {
        Number { bits: settled_bits(self.bits) }
    }

    /// The number as the library keeps what it computes.
    #[verifier::when_used_as_spec(settled_spec)]
    pub fn settled(self) -> (r: Number)
        ensures
            r == self.settled_spec(),
    {
        settle(self.bits)
    }

    /// Whether `self` and `other` are the same number.
    pub open spec fn same_value(self, other: Number) -> bool {
        same_value_bits(self.bits, other.bits)
    }

    /// The sum, rounded.
    pub open spec fn plus_spec(self, other: Number) -> Number {
        Number { bits: settled_bits(sum_bits(self.bits, other.bits)) }
    }

    /// The difference, rounded.
    pub open spec fn minus_spec(self, other: Number) -> Number {
        Number { bits: settled_bits(difference_bits(self.bits, other.bits)) }
    }

    /// The product, rounded.
    pub open spec fn times_spec(self, other: Number) -> Number {
        Number { bits: settled_bits(product_bits(self.bits, other.bits)) }
    }

    /// The quotient, rounded.
    pub open spec fn over_spec(self, other: Number) -> Number {
        Number { bits: settled_bits(quotient_bits(self.bits, other.bits)) }
    }

    /// The number with its sign turned.
    pub open spec fn negated_spec(self) -> Number {
        Number { bits: settled_bits(sign_turned_bits(self.bits)) }
    }

    /// Half the number.
    pub open spec fn halved_spec(self) -> Number {
        self.over_spec(Number { bits: TWO_BITS })
    }

    /// `self + other`. Adding a zero to a number leaves its value.
    #[verifier::when_used_as_spec(plus_spec)]
    pub fn plus(self, other: Number) -> (r: Number)
        ensures
            r == self.plus_spec(other),
            !self.is_nan() && other.is_zero() ==> r.same_value(self),
    {
        settle(float_sum(self.bits, other.bits))
    }

    /// `self - other`.
    #[verifier::when_used_as_spec(minus_spec)]
    pub fn minus(self, other: Number) -> (r: Number)
        ensures
            r == self.minus_spec(other),
    {
        settle(float_difference(self.bits, other.bits))
    }

    /// `self * other`.
    #[verifier::when_used_as_spec(times_spec)]
    pub fn times(self, other: Number) -> (r: Number)
        ensures
            r == self.times_spec(other),
    {
        settle(float_product(self.bits, other.bits))
    }

    /// `self / other`.
    #[verifier::when_used_as_spec(over_spec)]
    pub fn over(self, other: Number) -> (r: Number)
        ensures
            r == self.over_spec(other),
    {
        settle(float_quotient(self.bits, other.bits))
    }

    /// `-self`: the number with its sign bit turned.
    #[verifier::when_used_as_spec(negated_spec)]
    pub fn negated(self) -> (r: Number)
        ensures
            r == self.negated_spec(),
    {
        if self.is_nan() {
            Number { bits: NAN_BITS }
        } else if self.bits >= NEGATIVE_ZERO_BITS {
            Number { bits: self.bits - NEGATIVE_ZERO_BITS }
        } else {
            Number { bits: self.bits + NEGATIVE_ZERO_BITS }
        }
    }

    /// `self / 2`.
    #[verifier::when_used_as_spec(halved_spec)]
    pub fn halved(self) -> (r: Number)
        ensures
            r == self.halved_spec(),
    {
        self.over(Number { bits: TWO_BITS })
    }
}

} // verus!
