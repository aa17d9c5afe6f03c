//! Floating-point settings, held as their bits.
use crate::double;
use vstd::prelude::*;

verus! {

/// The bits of the double-precision infinity. Non-negative doubles are ordered as
/// their bits are.
pub const INFINITY_BITS: u64 = 0x7ff0_0000_0000_0000;

/// The bits of the double 1.
pub const ONE_BITS: u64 = 0x3ff0_0000_0000_0000;

/// The bits of the double 2.
pub const TWO_BITS: u64 = 0x4000_0000_0000_0000;

/// The weight of the sign bit.
pub const SIGN_BIT: u64 = 0x8000_0000_0000_0000;

/// A double-precision setting: its bits, and its shortest decimal text for
/// messages.
#[derive(Debug, Clone)]
pub struct Float {
    pub bits: u64,
    pub text: String,
}

impl Float {
    /// Neither infinite nor not-a-number.
    pub open spec fn spec_finite(self) -> bool {
        self.bits < INFINITY_BITS || SIGN_BIT <= self.bits < SIGN_BIT + INFINITY_BITS
    }

    /// Greater than zero; the infinity counts.
    pub open spec fn spec_positive(self) -> bool {
        0 < self.bits <= INFINITY_BITS
    }

    /// In the interval from 0, left out, to 1.
    pub open spec fn spec_in_unit(self) -> bool {
        0 < self.bits <= ONE_BITS
    }

    /// At least 1; the infinity counts.
    pub open spec fn spec_at_least_one(self) -> bool {
        ONE_BITS <= self.bits <= INFINITY_BITS
    }

    /// Zero, of either sign.
    pub open spec fn spec_zero(self) -> bool {
        self.bits == 0 || self.bits == SIGN_BIT
    }

    /// Whether the value is finite.
    pub fn is_finite(&self) -> (r: bool)
        ensures
            r == self.spec_finite(),
    {
        self.bits < INFINITY_BITS || (SIGN_BIT <= self.bits && self.bits - SIGN_BIT
            < INFINITY_BITS)
    }

    /// Whether the value is greater than zero.
    pub fn is_positive(&self) -> (r: bool)
        ensures
            r == self.spec_positive(),
    {
        0 < self.bits && self.bits <= INFINITY_BITS
    }

    /// Whether the value is greater than zero and at most 1.
    pub fn in_unit(&self) -> (r: bool)
        ensures
            r == self.spec_in_unit(),
    {
        0 < self.bits && self.bits <= ONE_BITS
    }

    /// Whether the value is at least 1.
    pub fn at_least_one(&self) -> (r: bool)
        ensures
            r == self.spec_at_least_one(),
    {
        ONE_BITS <= self.bits && self.bits <= INFINITY_BITS
    }

    /// Whether the value is zero.
    pub fn is_zero(&self) -> (r: bool)
        ensures
            r == self.spec_zero(),
    {
        self.bits == 0 || self.bits == SIGN_BIT
    }

    /// The reciprocal in double precision, rounded to a whole number and brought
    /// into the range of lengths.
    pub open spec fn spec_reciprocal(self) -> int {
        if self.bits == 0 {
            usize::MAX as int
        } else if self.bits <= ONE_BITS {
            if double::scale(self.bits) <= 116 && double::reciprocal_rounded(self.bits)
                <= usize::MAX {
                double::reciprocal_rounded(self.bits) as int
            } else {
                usize::MAX as int
            }
        } else if self.bits <= TWO_BITS {
            1
        } else {
            0
        }
    }

    /// The reciprocal as a whole number.
    pub fn reciprocal(&self) -> (r: usize)
        ensures
            r == self.spec_reciprocal(),
    {
        if self.bits == 0 {
            usize::MAX
        } else if self.bits <= ONE_BITS {
            double::round_reciprocal(self.bits)
        } else if self.bits <= TWO_BITS {
            1
        } else {
            0
        }
    }

    /// The whole part of the double product with a length, brought into the range of
    /// lengths; zero for a value that is negative or not a number.
    pub open spec fn spec_share(self, n: usize) -> int {
        if self.bits > INFINITY_BITS {
            0
        } else if double::product_floor(n as nat, self.bits) <= usize::MAX {
            double::product_floor(n as nat, self.bits) as int
        } else {
            usize::MAX as int
        }
    }

    /// The whole part of the product with a length.
    pub fn share_of(&self, n: usize) -> (r: usize)
        ensures
            r == self.spec_share(n),
    {
        if self.bits > INFINITY_BITS {
            0
        } else {
            double::floor_of_product(n, self.bits)
        }
    }
}

/// What the bits of a double say: its sign, its exponent and its fraction. Infinities
/// have the greatest exponent and no fraction; with a fraction it is no number.
pub proof fn law_bits_tell_the_kind_of_a_number(x: Float, sign: int, exponent: int, fraction: int)
    requires
        0 <= sign <= 1,
        0 <= exponent <= 2047,
        0 <= fraction < 0x10_0000_0000_0000,
        x.bits == sign * 0x8000_0000_0000_0000 + exponent * 0x10_0000_0000_0000 + fraction,
    ensures
        x.spec_finite() <==> exponent < 2047,
        x.spec_zero() <==> exponent == 0 && fraction == 0,
        x.spec_positive() <==> {
            &&& sign == 0
            &&& exponent > 0 || fraction > 0
            &&& exponent < 2047 || fraction == 0
        },
        x.spec_in_unit() <==> x.spec_positive() && (exponent < 1023 || exponent == 1023 && fraction
            == 0),
        x.spec_at_least_one() <==> x.spec_positive() && exponent >= 1023,
{
}

/// The reciprocal of a value above 1 is 1 up to the value 2 and 0 beyond it; negative
/// values and what is no number have 0, and zero has the greatest length.
pub proof fn law_reciprocal_of_large_values_is_small(x: Float, sign: int, exponent: int, fraction: int)
    requires
        0 <= sign <= 1,
        0 <= exponent <= 2047,
        0 <= fraction < 0x10_0000_0000_0000,
        x.bits == sign * 0x8000_0000_0000_0000 + exponent * 0x10_0000_0000_0000 + fraction,
    ensures
        sign == 1 ==> x.spec_reciprocal() == 0,
        sign == 0 && exponent == 1023 && fraction > 0 ==> x.spec_reciprocal() == 1,
        sign == 0 && exponent == 1024 && fraction == 0 ==> x.spec_reciprocal() == 1,
        sign == 0 && (exponent > 1024 || exponent == 1024 && fraction > 0) ==> x.spec_reciprocal()
            == 0,
        x.bits == 0 ==> x.spec_reciprocal() == usize::MAX,
        x.spec_in_unit() ==> x.spec_reciprocal() == usize::MAX || x.spec_reciprocal()
            == double::reciprocal_rounded(x.bits),
{
}

/// A share is the whole part of a product, as far as it is a length; a value that is
/// negative or no number has no share.
pub proof fn law_share_is_the_whole_part(x: Float, n: usize)
    ensures
        x.bits > 0x7ff0_0000_0000_0000 ==> x.spec_share(n) == 0,
        x.bits <= 0x7ff0_0000_0000_0000 && double::product_floor(n as nat, x.bits) <= usize::MAX
            ==> x.spec_share(n) == double::product_floor(n as nat, x.bits),
        x.bits <= 0x7ff0_0000_0000_0000 && double::product_floor(n as nat, x.bits) > usize::MAX
            ==> x.spec_share(n) == usize::MAX,
{
}

} // verus!
