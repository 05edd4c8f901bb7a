//! Binary64 numbers by their bit patterns, and their order.

use vstd::arithmetic::power2::{lemma2_to64, lemma_pow2_adds, lemma_pow2_pos, pow2};
use vstd::bits::lemma_u64_shr_is_div;
use vstd::prelude::*;

verus! {

/// The sign bit of a binary64 pattern.
pub const SIGN_BIT: u64 = 0x8000_0000_0000_0000;

/// The pattern of positive infinity; every larger magnitude is not a number.
pub const INFINITY_BITS: u64 = 0x7FF0_0000_0000_0000;

/// The pattern of one.
pub const ONE_BITS: u64 = 0x3FF0_0000_0000_0000;

/// `2^52`: the bit that a normal number's fraction leaves unwritten.
pub const HIDDEN_BIT: u64 = 0x0010_0000_0000_0000;

/// The exponent field of the numbers from one up to two.
pub const EXPONENT_BIAS: u64 = 1023;

/// A binary64 number, held by its bit pattern.
///
/// Sign and magnitude make up the pattern, so two finite numbers are ordered
/// as their signed magnitudes are; the two zeros are equal, and a pattern that
/// is not a number is neither below nor above anything.
#[derive(Clone, Copy, Debug)]
pub struct Scalar {
    pub bits: u64,
}

impl Scalar {
    /// The pattern without its sign bit.
    pub open spec fn magnitude(self) -> int {
        if self.bits >= SIGN_BIT {
            self.bits - SIGN_BIT
        } else {
            self.bits as int
        }
    }

    /// Whether the sign bit is set.
    pub open spec fn is_negative(self) -> bool {
        self.bits >= SIGN_BIT
    }

    /// Whether the pattern is not a number.
    pub open spec fn is_nan(self) -> bool {
        self.magnitude() > INFINITY_BITS
    }

    /// The place of a number in the order: its magnitude, taken with its sign.
    pub open spec fn rank(self) -> int {
        if self.is_negative() {
            -self.magnitude()
        } else {
            self.magnitude()
        }
    }

    /// `self < other` as binary64 compares.
    pub open spec fn is_lt(self, other: Scalar) -> bool {
        !self.is_nan() && !other.is_nan() && self.rank() < other.rank()
    }

    /// `self <= other` as binary64 compares.
    pub open spec fn is_le(self, other: Scalar) -> bool {
        !self.is_nan() && !other.is_nan() && self.rank() <= other.rank()
    }

    /// The number with the opposite sign.
    pub open spec fn negated(self) -> Scalar {
        if self.bits >= SIGN_BIT {
            Scalar { bits: (self.bits - SIGN_BIT) as u64 }
        } else {
            Scalar { bits: (self.bits + SIGN_BIT) as u64 }
        }
    }

    /// The number without its sign.
    pub open spec fn absolute(self) -> Scalar {
        Scalar { bits: self.magnitude() as u64 }
    }

    /// The exponent field: the eleven bits below the sign.
    pub open spec fn exponent(self) -> int {
        self.magnitude() / (HIDDEN_BIT as int)
    }

    /// The fraction field: the low fifty-two bits.
    pub open spec fn fraction(self) -> int {
        self.magnitude() % (HIDDEN_BIT as int)
    }

    /// The number as a byte: cut toward zero, brought to the nearer of 0 and
    /// 255 where it lies outside them, and 0 where it is not a number.
    ///
    /// A number of exponent field `e`, from the bias up, is
    /// `(2^52 + fraction) / 2^(52 - (e - bias))`.
    pub open spec fn byte(self) -> int {
        if self.is_nan() || self.is_negative() || self.exponent() < EXPONENT_BIAS {
            0
        } else if self.exponent() >= EXPONENT_BIAS + 8 {
            255
        } else {
            (HIDDEN_BIT + self.fraction()) / (pow2(
                (EXPONENT_BIAS + 52 - self.exponent()) as nat,
            ) as int)
        }
    }

    /// The nearest whole number as an `i32`: the one farther from zero where
    /// two are equally near, the nearer end of the `i32` range where the
    /// number lies outside it, and 0 where it is not a number.
    ///
    /// A number of exponent field `e`, from one half up, doubled and cut, is
    /// `(2^52 + fraction) / 2^(51 - (e - bias))`; half of one more than that,
    /// cut again, is its magnitude's nearest whole number.
    pub open spec fn nearest_i32(self) -> int {
        if self.is_nan() || self.exponent() < EXPONENT_BIAS - 1 {
            0
        } else if self.exponent() >= EXPONENT_BIAS + 31 {
            if self.is_negative() {
                i32::MIN as int
            } else {
                i32::MAX as int
            }
        } else {
            let doubled = (HIDDEN_BIT + self.fraction()) / (pow2(
                (EXPONENT_BIAS + 51 - self.exponent()) as nat,
            ) as int);
            let whole = (doubled + 1) / 2;
            if self.is_negative() {
                -whole
            } else if whole > i32::MAX {
                i32::MAX as int
            } else {
                whole
            }
        }
    }

    /// The number with the given pattern.
    pub fn from_bits(bits: u64) -> (r: Scalar)
        ensures
            r.bits == bits,
    {
        Scalar { bits }
    }

    pub fn zero() -> (r: Scalar)
        ensures
            r.bits == 0,
    {
        Scalar { bits: 0 }
    }

    pub fn one() -> (r: Scalar)
        ensures
            r.bits == ONE_BITS,
    {
        Scalar { bits: ONE_BITS }
    }

    pub fn infinity() -> (r: Scalar)
        ensures
            r.bits == INFINITY_BITS,
    {
        Scalar { bits: INFINITY_BITS }
    }

    /// Whether the pattern stands for no number.
    pub fn is_not_a_number(self) -> (r: bool)
        ensures
            r == self.is_nan(),
    {
        self.abs().bits > INFINITY_BITS
    }

    /// `self < other`: false where either is not a number.
    pub fn lt(self, other: Scalar) -> (r: bool)
        ensures
            r == self.is_lt(other),
    {
        if self.is_not_a_number() || other.is_not_a_number() {
            return false;
        }
        let a: u64 = self.abs().bits;
        let b: u64 = other.abs().bits;
        if self.bits >= SIGN_BIT {
            if other.bits >= SIGN_BIT {
                b < a
            } else {
                a != 0 || b != 0
            }
        } else {
            other.bits < SIGN_BIT && a < b
        }
    }

    /// `self > other`: false where either is not a number.
    pub fn gt(self, other: Scalar) -> (r: bool)
        ensures
            r == other.is_lt(self),
    {
        other.lt(self)
    }

    /// `self <= other`: false where either is not a number.
    pub fn le(self, other: Scalar) -> (r: bool)
        ensures
            r == self.is_le(other),
    {
        if self.is_not_a_number() || other.is_not_a_number() {
            return false;
        }
        !other.lt(self)
    }

    /// `-self`: the sign bit flipped, also where the pattern is not a number.
    pub fn neg(self) -> (r: Scalar)
        ensures
            r == self.negated(),
    {
        if self.bits >= SIGN_BIT {
            Scalar { bits: self.bits - SIGN_BIT }
        } else {
            Scalar { bits: self.bits + SIGN_BIT }
        }
    }

    /// `|self|`: the sign bit cleared.
    pub fn abs(self) -> (r: Scalar)
        ensures
            r == self.absolute(),
    {
        if self.bits >= SIGN_BIT {
            Scalar { bits: self.bits - SIGN_BIT }
        } else {
            self
        }
    }

    /// The number cut to a byte, as a cast to `u8` cuts it.
    pub fn to_byte(self) -> (r: u8)
        ensures
            r == self.byte(),
    {
        if self.is_not_a_number() || self.bits >= SIGN_BIT {
            return 0;
        }
        let exponent: u64 = self.bits / HIDDEN_BIT;
        let fraction: u64 = self.bits % HIDDEN_BIT;
        if exponent < EXPONENT_BIAS {
            0
        } else if exponent >= EXPONENT_BIAS + 8 {
            255
        } else {
            let shift: u64 = EXPONENT_BIAS + 52 - exponent;
            let whole: u64 = (HIDDEN_BIT + fraction) >> shift;
            proof {
                lemma_u64_shr_is_div((HIDDEN_BIT + fraction) as u64, shift);
                lemma2_to64();
                lemma_pow2_adds(32, 13);
                lemma_pow2_adds(45, (shift - 45) as nat);
                lemma_pow2_pos((shift - 45) as nat);
                let divisor = pow2(shift as nat) as int;
                let dividend = (HIDDEN_BIT + fraction) as int;
                assert(divisor >= 0x2000_0000_0000) by (nonlinear_arith)
                    requires
                        divisor == 0x2000_0000_0000 * pow2((shift - 45) as nat),
                        pow2((shift - 45) as nat) >= 1,
                {
                }
                assert(dividend / divisor < 256) by (nonlinear_arith)
                    requires
                        0 <= dividend < 256 * 0x2000_0000_0000,
                        divisor >= 0x2000_0000_0000,
                {
                }
            }
            whole as u8
        }
    }

    /// The number rounded, half away from zero, and then cast to `i32`.
    pub fn round_to_i32(self) -> (r: i32)
        ensures
            r == self.nearest_i32(),
    {
        if self.is_not_a_number() {
            return 0;
        }
        let negative = self.bits >= SIGN_BIT;
        let magnitude: u64 = self.abs().bits;
        let exponent: u64 = magnitude / HIDDEN_BIT;
        let fraction: u64 = magnitude % HIDDEN_BIT;
        if exponent < EXPONENT_BIAS - 1 {
            0
        } else if exponent >= EXPONENT_BIAS + 31 {
            if negative {
                i32::MIN
            } else {
                i32::MAX
            }
        } else {
            let shift: u64 = EXPONENT_BIAS + 51 - exponent;
            let doubled: u64 = (HIDDEN_BIT + fraction) >> shift;
            proof {
                lemma_u64_shr_is_div((HIDDEN_BIT + fraction) as u64, shift);
                lemma2_to64();
                lemma_pow2_adds(21, (shift - 21) as nat);
                let divisor = pow2(shift as nat) as int;
                let dividend = (HIDDEN_BIT + fraction) as int;
                lemma_pow2_pos((shift - 21) as nat);
                assert(divisor >= 0x20_0000) by (nonlinear_arith)
                    requires
                        divisor == 0x20_0000 * pow2((shift - 21) as nat),
                        pow2((shift - 21) as nat) >= 1,
                {
                }
                assert(dividend / divisor < 0x1_0000_0000) by (nonlinear_arith)
                    requires
                        0 <= dividend < 0x1_0000_0000 * 0x20_0000,
                        divisor >= 0x20_0000,
                {
                }
            }
            let whole: u64 = (doubled + 1) / 2;
            if negative {
                (0 - (whole as i64)) as i32
            } else if whole > 0x7FFF_FFFF {
                i32::MAX
            } else {
                whole as i32
            }
        }
    }
}

} // verus!
