//! Real numbers as IEEE-754 binary64 bit patterns, and the arithmetic
//! service through which every computation on them is made.
//!
//! The library itself only inspects the bits: it flips or clears the sign,
//! compares two numbers, and converts between numbers and integers. Sums,
//! products, powers and the transcendental functions are asked of a
//! caller-supplied function, one [`Operation`] at a time.

use vstd::prelude::*;

verus! {

/// The sign bit of a binary64 number.
pub const SIGN_BIT: u64 = 0x8000_0000_0000_0000;

/// The bits of positive infinity; every larger magnitude is a NaN.
pub const INFINITY_BITS: u64 = 0x7FF0_0000_0000_0000;

/// The bits of `0.0`.
pub const ZERO_BITS: u64 = 0;

/// The bits of `1.0`.
pub const ONE_BITS: u64 = 0x3FF0_0000_0000_0000;

/// The bits of `-1.0`.
pub const MINUS_ONE_BITS: u64 = 0xBFF0_0000_0000_0000;

/// The bits of the full turn, two times pi.
pub const TAU_BITS: u64 = 0x4019_21FB_5444_2D18;

/// The bits of `1e-6`, the tolerance of the equality operators.
pub const TOLERANCE_BITS: u64 = 0x3EB0_C6F7_A0B5_ED8D;

/// The bits of `2147483647.0`, the largest amplitude of a 32-bit sample.
pub const AMPLITUDE_BITS: u64 = 0x41DF_FFFF_FFC0_0000;

/// The mask of the fraction field, the low 52 bits.
pub const FRACTION_MASK: u64 = 0x000F_FFFF_FFFF_FFFF;

/// The bit that a normal number has in front of its fraction.
pub const HIDDEN_BIT: u64 = 0x0010_0000_0000_0000;

/// The exponent field of the numbers from one up to two.
pub const EXPONENT_BIAS: u64 = 1023;

/// The exponent field of the numbers whose significand is their value.
pub const EXPONENT_OF_UNIT: u64 = 1075;

/// The least exponent field of the numbers that no `i64` holds.
pub const EXPONENT_TOO_LARGE: u64 = 1086;

/// A binary64 number, held by its bit pattern.
#[derive(Clone, Copy, Debug, PartialEq, Eq, Structural, Hash)]
pub struct Real {
    pub bits: u64,
}

impl Real {
    /// The number with this bit pattern.
    pub open spec fn of_bits(bits: u64) -> Real {
        Real { bits }
    }

    /// The pattern without its sign bit.
    pub open spec fn magnitude_bits(self) -> u64 {
        if self.bits >= SIGN_BIT {
            (self.bits - SIGN_BIT) as u64
        } else {
            self.bits
        }
    }

    /// The sign bit is set (this holds of `-0.0` and of some NaNs too).
    pub open spec fn sign_negative(self) -> bool {
        self.bits >= SIGN_BIT
    }

    pub open spec fn nan(self) -> bool {
        self.magnitude_bits() > INFINITY_BITS
    }

    /// An integer that orders the numbers which are not NaN as their values
    /// are ordered; both zeros get the key zero.
    pub open spec fn order_key(self) -> int {
        if self.sign_negative() {
            -(self.magnitude_bits() as int)
        } else {
            self.magnitude_bits() as int
        }
    }

    /// `self < other` as binary64 numbers: false when either is a NaN.
    pub open spec fn less(self, other: Real) -> bool {
        !self.nan() && !other.nan() && self.order_key() < other.order_key()
    }

    /// `self <= other` as binary64 numbers: false when either is a NaN.
    pub open spec fn less_or_equal(self, other: Real) -> bool {
        !self.nan() && !other.nan() && self.order_key() <= other.order_key()
    }

    /// The number with the opposite sign bit.
    pub open spec fn negated(self) -> Real {
        if self.bits >= SIGN_BIT {
            Real { bits: (self.bits - SIGN_BIT) as u64 }
        } else {
            Real { bits: (self.bits + SIGN_BIT) as u64 }
        }
    }

    /// The number with the sign bit cleared.
    pub open spec fn absolute(self) -> Real {
        Real { bits: self.magnitude_bits() }
    }

    /// The exponent field of the pattern.
    pub open spec fn exponent_field(self) -> u64 {
        self.magnitude_bits() >> 52
    }

    /// The significand of a normal number: the fraction field behind the
    /// hidden bit.
    pub open spec fn significand(self) -> u64 {
        (self.magnitude_bits() & FRACTION_MASK) | HIDDEN_BIT
    }

    /// The integer part of the absolute value, for a number that is at
    /// least one and less than two to the power 63.
    pub open spec fn whole_magnitude(self) -> u64 {
        if self.exponent_field() >= EXPONENT_OF_UNIT {
            self.significand() << ((self.exponent_field() - EXPONENT_OF_UNIT) as u64)
        } else {
            self.significand() >> ((EXPONENT_OF_UNIT - self.exponent_field()) as u64)
        }
    }

    /// The number converted to a signed 64-bit integer: its value truncated
    /// toward zero, the nearest bound where the value is out of range, and
    /// zero for a NaN.
    pub open spec fn truncated(self) -> int {
        if self.nan() {
            0
        } else if self.exponent_field() < EXPONENT_BIAS {
            0
        } else if self.exponent_field() >= EXPONENT_TOO_LARGE {
            if self.sign_negative() {
                i64::MIN as int
            } else {
                i64::MAX as int
            }
        } else if self.sign_negative() {
            -(self.whole_magnitude() as int)
        } else {
            self.whole_magnitude() as int
        }
    }

    /// The value of the number is an integer.
    pub open spec fn integral(self) -> bool {
        let e = self.exponent_field();
        let m = self.significand();
        !self.nan() && e < 2047 && (self.magnitude_bits() == 0 || e >= EXPONENT_OF_UNIT || (e >= EXPONENT_BIAS && (m
            >> ((EXPONENT_OF_UNIT - e) as u64)) << ((EXPONENT_OF_UNIT - e) as u64) == m))
    }

    /// The number converted to a signed 32-bit integer: truncated toward
    /// zero and held to the bounds of the type.
    pub open spec fn truncated_to_i32(self) -> int {
        if self.truncated() > i32::MAX {
            i32::MAX as int
        } else if self.truncated() < i32::MIN {
            i32::MIN as int
        } else {
            self.truncated()
        }
    }

    /// The place of the highest bit that is set in `n`, which is not zero,
    /// searched from place `k` down.
    pub open spec fn highest_bit(n: u32, k: nat) -> nat
        decreases k,
    {
        if k == 0 || (n as u64) >> (k as u64) != 0 {
            k
        } else {
            Self::highest_bit(n, (k - 1) as nat)
        }
    }

    /// The number whose value is the integer `n`.
    pub open spec fn of_u32(n: u32) -> Real {
        if n == 0 {
            Real { bits: 0 }
        } else {
            let k = Self::highest_bit(n, 31) as u64;
            Real {
                bits: ((EXPONENT_BIAS + k) as u64) << 52 | ((n as u64) << ((52 - k) as u64)) & FRACTION_MASK,
            }
        }
    }

    pub fn from_bits(bits: u64) -> (result: Real)
        ensures
            result == Real::of_bits(bits),
    {
        Real { bits }
    }

    pub fn to_bits(self) -> (result: u64)
        ensures
            result == self.bits,
    {
        self.bits
    }

    pub fn zero() -> (result: Real)
        ensures
            result == Real::of_bits(ZERO_BITS),
    {
        Real { bits: ZERO_BITS }
    }

    pub fn one() -> (result: Real)
        ensures
            result == Real::of_bits(ONE_BITS),
    {
        Real { bits: ONE_BITS }
    }

    pub fn minus_one() -> (result: Real)
        ensures
            result == Real::of_bits(MINUS_ONE_BITS),
    {
        Real { bits: MINUS_ONE_BITS }
    }

    pub fn tau() -> (result: Real)
        ensures
            result == Real::of_bits(TAU_BITS),
    {
        Real { bits: TAU_BITS }
    }

    pub fn tolerance() -> (result: Real)
        ensures
            result == Real::of_bits(TOLERANCE_BITS),
    {
        Real { bits: TOLERANCE_BITS }
    }

    fn magnitude(self) -> (result: u64)
        ensures
            result == self.magnitude_bits(),
    {
        if self.bits >= SIGN_BIT {
            self.bits - SIGN_BIT
        } else {
            self.bits
        }
    }

    pub fn is_nan(self) -> (result: bool)
        ensures
            result == self.nan(),
    {
        self.magnitude() > INFINITY_BITS
    }

    pub fn negate(self) -> (result: Real)
        ensures
            result == self.negated(),
    {
        if self.bits >= SIGN_BIT {
            Real { bits: self.bits - SIGN_BIT }
        } else {
            Real { bits: self.bits + SIGN_BIT }
        }
    }

    pub fn abs(self) -> (result: Real)
        ensures
            result == self.absolute(),
    {
        Real { bits: self.magnitude() }
    }

    pub fn less_than(self, other: Real) -> (result: bool)
        ensures
            result == self.less(other),
    {
        if self.is_nan() || other.is_nan() {
            false
        } else if self.bits >= SIGN_BIT {
            if other.bits >= SIGN_BIT {
                self.magnitude() > other.magnitude()
            } else {
                self.magnitude() > 0 || other.magnitude() > 0
            }
        } else {
            other.bits < SIGN_BIT && self.magnitude() < other.magnitude()
        }
    }

    pub fn greater_than(self, other: Real) -> (result: bool)
        ensures
            result == other.less(self),
    {
        other.less_than(self)
    }

    pub fn at_most(self, other: Real) -> (result: bool)
        ensures
            result == self.less_or_equal(other),
    {
        if self.is_nan() || other.is_nan() {
            false
        } else if self.bits >= SIGN_BIT {
            if other.bits >= SIGN_BIT {
                self.magnitude() >= other.magnitude()
            } else {
                true
            }
        } else if other.bits >= SIGN_BIT {
            self.magnitude() == 0 && other.magnitude() == 0
        } else {
            self.magnitude() <= other.magnitude()
        }
    }
}

impl Real {
    /// The number whose value is the integer `n`; the conversion is exact.
    pub fn from_u32(n: u32) -> (result: Real)
        ensures
            result == Real::of_u32(n),
            result.integral(),
            !result.sign_negative(),
            result.truncated() == n,
    {
        if n == 0 {
            let result = Real { bits: 0 };
            assert(result.exponent_field() == 0) by {
                assert(0u64 >> 52 == 0u64) by (bit_vector);
            }
            return result;
        }
        let wide = n as u64;
        let mut k: u64 = 31;
        while k > 0 && wide >> k == 0
            invariant
                k <= 31,
                wide == n,
                Real::highest_bit(n, 31) == Real::highest_bit(n, k as nat),
                k < 31 ==> wide >> ((k + 1) as u64) == 0,
            decreases k,
        {
            k -= 1;
        }
        assert(Real::highest_bit(n, 31) == k);
        let shift = 52 - k;
        let bits = (EXPONENT_BIAS + k) << 52 | (wide << shift) & FRACTION_MASK;
        let result = Real { bits };
        proof {
            let e = (EXPONENT_BIAS + k) as u64;
            let m = wide << shift;
            assert(wide >> k == 1) by (bit_vector)
                requires
                    wide != 0,
                    k <= 31,
                    wide < 0x1_0000_0000u64,
                    k == 31 || wide >> ((k + 1) as u64) == 0,
                    k == 0 || wide >> k != 0,
            ;
            assert(bits < 0x8000_0000_0000_0000u64 && bits >> 52 == e && (bits & 0x000F_FFFF_FFFF_FFFFu64)
                | 0x0010_0000_0000_0000u64 == m && m >> shift == wide && (m >> shift) << shift == m && bits != 0)
                by (bit_vector)
                requires
                    wide >> k == 1,
                    k <= 31,
                    shift == 52 - k,
                    e == 1023 + k,
                    m == wide << shift,
                    bits == e << 52 | m & 0x000F_FFFF_FFFF_FFFFu64,
            ;
            assert(result.magnitude_bits() == bits);
            assert(result.exponent_field() == e);
            assert(result.significand() == m);
            assert(bits <= INFINITY_BITS) by (bit_vector)
                requires
                    bits >> 52 == e,
                    e <= 1054,
            ;
            assert(EXPONENT_OF_UNIT - e == shift);
        }
        result
    }

    /// The number as a signed 64-bit integer, as the conversion of the
    /// machine gives it: truncated toward zero, held to the bounds of the
    /// type, zero for a NaN.
    pub fn truncate(self) -> (result: i64)
        ensures
            result == self.truncated(),
    {
        if self.is_nan() {
            return 0;
        }
        let magnitude = self.magnitude();
        let e = magnitude >> 52;
        assert(e <= 2047) by (bit_vector)
            requires
                e == magnitude >> 52,
                magnitude < 0x8000_0000_0000_0000u64,
        ;
        if e < EXPONENT_BIAS {
            return 0;
        }
        let negative = self.bits >= SIGN_BIT;
        if e >= EXPONENT_TOO_LARGE {
            return if negative {
                i64::MIN
            } else {
                i64::MAX
            };
        }
        let m = (magnitude & FRACTION_MASK) | HIDDEN_BIT;
        let whole = if e >= EXPONENT_OF_UNIT {
            m << (e - EXPONENT_OF_UNIT)
        } else {
            m >> (EXPONENT_OF_UNIT - e)
        };
        assert(whole < 0x8000_0000_0000_0000u64) by (bit_vector)
            requires
                m == (magnitude & 0x000F_FFFF_FFFF_FFFFu64) | 0x0010_0000_0000_0000u64,
                1023 <= e < 1086,
                whole == if e >= 1075 {
                    m << ((e - 1075) as u64)
                } else {
                    m >> ((1075 - e) as u64)
                },
        ;
        if negative {
            -(whole as i64)
        } else {
            whole as i64
        }
    }

    /// The number as a signed 32-bit integer: truncated toward zero and held
    /// to the bounds of the type, zero for a NaN.
    pub fn truncate_to_i32(self) -> (result: i32)
        ensures
            result == self.truncated_to_i32(),
    {
        let wide = self.truncate();
        if wide > i32::MAX as i64 {
            i32::MAX
        } else if wide < i32::MIN as i64 {
            i32::MIN
        } else {
            wide as i32
        }
    }

    pub fn amplitude() -> (result: Real)
        ensures
            result == Real::of_bits(AMPLITUDE_BITS),
    {
        Real { bits: AMPLITUDE_BITS }
    }
}

/// Negating twice gives the number back, bit for bit.
pub proof fn lemma_negate_twice(x: Real)
    ensures
        x.negated().negated() == x,
{
}

/// No number is less than itself, and `less` is transitive.
pub proof fn lemma_less_is_strict_order(x: Real, y: Real, z: Real)
    ensures
        !x.less(x),
        x.less(y) && y.less(z) ==> x.less(z),
        x.less(y) ==> !y.less(x),
{
}

/// A real function of one argument that the arithmetic service knows.
#[derive(Clone, Copy, Debug, PartialEq, Eq, Structural, Hash)]
pub enum UnaryFunction {
    Sin,
    Cos,
    Tan,
    Ln,
    Log10,
    Exp,
}

/// A real function of two arguments that the arithmetic service knows.
#[derive(Clone, Copy, Debug, PartialEq, Eq, Structural, Hash)]
pub enum BinaryFunction {
    Add,
    Sub,
    Mul,
    Div,
    Pow,
    Max,
    Min,
}

/// One request to the arithmetic service.
#[derive(Clone, Copy, Debug, PartialEq, Eq, Structural, Hash)]
pub enum Operation {
    /// The function applied to the number.
    Unary(UnaryFunction, Real),
    /// The function applied to the two numbers, in this order.
    Binary(BinaryFunction, Real, Real),
    /// A fresh pseudo-random number, uniform in the unit interval. The
    /// number tells how many were asked for before it in the same tick of a
    /// generator, so that the order of the requests can be told.
    Random(u64),
}

/// The service accepts every request.
pub open spec fn serves_all<F: Fn(Operation) -> Real>(ops: &F) -> bool {
    forall|operation: Operation| call_requires(*ops, (operation,))
}

/// `answer` is a possible answer of the service to `operation`.
pub open spec fn answers<F: Fn(Operation) -> Real>(ops: &F, operation: Operation, answer: Real) -> bool {
    call_ensures(*ops, (operation,), answer)
}

/// Asks the service for a function of one argument.
pub fn unary<F: Fn(Operation) -> Real>(ops: &F, function: UnaryFunction, x: Real) -> (result: Real)
    requires
        serves_all(ops),
    ensures
        answers(ops, Operation::Unary(function, x), result),
{
    ops(Operation::Unary(function, x))
}

/// Asks the service for a function of two arguments.
pub fn binary<F: Fn(Operation) -> Real>(ops: &F, function: BinaryFunction, x: Real, y: Real) -> (result: Real)
    requires
        serves_all(ops),
    ensures
        answers(ops, Operation::Binary(function, x, y), result),
{
    ops(Operation::Binary(function, x, y))
}

/// Asks the service for a random number, the one of this serial number.
pub fn random<F: Fn(Operation) -> Real>(ops: &F, serial: u64) -> (result: Real)
    requires
        serves_all(ops),
    ensures
        answers(ops, Operation::Random(serial), result),
{
    ops(Operation::Random(serial))
}

} // verus!
