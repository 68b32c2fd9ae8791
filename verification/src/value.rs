use vstd::prelude::*;

verus! {

/// The bit that holds the sign of a binary64 number.
pub const SIGN_BIT: u64 = 0x8000_0000_0000_0000;

/// The bit pattern of positive infinity; a larger magnitude is not a number.
pub const INFINITY_BITS: u64 = 0x7FF0_0000_0000_0000;

/// The bit pattern of `1.0`.
pub const ONE_BITS: u64 = 0x3FF0_0000_0000_0000;

/// The bit pattern of `0.5`.
pub const HALF_BITS: u64 = 0x3FE0_0000_0000_0000;

/// The bit pattern of `-0.5`.
pub const MINUS_HALF_BITS: u64 = 0xBFE0_0000_0000_0000;

/// A real number of the value table, held as the bit pattern of an IEEE 754
/// binary64 number.
///
/// The library stores, copies and compares such numbers; it never does
/// arithmetic on them. Two values are `==` where their bit patterns are the
/// same, which is finer than the order: `0.0` and `-0.0` differ.
#[derive(PartialEq, Eq, Structural, Clone, Copy, Hash, Debug)]
pub struct Value {
    pub bits: u64,
}

impl Value {
    /// The bit pattern without its sign.
    pub open spec fn magnitude(self) -> int {
        if self.bits >= SIGN_BIT {
            self.bits - SIGN_BIT
        } else {
            self.bits as int
        }
    }

    /// The pattern stands for no number.
    pub open spec fn is_nan(self) -> bool {
        self.magnitude() > INFINITY_BITS
    }

    /// The place of the number on the line: larger numbers have larger ranks,
    /// and both zeros have rank 0.
    pub open spec fn rank(self) -> int {
        if self.bits >= SIGN_BIT {
            -self.magnitude()
        } else {
            self.magnitude()
        }
    }

    /// The number is zero, of either sign.
    pub open spec fn is_zero(self) -> bool {
        self.magnitude() == 0
    }

    /// The number is greater than `other`; false where either is no number.
    pub open spec fn exceeds(self, other: Value) -> bool {
        !self.is_nan() && !other.is_nan() && self.rank() > other.rank()
    }

    /// The number is less than or equal to `other`; false where either is no number.
    pub open spec fn within(self, other: Value) -> bool {
        !self.is_nan() && !other.is_nan() && self.rank() <= other.rank()
    }

    pub fn from_bits(bits: u64) -> (value: Value)
        ensures
            value.bits == bits,
    {
        Value { bits }
    }

    pub fn to_bits(self) -> (bits: u64)
        ensures
            bits == self.bits,
    {
        self.bits
    }

    /// The number `0.0`.
    pub fn zero() -> (value: Value)
        ensures
            value.bits == 0,
            value.is_zero(),
            !value.is_nan(),
    {
        Value { bits: 0 }
    }

    fn magnitude_bits(self) -> (m: u64)
        ensures
            m == self.magnitude(),
            m < SIGN_BIT,
    {
        if self.bits >= SIGN_BIT {
            self.bits - SIGN_BIT
        } else {
            self.bits
        }
    }

    fn rank_of(self) -> (r: i64)
        ensures
            r == self.rank(),
    {
        let m = self.magnitude_bits() as i64;
        if self.bits >= SIGN_BIT {
            -m
        } else {
            m
        }
    }

    /// Whether the pattern stands for no number.
    pub fn nan(self) -> (b: bool)
        ensures
            b == self.is_nan(),
    {
        self.magnitude_bits() > INFINITY_BITS
    }

    /// Whether the number equals zero.
    pub fn eq_zero(self) -> (b: bool)
        ensures
            b == self.is_zero(),
    {
        self.magnitude_bits() == 0
    }

    /// Whether the number is greater than `other`.
    pub fn gt(self, other: Value) -> (b: bool)
        ensures
            b == self.exceeds(other),
    {
        !self.nan() && !other.nan() && self.rank_of() > other.rank_of()
    }

    /// Whether the number is less than or equal to `other`.
    pub fn le(self, other: Value) -> (b: bool)
        ensures
            b == self.within(other),
    {
        !self.nan() && !other.nan() && self.rank_of() <= other.rank_of()
    }
}

/// Of two numbers, at most one exceeds the other, and one that exceeds a
/// second that exceeds a third exceeds the third.
pub proof fn lemma_exceeds_is_strict_order(a: Value, b: Value, c: Value)
    ensures
        !a.exceeds(a),
        a.exceeds(b) ==> !b.exceeds(a),
        a.exceeds(b) && b.exceeds(c) ==> a.exceeds(c),
        !a.is_nan() && !b.is_nan() ==> (a.exceeds(b) || a.within(b)),
        !(a.exceeds(b) && a.within(b)),
{
}

} // verus!
