//! Samples and their ordering.
//!
//! A sample is carried as the bit pattern of an IEEE-754 binary32 number. The
//! library stores, selects and orders samples itself; every operation that
//! rounds is left to the arithmetic kernel that the caller supplies.
use vstd::arithmetic::power2::{lemma_pow2_adds, lemma_pow2_pos, lemma2_to64, pow2};
use vstd::prelude::*;

verus! {

/// One sample: the 32 bits of a binary32 number, sign bit first.
#[derive(Clone, Copy, Debug)]
pub struct Sample(pub u32);

/// Bit of the sign.
pub const SIGN_BIT: u32 = 0x8000_0000;

/// Bits of 0.0, positive zero.
pub const ZERO: u32 = 0;

/// Bits of 1.0.
pub const ONE: u32 = 0x3f80_0000;

/// Bits of -1.0.
pub const MINUS_ONE: u32 = 0xbf80_0000;

/// Bits of 2.0.
pub const TWO: u32 = 0x4000_0000;

/// Bits of 4.0.
pub const FOUR: u32 = 0x4080_0000;

/// Bits of 0.5.
pub const HALF: u32 = 0x3f00_0000;

/// Bits of 0.25.
pub const QUARTER: u32 = 0x3e80_0000;

/// Bits of 0.75.
pub const THREE_QUARTERS: u32 = 0x3f40_0000;

/// Bits of the binary32 number nearest to twice pi, one full turn in radians.
pub const FULL_TURN: u32 = 0x40c9_0fdb;

/// Magnitude bits of positive infinity; every larger magnitude is a NaN.
pub const INFINITY_BITS: u32 = 0x7f80_0000;

impl Sample {
    /// The bits without the sign.
    pub open spec fn magnitude(self) -> u32 {
        if self.0 >= SIGN_BIT {
            (self.0 - SIGN_BIT) as u32
        } else {
            self.0
        }
    }

    /// Not a number: such a sample is unordered against every sample.
    pub open spec fn is_nan(self) -> bool {
        self.magnitude() > INFINITY_BITS
    }

    /// Place on the number line, in units of the bit pattern. Both zeros
    /// stand at 0, so they rank equal.
    pub open spec fn rank(self) -> int {
        if self.0 >= SIGN_BIT {
            -(self.magnitude() as int)
        } else {
            self.magnitude() as int
        }
    }

    /// `self < other` as binary32 numbers.
    pub open spec fn less(self, other: Sample) -> bool {
        !self.is_nan() && !other.is_nan() && self.rank() < other.rank()
    }

    /// `self <= other` as binary32 numbers.
    pub open spec fn less_eq(self, other: Sample) -> bool {
        !self.is_nan() && !other.is_nan() && self.rank() <= other.rank()
    }

    /// `self > other` as binary32 numbers.
    pub open spec fn greater(self, other: Sample) -> bool {
        other.less(self)
    }

    /// `self >= other` as binary32 numbers.
    pub open spec fn greater_eq(self, other: Sample) -> bool {
        other.less_eq(self)
    }

    /// The sample with the sign bit cleared.
    pub open spec fn absolute(self) -> Sample {
        Sample(self.magnitude())
    }

    fn place(self) -> (r: i64)
        ensures
            r == self.rank(),
    {
        if self.0 >= SIGN_BIT {
            let m: u32 = self.0 - SIGN_BIT;
            -(m as i64)
        } else {
            self.0 as i64
        }
    }

    /// Whether the sample is a NaN.
    pub fn nan(self) -> (r: bool)
        ensures
            r == self.is_nan(),
    {
        let m: u32 = if self.0 >= SIGN_BIT {
            self.0 - SIGN_BIT
        } else {
            self.0
        };
        m > INFINITY_BITS
    }

    /// `self < other`; false when either is a NaN.
    pub fn lt(self, other: Sample) -> (r: bool)
        ensures
            r == self.less(other),
    {
        !self.nan() && !other.nan() && self.place() < other.place()
    }

    /// `self <= other`; false when either is a NaN.
    pub fn le(self, other: Sample) -> (r: bool)
        ensures
            r == self.less_eq(other),
    {
        !self.nan() && !other.nan() && self.place() <= other.place()
    }

    /// `self > other`; false when either is a NaN.
    pub fn gt(self, other: Sample) -> (r: bool)
        ensures
            r == self.greater(other),
    {
        other.lt(self)
    }

    /// `self >= other`; false when either is a NaN.
    pub fn ge(self, other: Sample) -> (r: bool)
        ensures
            r == self.greater_eq(other),
    {
        other.le(self)
    }

    /// The absolute value: the same bits with the sign cleared.
    pub fn abs(self) -> (r: Sample)
        ensures
            r == self.absolute(),
    {
        if self.0 >= SIGN_BIT {
            Sample(self.0 - SIGN_BIT)
        } else {
            self
        }
    }
}

/// The exponent field at which a sample counts in steps of one.
pub const UNIT_EXPONENT: u32 = 150;

impl Sample {
    /// The exponent field: the bits between the sign and the fraction.
    pub open spec fn exponent(self) -> nat {
        (self.magnitude() / 0x80_0000) as nat
    }

    /// The significand of a normal number: the fraction under its leading
    /// one.
    pub open spec fn significand(self) -> nat {
        (0x80_0000 + self.magnitude() % 0x80_0000) as nat
    }

    /// The whole part of the sample as a count: 0 for a NaN and for what is
    /// below 1, the largest count for what is too large.
    pub open spec fn count(self) -> usize {
        if self.0 >= SIGN_BIT || self.is_nan() || self.exponent() < 127 {
            0
        } else if self.exponent() >= UNIT_EXPONENT {
            let scaled = self.significand() * pow2((self.exponent() - UNIT_EXPONENT) as nat);
            if self.exponent() == 255 || scaled > usize::MAX {
                usize::MAX
            } else {
                scaled as usize
            }
        } else {
            (self.significand() / pow2((UNIT_EXPONENT - self.exponent()) as nat)) as usize
        }
    }

    /// The sample as a count of whole things, cut off towards zero.
    pub fn to_count(self) -> (n: usize)
        ensures
            n == self.count(),
    {
        if self.0 >= SIGN_BIT || self.nan() {
            return 0;
        }
        let exponent: u32 = self.0 / 0x80_0000;
        let significand: u32 = 0x80_0000 + self.0 % 0x80_0000;
        if exponent < 127 {
            return 0;
        }
        if exponent == 255 {
            return usize::MAX;
        }
        let mut n: usize = significand as usize;
        if exponent >= UNIT_EXPONENT {
            let mut i: u32 = UNIT_EXPONENT;
            proof {
                lemma2_to64();
                assert(pow2((i - UNIT_EXPONENT) as nat) == 1);
                assert(n == significand);
                assert(exponent == self.exponent());
                assert(significand == self.significand());
            }
            while i < exponent
                invariant
                    UNIT_EXPONENT <= i <= exponent,
                    exponent < 255,
                    significand >= 0x80_0000,
                    exponent == self.exponent(),
                    significand == self.significand(),
                    self.0 < SIGN_BIT,
                    !self.is_nan(),
                    n == significand * pow2((i - UNIT_EXPONENT) as nat),
                decreases exponent - i,
            {
                proof {
                    lemma_pow2_adds((i - UNIT_EXPONENT) as nat, 1);
                    lemma2_to64();
                    lemma_pow2_adds((i + 1 - UNIT_EXPONENT) as nat, (exponent - i - 1) as nat);
                    lemma_pow2_pos((exponent - i - 1) as nat);
                    assert(significand * pow2((i + 1 - UNIT_EXPONENT) as nat) == 2 * n)
                        by (nonlinear_arith)
                        requires
                            n == significand * pow2((i - UNIT_EXPONENT) as nat),
                            pow2((i + 1 - UNIT_EXPONENT) as nat) == pow2(
                                (i - UNIT_EXPONENT) as nat,
                            ) * 2,
                    ;
                    assert(significand * pow2((exponent - UNIT_EXPONENT) as nat) >= 2 * n)
                        by (nonlinear_arith)
                        requires
                            2 * n == significand * pow2((i + 1 - UNIT_EXPONENT) as nat),
                            pow2((exponent - UNIT_EXPONENT) as nat) == pow2(
                                (i + 1 - UNIT_EXPONENT) as nat,
                            ) * pow2((exponent - i - 1) as nat),
                            pow2((exponent - i - 1) as nat) >= 1,
                            significand >= 0,
                            pow2((i + 1 - UNIT_EXPONENT) as nat) >= 0,
                    ;
                }
                if n > usize::MAX - n {
                    return usize::MAX;
                }
                n = n * 2;
                i = i + 1;
            }
            n
        } else {
            let mut i: u32 = exponent;
            proof {
                lemma2_to64();
                assert(pow2((i - exponent) as nat) == 1);
                assert(n == significand);
                assert(exponent == self.exponent());
                assert(significand == self.significand());
            }
            while i < UNIT_EXPONENT
                invariant
                    exponent <= i <= UNIT_EXPONENT,
                    n == significand as nat / pow2((i - exponent) as nat),
                decreases UNIT_EXPONENT - i,
            {
                proof {
                    lemma_pow2_adds((i - exponent) as nat, 1);
                    lemma2_to64();
                    lemma_pow2_pos((i - exponent) as nat);
                    vstd::arithmetic::div_mod::lemma_div_denominator(
                        significand as int,
                        pow2((i - exponent) as nat) as int,
                        2,
                    );
                }
                n = n / 2;
                i = i + 1;
            }
            n
        }
    }
}

} // verus!
