//! Double-precision readings, held as their IEEE 754 bit patterns.
//!
//! Timestamps and measured values reach this library as binary64 numbers.
//! The library never does arithmetic on them: it only asks whether a number
//! is finite and how two numbers are ordered. Both questions are answered
//! on the encoding, and the answers are proved against the number that the
//! encoding stands for.

use vstd::prelude::*;
use vstd::arithmetic::power2::*;

verus! {

/// Two to the power 52: the number of fraction patterns in one binade.
pub const FRACTION_SPAN: u64 = 0x10_0000_0000_0000;

/// The sign bit of the encoding.
pub const SIGN_BIT: u64 = 0x8000_0000_0000_0000;

/// The exponent field of the infinities and the NaNs.
pub const EXPONENT_TOP: u64 = 2047;

/// A binary64 number, carried as the 64 bits of its interchange encoding:
/// one sign bit, eleven exponent bits, fifty-two fraction bits.
#[derive(Clone, Copy, Debug)]
pub struct Binary64 {
    pub bits: u64,
}

/// The magnitude, in units of two to the power -1074, of the number with
/// biased exponent `e` and fraction `f`. Subnormals (`e == 0`) count their
/// fraction; every other binade has the implicit leading bit.
pub open spec fn magnitude_of(e: nat, f: nat) -> nat {
    if e == 0 {
        f
    } else {
        (FRACTION_SPAN as nat + f) * pow2((e - 1) as nat)
    }
}

/// Within one binade the magnitude grows with the fraction; a higher binade
/// lies wholly above a lower one.
pub proof fn lemma_magnitude_increases(e1: nat, f1: nat, e2: nat, f2: nat)
    requires
        f1 < FRACTION_SPAN,
        f2 < FRACTION_SPAN,
        e1 < e2 || (e1 == e2 && f1 < f2),
    ensures
        magnitude_of(e1, f1) < magnitude_of(e2, f2),
{
    let span = FRACTION_SPAN as nat;
    if e1 == e2 {
        if e1 > 0 {
            let p = pow2((e1 - 1) as nat);
            lemma_pow2_pos((e1 - 1) as nat);
            assert((span + f1) * p < (span + f2) * p) by (nonlinear_arith)
                requires
                    f1 < f2,
                    p > 0,
            ;
        }
    } else {
        let q = pow2((e2 - 1) as nat);
        lemma_pow2_pos((e2 - 1) as nat);
        assert(span * q <= (span + f2) * q) by (nonlinear_arith)
            requires
                q > 0,
        ;
        if e1 == 0 {
            assert(span * 1 <= span * q) by (nonlinear_arith)
                requires
                    q >= 1,
            ;
        } else {
            let p = pow2((e1 - 1) as nat);
            lemma_pow2_pos((e1 - 1) as nat);
            lemma_pow2_unfold(e1);
            if e1 < e2 - 1 {
                lemma_pow2_strictly_increases(e1, (e2 - 1) as nat);
            }
            assert(2 * p <= q);
            assert((span + f1) * p < span * (2 * p)) by (nonlinear_arith)
                requires
                    f1 < span,
                    p > 0,
            ;
            assert(span * (2 * p) <= span * q) by (nonlinear_arith)
                requires
                    2 * p <= q,
            ;
        }
    }
}

/// The value of the number one in the units of `Binary64::scaled`.
pub open spec fn unit() -> nat {
    pow2(1074)
}

/// The encodings of 0, 1 and 2 stand for 0, 1 and 2.
pub proof fn lemma_small_integers()
    ensures
        (Binary64 { bits: 0 }).scaled() == 0,
        (Binary64 { bits: 0x3ff0_0000_0000_0000 }).scaled() == unit(),
        (Binary64 { bits: 0x4000_0000_0000_0000 }).scaled() == 2 * unit(),
        (Binary64 { bits: 0 }).finite(),
        (Binary64 { bits: 0x3ff0_0000_0000_0000 }).finite(),
        (Binary64 { bits: 0x4000_0000_0000_0000 }).finite(),
{
    lemma2_to64_rest();
    lemma_pow2_adds(52, 1022);
    lemma_pow2_adds(52, 1023);
    lemma_pow2_unfold(1075);
}

impl Binary64 {
    /// True when the sign bit is set.
    pub open spec fn negative(self) -> bool {
        self.bits >= SIGN_BIT
    }

    /// The biased exponent field, bits 52 to 62.
    pub open spec fn exponent(self) -> nat {
        ((self.bits / FRACTION_SPAN) % 2048) as nat
    }

    /// The fraction field, bits 0 to 51.
    pub open spec fn fraction(self) -> nat {
        (self.bits % FRACTION_SPAN) as nat
    }

    /// True for the NaNs: the exponent field is all ones and the fraction
    /// is not zero.
    pub open spec fn nan(self) -> bool {
        self.exponent() == EXPONENT_TOP && self.fraction() != 0
    }

    /// True when the encoding stands for a finite number: neither an
    /// infinity nor a NaN.
    pub open spec fn finite(self) -> bool {
        self.exponent() != EXPONENT_TOP
    }

    /// The absolute value in units of two to the power -1074. An infinity
    /// gets the first magnitude above every finite one.
    pub open spec fn magnitude(self) -> nat {
        magnitude_of(self.exponent(), self.fraction())
    }

    /// The number that the encoding stands for, in units of two to the
    /// power -1074. Both zeros give 0. Meaningless for a NaN.
    pub open spec fn scaled(self) -> int {
        if self.negative() {
            -(self.magnitude() as int)
        } else {
            self.magnitude() as int
        }
    }

    /// `self <= other` as IEEE 754 orders numbers: false as soon as one of
    /// the two is a NaN.
    pub open spec fn le_spec(self, other: Binary64) -> bool {
        !self.nan() && !other.nan() && self.scaled() <= other.scaled()
    }

    /// `self < other` as IEEE 754 orders numbers: false as soon as one of
    /// the two is a NaN.
    pub open spec fn lt_spec(self, other: Binary64) -> bool {
        !self.nan() && !other.nan() && self.scaled() < other.scaled()
    }

    /// The low 63 bits: exponent and fraction read as one integer.
    pub open spec fn ordinal(self) -> nat {
        (self.bits % SIGN_BIT) as nat
    }

    /// The magnitude is strictly increasing in the low 63 bits of the
    /// encoding, so magnitudes can be compared on the encodings themselves.
    pub proof fn lemma_ordinal_orders_magnitude(self, other: Binary64)
        ensures
            self.ordinal() < other.ordinal() ==> self.magnitude() < other.magnitude(),
            self.ordinal() == other.ordinal() ==> self.magnitude() == other.magnitude(),
            self.ordinal() == 0 <==> self.magnitude() == 0,
    {
        let a = self.ordinal();
        let b = other.ordinal();
        assert(self.exponent() == a / (FRACTION_SPAN as nat));
        assert(self.fraction() == a % (FRACTION_SPAN as nat));
        assert(other.exponent() == b / (FRACTION_SPAN as nat));
        assert(other.fraction() == b % (FRACTION_SPAN as nat));
        if a < b {
            lemma_magnitude_increases(
                self.exponent(),
                self.fraction(),
                other.exponent(),
                other.fraction(),
            );
        }
        if a != 0 {
            lemma_magnitude_increases(0, 0, self.exponent(), self.fraction());
        }
    }

    /// Wraps an encoding.
    pub fn from_bits(bits: u64) -> (r: Self)
        ensures
            r.bits == bits,
    {
        Binary64 { bits }
    }

    /// The encoding.
    pub fn to_bits(&self) -> (r: u64)
        ensures
            r == self.bits,
    {
        self.bits
    }

    /// Whether the number is finite.
    pub fn is_finite(&self) -> (r: bool)
        ensures
            r == self.finite(),
    {
        (self.bits / FRACTION_SPAN) % 2048 != EXPONENT_TOP
    }

    /// Whether the encoding is a NaN.
    pub fn is_nan(&self) -> (r: bool)
        ensures
            r == self.nan(),
    {
        (self.bits / FRACTION_SPAN) % 2048 == EXPONENT_TOP && self.bits % FRACTION_SPAN != 0
    }

    /// Whether `self <= other`.
    pub fn le(&self, other: &Binary64) -> (r: bool)
        ensures
            r == self.le_spec(*other),
    {
        if self.is_nan() || other.is_nan() {
            return false;
        }
        proof {
            self.lemma_ordinal_orders_magnitude(*other);
            other.lemma_ordinal_orders_magnitude(*self);
        }
        let a: u64 = self.bits % SIGN_BIT;
        let b: u64 = other.bits % SIGN_BIT;
        if self.bits >= SIGN_BIT {
            if other.bits >= SIGN_BIT {
                b <= a
            } else {
                true
            }
        } else {
            if other.bits >= SIGN_BIT {
                a == 0 && b == 0
            } else {
                a <= b
            }
        }
    }

    /// Whether `self < other`.
    pub fn lt(&self, other: &Binary64) -> (r: bool)
        ensures
            r == self.lt_spec(*other),
    {
        if self.is_nan() || other.is_nan() {
            return false;
        }
        proof {
            self.lemma_ordinal_orders_magnitude(*other);
            other.lemma_ordinal_orders_magnitude(*self);
        }
        let a: u64 = self.bits % SIGN_BIT;
        let b: u64 = other.bits % SIGN_BIT;
        if self.bits >= SIGN_BIT {
            if other.bits >= SIGN_BIT {
                b < a
            } else {
                a != 0 || b != 0
            }
        } else {
            if other.bits >= SIGN_BIT {
                false
            } else {
                a < b
            }
        }
    }
}

} // verus!
