//! IEEE 754 binary64 numbers, handled through their bit patterns.
//!
//! A [`Double`] is the 64-bit pattern of a binary64 number: one sign bit,
//! eleven exponent bits and fifty-two fraction bits. Everything here is
//! integer arithmetic on that pattern.

use vstd::prelude::*;
use vstd::arithmetic::div_mod::{lemma_mod_multiples_basic, lemma_small_mod, lemma_truncate_middle};
use vstd::arithmetic::power2::{
    lemma2_to64, lemma2_to64_rest, lemma_pow2_adds, lemma_pow2_pos,
    lemma_pow2_strictly_increases, pow2,
};
use crate::nearest::{
    lemma_pow2_increases, nearest, nearest_ratio, quantity, scale, significand, two_to,
    HIDDEN_BIT, SIGNIFICAND_LIMIT,
};

verus! {

/// The bit that carries the sign.
pub const SIGN_BIT: u64 = 0x8000_0000_0000_0000;

/// The pattern of positive infinity; magnitudes above it are NaNs.
pub const INFINITY_BITS: u64 = 0x7ff0_0000_0000_0000;

/// The pattern of the NaN that [`Double::div`] gives where a quotient is
/// undefined.
pub const NAN_BITS: u64 = 0x7ff8_0000_0000_0000;

/// A binary64 number, given by its bit pattern.
#[derive(Clone, Copy, Debug, PartialEq, Eq, Structural)]
pub struct Double {
    pub bits: u64,
}

impl Double {
    /// The pattern with the sign bit cleared.
    pub open spec fn magnitude(self) -> u64 {
        if self.bits >= SIGN_BIT {
            (self.bits - SIGN_BIT) as u64
        } else {
            self.bits
        }
    }

    /// Whether the sign bit is set.
    pub open spec fn is_negative(self) -> bool {
        self.bits >= SIGN_BIT
    }

    pub open spec fn is_nan(self) -> bool {
        self.magnitude() > INFINITY_BITS
    }

    pub open spec fn is_infinite(self) -> bool {
        self.magnitude() == INFINITY_BITS
    }

    pub open spec fn is_finite(self) -> bool {
        self.magnitude() < INFINITY_BITS
    }

    pub open spec fn is_zero(self) -> bool {
        self.magnitude() == 0
    }

    /// The place of a number that is not a NaN in the order of all such
    /// numbers: magnitudes grow with their patterns, negative numbers mirror
    /// the positive ones, and the two zeros share place 0.
    pub open spec fn rank(self) -> int {
        if self.is_negative() {
            -(self.magnitude() as int)
        } else {
            self.magnitude() as int
        }
    }

    /// `self < other` as IEEE 754 defines it: false when either is a NaN.
    pub open spec fn less_than(self, other: Double) -> bool {
        !self.is_nan() && !other.is_nan() && self.rank() < other.rank()
    }

    /// `self <= other` as IEEE 754 defines it: false when either is a NaN.
    pub open spec fn at_most(self, other: Double) -> bool {
        !self.is_nan() && !other.is_nan() && self.rank() <= other.rank()
    }

    /// `self == other` as IEEE 754 defines it: a NaN equals nothing, and the
    /// two zeros equal each other.
    pub open spec fn same_number(self, other: Double) -> bool {
        !self.is_nan() && !other.is_nan() && self.rank() == other.rank()
    }

    /// What the magnitude of a finite number stands for, in units of 2^-1074.
    pub open spec fn units(self) -> nat {
        quantity(self.magnitude())
    }

    /// The number of the given magnitude and sign.
    pub open spec fn signed(magnitude: u64, negative: bool) -> Double {
        Double {
            bits: if negative {
                (magnitude + SIGN_BIT) as u64
            } else {
                magnitude
            },
        }
    }

    /// The binary64 number nearest to the integer `n`.
    pub open spec fn of_u64(n: u64) -> Double {
        Double { bits: nearest((n * pow2(1074)) as nat, 1) }
    }

    /// The binary64 number nearest to the integer `n`.
    pub open spec fn of_i64(n: i64) -> Double {
        if n < 0 {
            Double::signed(nearest((-n * pow2(1074)) as nat, 1), true)
        } else {
            Double { bits: nearest((n * pow2(1074)) as nat, 1) }
        }
    }

    /// `self / other` as IEEE 754 defines it with rounding to nearest, ties
    /// to even: the sign is negative where exactly one operand's is, a finite
    /// number by a finite number other than zero is the number nearest to
    /// the exact quotient, and the undefined quotients are one fixed NaN.
    pub open spec fn quotient(self, other: Double) -> Double {
        let negative = self.is_negative() != other.is_negative();
        if self.is_nan() || other.is_nan() {
            Double { bits: NAN_BITS }
        } else if self.is_infinite() {
            if other.is_infinite() {
                Double { bits: NAN_BITS }
            } else {
                Double::signed(INFINITY_BITS, negative)
            }
        } else if other.is_infinite() {
            Double::signed(0, negative)
        } else if other.is_zero() {
            if self.is_zero() {
                Double { bits: NAN_BITS }
            } else {
                Double::signed(INFINITY_BITS, negative)
            }
        } else {
            Double::signed(nearest((self.units() * pow2(1074)) as nat, other.units()), negative)
        }
    }

    /// The part of a finite number's magnitude beyond the whole numbers, in
    /// units of 2^-1074: between 0 and 2^1074.
    pub open spec fn fraction(self) -> nat {
        self.units() % pow2(1074)
    }

    /// Whether `x - round(x) > 2^-52`, where `round(x)` is the whole number
    /// nearest to `x` and halves go away from zero. For `x >= 0` that is a
    /// fraction above 2^-52 and below 1/2; for `x < 0` it is a fraction of at
    /// least 1/2 that misses 1 by more than 2^-52. It holds of no infinity
    /// and of no NaN.
    pub open spec fn exceeds_integer(self) -> bool {
        self.is_finite() && if self.is_negative() {
            self.fraction() >= pow2(1073) && pow2(1074) - self.fraction() > pow2(1022)
        } else {
            pow2(1022) < self.fraction() < pow2(1073)
        }
    }

    pub fn from_bits(bits: u64) -> (r: Double)
        ensures
            r.bits == bits,
    {
        Double { bits }
    }

    pub fn to_bits(&self) -> (r: u64)
        ensures
            r == self.bits,
    {
        self.bits
    }

    fn magnitude_bits(&self) -> (r: u64)
        ensures
            r == self.magnitude(),
    {
        if self.bits >= SIGN_BIT {
            self.bits - SIGN_BIT
        } else {
            self.bits
        }
    }

    pub fn nan(&self) -> (r: bool)
        ensures
            r == self.is_nan(),
    {
        self.magnitude_bits() > INFINITY_BITS
    }

    pub fn finite(&self) -> (r: bool)
        ensures
            r == self.is_finite(),
    {
        self.magnitude_bits() < INFINITY_BITS
    }

    pub fn negative(&self) -> (r: bool)
        ensures
            r == self.is_negative(),
    {
        self.bits >= SIGN_BIT
    }

    /// Whether `self < other`.
    pub fn lt(&self, other: &Double) -> (r: bool)
        ensures
            r == self.less_than(*other),
    {
        if self.nan() || other.nan() {
            return false;
        }
        let a: u64 = self.magnitude_bits();
        let b: u64 = other.magnitude_bits();
        if self.negative() {
            if other.negative() {
                b < a
            } else {
                a != 0 || b != 0
            }
        } else {
            if other.negative() {
                false
            } else {
                a < b
            }
        }
    }

    /// Whether `self <= other`.
    pub fn le(&self, other: &Double) -> (r: bool)
        ensures
            r == self.at_most(*other),
    {
        if self.nan() || other.nan() {
            return false;
        }
        let a: u64 = self.magnitude_bits();
        let b: u64 = other.magnitude_bits();
        if self.negative() {
            if other.negative() {
                b <= a
            } else {
                true
            }
        } else {
            if other.negative() {
                a == 0 && b == 0
            } else {
                a <= b
            }
        }
    }

    /// Whether `self > other`.
    pub fn gt(&self, other: &Double) -> (r: bool)
        ensures
            r == other.less_than(*self),
    {
        other.lt(self)
    }

    /// Whether `self >= other`.
    pub fn ge(&self, other: &Double) -> (r: bool)
        ensures
            r == other.at_most(*self),
    {
        other.le(self)
    }

    /// Whether `self == other` as numbers.
    pub fn same(&self, other: &Double) -> (r: bool)
        ensures
            r == self.same_number(*other),
    {
        if self.nan() || other.nan() {
            return false;
        }
        let a: u64 = self.magnitude_bits();
        let b: u64 = other.magnitude_bits();
        if a == 0 && b == 0 {
            true
        } else {
            self.bits == other.bits
        }
    }
}

impl Double {
    /// The binary64 number nearest to `n`.
    pub fn from_u64(n: u64) -> (r: Double)
        ensures
            r == Double::of_u64(n),
    {
        proof {
            lemma2_to64();
        }
        Double { bits: nearest_ratio(n, 1074, 1, 0) }
    }

    /// The binary64 number nearest to `n`.
    pub fn from_i64(n: i64) -> (r: Double)
        ensures
            r == Double::of_i64(n),
    {
        proof {
            lemma2_to64();
        }
        if n < 0 {
            let size: u64 = if n == i64::MIN {
                0x8000_0000_0000_0000
            } else {
                (-n) as u64
            };
            let magnitude = nearest_ratio(size, 1074, 1, 0);
            Double { bits: magnitude + SIGN_BIT }
        } else {
            Double { bits: nearest_ratio(n as u64, 1074, 1, 0) }
        }
    }

    /// `self / other`.
    pub fn div(&self, other: &Double) -> (r: Double)
        ensures
            r == self.quotient(*other),
    {
        let negative = self.negative() != other.negative();
        let a: u64 = self.magnitude_bits();
        let b: u64 = other.magnitude_bits();
        let magnitude: u64 = if a > INFINITY_BITS || b > INFINITY_BITS {
            return Double { bits: NAN_BITS };
        } else if a == INFINITY_BITS {
            if b == INFINITY_BITS {
                return Double { bits: NAN_BITS };
            }
            INFINITY_BITS
        } else if b == INFINITY_BITS {
            0
        } else if b == 0 {
            if a == 0 {
                return Double { bits: NAN_BITS };
            }
            INFINITY_BITS
        } else {
            let (m1, s1) = parts(a);
            let (m2, s2) = parts(b);
            proof {
                lemma2_to64();
                lemma_pow2_adds(s1 as nat, 1074);
                assert(m1 * pow2((s1 + 1074) as nat) == (m1 * pow2(s1 as nat)) * pow2(1074))
                    by (nonlinear_arith)
                    requires
                        pow2((s1 + 1074) as nat) == pow2(s1 as nat) * pow2(1074),
                ;
                if m2 == 0 {
                    crate::nearest::lemma_parts(b);
                }
            }
            nearest_ratio(m1, s1 + 1074, m2, s2)
        };
        if negative {
            Double { bits: magnitude + SIGN_BIT }
        } else {
            Double { bits: magnitude }
        }
    }

    /// Whether `self - round(self) > 2^-52`.
    pub fn exceeds(&self) -> (r: bool)
        ensures
            r == self.exceeds_integer(),
    {
        if !self.finite() {
            return false;
        }
        let (sig, sc) = parts(self.magnitude_bits());
        proof {
            lemma2_to64();
            lemma2_to64_rest();
            lemma_pow2_pos(sc as nat);
            lemma_pow2_pos(1022);
            lemma_pow2_pos(1073);
        }
        if sc >= 1074 {
            proof {
                lemma_pow2_adds((sc - 1074) as nat, 1074);
                lemma_pow2_pos(1074);
                let whole = sig * pow2((sc - 1074) as nat);
                assert(self.units() == whole * pow2(1074)) by (nonlinear_arith)
                    requires
                        self.units() == sig * pow2(sc as nat),
                        pow2(sc as nat) == pow2((sc - 1074) as nat) * pow2(1074),
                        whole == sig * pow2((sc - 1074) as nat),
                ;
                lemma_mod_multiples_basic(whole, pow2(1074) as int);
                assert(self.fraction() == 0);
            }
            return false;
        }
        let k: u32 = 1074 - sc;
        proof {
            lemma_pow2_adds(sc as nat, k as nat);
            lemma_pow2_pos(k as nat);
            if k >= 53 {
                lemma_pow2_increases(53, k as nat);
            } else {
                lemma_pow2_increases(k as nat, 52);
            }
        }
        let low: u64 = if k >= 53 {
            sig
        } else {
            sig % (two_to(k) as u64)
        };
        let ghost p = pow2(sc as nat) as int;
        let ghost q = pow2(k as nat) as int;
        proof {
            lemma_truncate_middle(sig as int, p, q);
            if k >= 53 {
                lemma_small_mod(sig as nat, q as nat);
            }
            assert(low == sig as int % q);
            assert(self.units() == p * sig) by (nonlinear_arith)
                requires
                    self.units() == sig * p,
            ;
            assert(self.fraction() == p * low);
            assert(low < q) by {
                vstd::arithmetic::div_mod::lemma_mod_bound(sig as int, q);
            }
        }
        let below_half: bool = if k >= 54 {
            true
        } else {
            (low as u128) < two_to(k - 1)
        };
        proof {
            let h = pow2((k - 1) as nat) as int;
            lemma_pow2_adds(sc as nat, (k - 1) as nat);
            if k >= 54 {
                lemma_pow2_increases(53, (k - 1) as nat);
            }
            assert((low < h) == (p * low < p * h)) by (nonlinear_arith)
                requires
                    p > 0,
            ;
            assert(below_half == (self.fraction() < pow2(1073)));
        }
        if self.negative() {
            if below_half {
                false
            } else {
                let rest: u64 = (two_to(k) as u64) - low;
                proof {
                    assert(pow2(1074) - self.fraction() == rest * p) by (nonlinear_arith)
                        requires
                            pow2(1074) == p * q,
                            self.fraction() == p * low,
                            rest == q - low,
                    ;
                }
                above_epsilon(rest, sc)
            }
        } else {
            if below_half {
                proof {
                    assert(self.fraction() == low * p) by (nonlinear_arith)
                        requires
                            self.fraction() == p * low,
                    ;
                }
                above_epsilon(low, sc)
            } else {
                false
            }
        }
    }
}

/// The significand and the scale of a magnitude.
fn parts(magnitude: u64) -> (r: (u64, u32))
    requires
        magnitude <= INFINITY_BITS,
    ensures
        r.0 == significand(magnitude),
        r.1 == scale(magnitude),
        r.0 < SIGNIFICAND_LIMIT,
        r.1 <= 2046,
{
    let e: u64 = magnitude / HIDDEN_BIT;
    let f: u64 = magnitude % HIDDEN_BIT;
    if e == 0 {
        (f, 0)
    } else {
        (HIDDEN_BIT + f, (e - 1) as u32)
    }
}

/// Whether `x * 2^sc` units are more than 2^-52, which is 2^1022 units.
fn above_epsilon(x: u64, sc: u32) -> (r: bool)
    requires
        x <= SIGNIFICAND_LIMIT,
        sc <= 2046,
    ensures
        r == (x * pow2(sc as nat) > pow2(1022)),
{
    let ghost p = pow2(sc as nat) as int;
    proof {
        lemma2_to64();
        lemma2_to64_rest();
        lemma_pow2_pos(sc as nat);
        lemma_pow2_pos(1022);
    }
    if x == 0 {
        proof {
            assert(x * p == 0) by (nonlinear_arith)
                requires
                    x == 0,
            ;
        }
        false
    } else if sc > 1022 {
        proof {
            lemma_pow2_strictly_increases(1022, sc as nat);
            assert(x * p >= p) by (nonlinear_arith)
                requires
                    x >= 1,
                    p > 0,
            ;
        }
        true
    } else {
        let j: u32 = 1022 - sc;
        let ghost t = pow2(j as nat) as int;
        proof {
            lemma_pow2_adds(sc as nat, j as nat);
            lemma_pow2_pos(j as nat);
            assert((x > t) == (x * p > p * t)) by (nonlinear_arith)
                requires
                    p > 0,
            ;
        }
        if j >= 54 {
            proof {
                lemma_pow2_increases(54, j as nat);
            }
            false
        } else {
            (x as u128) > two_to(j)
        }
    }
}

} // verus!
