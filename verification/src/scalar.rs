//! Single-precision reals carried by their IEEE-754 bit patterns.
//!
//! The library never performs floating-point arithmetic. It moves reals
//! around and decides on them by what can be read off the bit pattern
//! exactly: sign, zero, finiteness, and the value as a fixed-point number.

use vstd::arithmetic::div_mod::lemma_basic_div;
use vstd::arithmetic::power2::lemma2_to64;
use vstd::arithmetic::power2::lemma_pow2_strictly_increases;
use vstd::arithmetic::power2::lemma_pow2_unfold;
use vstd::arithmetic::power2::pow2;
use vstd::prelude::*;

verus! {

/// Bit pattern of the sign bit of a single-precision real.
pub const SIGN_BIT: u32 = 0x8000_0000;

/// Magnitude bits of positive infinity; every larger magnitude is a NaN.
pub const INFINITY_MAGNITUDE: u32 = 0x7f80_0000;

/// Magnitude bits of the number two.
pub const TWO_MAGNITUDE: u32 = 0x4000_0000;

/// Two to the power of 41: the bound of a number of magnitude two or less
/// as a fixed-point number with 40 binary places.
pub const FIXED_BOUND: i64 = 0x200_0000_0000;

/// The power of two with the exponent `k`.
fn power_of_two(k: u32) -> (p: u64)
    requires
        k <= 23,
    ensures
        p == pow2(k as nat),
        1 <= p <= 0x80_0000,
{
    let mut p: u64 = 1;
    let mut i: u32 = 0;
    proof {
        lemma2_to64();
    }
    while i < k
        invariant
            i <= k,
            k <= 23,
            p == pow2(i as nat),
            1 <= p <= 0x80_0000,
            pow2(23) == 0x80_0000,
        decreases k - i,
    {
        proof {
            lemma_pow2_unfold((i + 1) as nat);
            if i + 1 < 23 {
                lemma_pow2_strictly_increases((i + 1) as nat, 23);
            }
        }
        p = p * 2;
        i += 1;
    }
    p
}

/// A single-precision real, stored as its IEEE-754 bit pattern.
#[derive(Clone, Copy, Debug, PartialEq, Eq, Structural)]
pub struct Scalar {
    pub bits: u32,
}

impl Scalar {
    /// The bit pattern with the sign bit cleared.
    pub open spec fn magnitude(self) -> int {
        if self.bits >= SIGN_BIT {
            self.bits - SIGN_BIT
        } else {
            self.bits as int
        }
    }

    /// Whether the sign bit is set.
    pub open spec fn sign(self) -> bool {
        self.bits >= SIGN_BIT
    }

    /// Neither an infinity nor a NaN.
    pub open spec fn finite(self) -> bool {
        self.magnitude() < INFINITY_MAGNITUDE
    }

    /// Not a number.
    pub open spec fn nan(self) -> bool {
        self.magnitude() > INFINITY_MAGNITUDE
    }

    /// Positive or negative zero.
    pub open spec fn zero(self) -> bool {
        self.magnitude() == 0
    }

    /// Strictly below zero: sign set, not a zero, not a NaN.
    pub open spec fn negative(self) -> bool {
        self.sign() && !self.zero() && !self.nan()
    }

    /// Strictly above zero: sign clear, not a zero, not a NaN.
    pub open spec fn positive(self) -> bool {
        !self.sign() && !self.zero() && !self.nan()
    }

    /// The exponent field, or 1 for a subnormal number, which has the
    /// scale of the least normal ones.
    pub open spec fn exponent(self) -> int {
        if self.magnitude() / 0x80_0000 == 0 {
            1
        } else {
            self.magnitude() / 0x80_0000
        }
    }

    /// The significand as an integer: the fraction bits, below the hidden
    /// bit for a normal number. The magnitude of a finite number is
    /// `mantissa() * 2^(exponent() - 150)`.
    pub open spec fn mantissa(self) -> int {
        if self.magnitude() / 0x80_0000 == 0 {
            self.magnitude() % 0x80_0000
        } else {
            self.magnitude() % 0x80_0000 + 0x80_0000
        }
    }

    /// The magnitude of a finite number as a fixed-point number with 40
    /// binary places, cut off after the last place: the whole part of
    /// `mantissa() * 2^(exponent() - 110)`.
    pub open spec fn cut_magnitude(self) -> int {
        if self.exponent() >= 110 {
            self.mantissa() * pow2((self.exponent() - 110) as nat)
        } else {
            self.mantissa() / (pow2((110 - self.exponent()) as nat) as int)
        }
    }

    /// A finite number as a fixed-point number with 40 binary places, cut
    /// off towards zero after the last place.
    pub open spec fn cut(self) -> int {
        if self.sign() {
            -self.cut_magnitude()
        } else {
            self.cut_magnitude()
        }
    }

    /// No larger than two in magnitude.
    pub open spec fn bounded(self) -> bool {
        self.magnitude() <= TWO_MAGNITUDE
    }

    /// The number with the opposite sign bit.
    pub open spec fn opposite(self) -> Scalar {
        if self.bits >= SIGN_BIT {
            Scalar { bits: (self.bits - SIGN_BIT) as u32 }
        } else {
            Scalar { bits: (self.bits + SIGN_BIT) as u32 }
        }
    }

    pub fn from_bits(bits: u32) -> (s: Scalar)
        ensures
            s.bits == bits,
    {
        Scalar { bits }
    }

    pub fn to_bits(self) -> (bits: u32)
        ensures
            bits == self.bits,
    {
        self.bits
    }

    /// The number one.
    pub fn one() -> (s: Scalar)
        ensures
            s.bits == 0x3f80_0000,
            s.finite(),
            s.positive(),
    {
        Scalar { bits: 0x3f80_0000 }
    }

    fn magnitude_bits(self) -> (m: u32)
        ensures
            m == self.magnitude(),
    {
        if self.bits >= SIGN_BIT {
            self.bits - SIGN_BIT
        } else {
            self.bits
        }
    }

    pub fn is_finite(self) -> (r: bool)
        ensures
            r == self.finite(),
    {
        self.magnitude_bits() < INFINITY_MAGNITUDE
    }

    pub fn is_zero(self) -> (r: bool)
        ensures
            r == self.zero(),
    {
        self.magnitude_bits() == 0
    }

    pub fn is_negative(self) -> (r: bool)
        ensures
            r == self.negative(),
    {
        let m: u32 = self.magnitude_bits();
        self.bits >= SIGN_BIT && m != 0 && m <= INFINITY_MAGNITUDE
    }

    pub fn is_positive(self) -> (r: bool)
        ensures
            r == self.positive(),
    {
        let m: u32 = self.magnitude_bits();
        self.bits < SIGN_BIT && m != 0 && m <= INFINITY_MAGNITUDE
    }

    /// Whether the number is no larger than two in magnitude.
    pub fn is_bounded(self) -> (r: bool)
        ensures
            r == self.bounded(),
    {
        self.magnitude_bits() <= TWO_MAGNITUDE
    }

    /// A number beyond two in magnitude is beyond two to the power of 41
    /// as a fixed-point number.
    pub proof fn lemma_cut_beyond_bound(self)
        requires
            !self.bounded(),
        ensures
            self.cut_magnitude() >= FIXED_BOUND,
    {
        lemma2_to64();
        let e = self.exponent();
        let k = (e - 110) as nat;
        assert(e >= 128);
        if k > 18 {
            lemma_pow2_strictly_increases(18, k);
        }
        assert(pow2(k) >= 0x4_0000);
        assert(self.mantissa() >= 0x80_0000);
        assert(self.mantissa() * pow2(k) >= 0x80_0000 * 0x4_0000) by (nonlinear_arith)
            requires
                self.mantissa() >= 0x80_0000,
                pow2(k) >= 0x4_0000,
        ;
    }

    /// The number as a fixed-point number with 40 binary places.
    pub fn fixed(self) -> (r: i64)
        requires
            self.bounded(),
        ensures
            r == self.cut(),
            -FIXED_BOUND <= r <= FIXED_BOUND,
    {
        let m: u32 = self.magnitude_bits();
        let field: u32 = m / 0x80_0000;
        let fraction: u32 = m % 0x80_0000;
        let mantissa: u64 = if field == 0 {
            fraction as u64
        } else {
            fraction as u64 + 0x80_0000
        };
        let exponent: u32 = if field == 0 {
            1
        } else {
            field
        };
        proof {
            lemma2_to64();
        }
        let magnitude: u64 = if exponent >= 110 {
            let factor: u64 = power_of_two(exponent - 110);
            proof {
                if exponent == 128 {
                    assert(mantissa == 0x80_0000);
                    assert(factor == 0x4_0000);
                } else {
                    if exponent - 110 < 17 {
                        lemma_pow2_strictly_increases((exponent - 110) as nat, 17);
                    }
                    assert(factor <= 0x2_0000);
                }
                assert(mantissa * factor <= 0x200_0000_0000) by (nonlinear_arith)
                    requires
                        (mantissa == 0x80_0000 && factor == 0x4_0000) || (mantissa < 0x100_0000
                            && factor <= 0x2_0000),
                ;
            }
            mantissa * factor
        } else {
            let k: u32 = 110 - exponent;
            if k >= 24 {
                proof {
                    if k > 24 {
                        lemma_pow2_strictly_increases(24, k as nat);
                    }
                    lemma_basic_div(mantissa as int, pow2(k as nat) as int);
                }
                0
            } else {
                let divisor: u64 = power_of_two(k);
                mantissa / divisor
            }
        };
        if self.bits >= SIGN_BIT {
            -(magnitude as i64)
        } else {
            magnitude as i64
        }
    }

    /// Flips the sign bit.
    pub fn negated(self) -> (r: Scalar)
        ensures
            r == self.opposite(),
            r.magnitude() == self.magnitude(),
            r.sign() != self.sign(),
            r.cut() == -self.cut(),
    {
        if self.bits >= SIGN_BIT {
            Scalar { bits: self.bits - SIGN_BIT }
        } else {
            Scalar { bits: self.bits + SIGN_BIT }
        }
    }
}

/// A vector of three reals.
#[derive(Clone, Copy, Debug, PartialEq, Eq, Structural)]
pub struct Vec3 {
    pub x: Scalar,
    pub y: Scalar,
    pub z: Scalar,
}

impl Vec3 {
    pub open spec fn finite(self) -> bool {
        self.x.finite() && self.y.finite() && self.z.finite()
    }

    pub open spec fn opposite(self) -> Vec3 {
        Vec3 { x: self.x.opposite(), y: self.y.opposite(), z: self.z.opposite() }
    }

    /// No component is larger than two in magnitude.
    pub open spec fn bounded(self) -> bool {
        self.x.bounded() && self.y.bounded() && self.z.bounded()
    }

    pub fn new(x: Scalar, y: Scalar, z: Scalar) -> (v: Vec3)
        ensures
            v == (Vec3 { x, y, z }),
    {
        Vec3 { x, y, z }
    }

    /// The vector of the three bit patterns.
    pub fn from_bits(x: u32, y: u32, z: u32) -> (v: Vec3)
        ensures
            v.x.bits == x,
            v.y.bits == y,
            v.z.bits == z,
    {
        Vec3 { x: Scalar { bits: x }, y: Scalar { bits: y }, z: Scalar { bits: z } }
    }

    /// The vector (1, 1, 1).
    pub fn ones() -> (v: Vec3)
        ensures
            v.x.bits == 0x3f80_0000,
            v.y.bits == 0x3f80_0000,
            v.z.bits == 0x3f80_0000,
            v.finite(),
    {
        Vec3 { x: Scalar::one(), y: Scalar::one(), z: Scalar::one() }
    }

    pub fn is_finite(self) -> (r: bool)
        ensures
            r == self.finite(),
    {
        self.x.is_finite() && self.y.is_finite() && self.z.is_finite()
    }

    pub fn is_bounded(self) -> (r: bool)
        ensures
            r == self.bounded(),
    {
        self.x.is_bounded() && self.y.is_bounded() && self.z.is_bounded()
    }

    /// Flips the sign of each component.
    pub fn negated(self) -> (r: Vec3)
        ensures
            r == self.opposite(),
    {
        Vec3 { x: self.x.negated(), y: self.y.negated(), z: self.z.negated() }
    }
}

} // verus!
