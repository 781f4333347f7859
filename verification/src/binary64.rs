//! Binary64 numbers held by their bit patterns.
//!
//! Geometry arrives as IEEE 754 double precision numbers. They are kept here
//! as the sixty-four bits that encode them, so that the one arithmetic rule of
//! the canvas, halving, is integer arithmetic on that encoding.

use vstd::arithmetic::power2::{lemma_pow2_unfold, pow2};
use vstd::prelude::*;

verus! {

/// The bit that holds the sign.
pub const SIGN_BIT: u64 = 0x8000_0000_0000_0000;

/// Two to the fifty-second: the weight of the exponent field's lowest bit.
pub const FRACTION_SPAN: u64 = 0x0010_0000_0000_0000;

/// The exponent field of infinities and of values that are not numbers.
pub const EXPONENT_ALL_ONES: u64 = 0x7ff;

/// The bit that marks a quiet not-a-number.
pub const QUIET_BIT: u64 = 0x0008_0000_0000_0000;

/// A binary64 value held by its bit pattern.
#[derive(Clone, Copy, Debug, PartialEq, Eq, Structural)]
pub struct Binary64 {
    pub bits: u64,
}

/// Half of `n`, rounded to the nearest integer, ties going to the even one.
pub open spec fn half_to_even(n: nat) -> nat {
    if n % 2 == 0 {
        n / 2
    } else if (n / 2) % 2 == 1 {
        n / 2 + 1
    } else {
        n / 2
    }
}

impl Binary64 {
    /// Whether the sign bit is set.
    pub open spec fn negative(self) -> bool {
        self.bits >= SIGN_BIT
    }

    /// The encoding without its sign bit.
    pub open spec fn body(self) -> int {
        if self.bits >= SIGN_BIT {
            self.bits - SIGN_BIT
        } else {
            self.bits as int
        }
    }

    /// The eleven-bit exponent field.
    pub open spec fn exponent(self) -> int {
        self.body() / (FRACTION_SPAN as int)
    }

    /// The fifty-two-bit fraction field.
    pub open spec fn fraction(self) -> int {
        self.body() % (FRACTION_SPAN as int)
    }

    /// Whether the value is a number of finite size.
    pub open spec fn finite(self) -> bool {
        self.exponent() < EXPONENT_ALL_ONES
    }

    /// Whether the value is not a number.
    pub open spec fn nan(self) -> bool {
        self.exponent() == EXPONENT_ALL_ONES && self.fraction() != 0
    }

    /// The absolute value of a finite number, counted in units of two to the
    /// power of minus 1074, the smallest positive binary64 number.
    pub open spec fn magnitude(self) -> nat {
        if self.exponent() == 0 {
            self.fraction() as nat
        } else {
            ((FRACTION_SPAN + self.fraction()) * pow2((self.exponent() - 1) as nat)) as nat
        }
    }

    /// The encoding of this value divided by two, as binary64 division
    /// rounds it.
    ///
    /// Above the two smallest exponents the exponent drops by one. At the two
    /// smallest the body is halved and rounded to nearest, ties to even. An
    /// infinity is its own half, and what is not a number stays so, quiet.
    pub open spec fn spec_halved(self) -> Binary64 {
        if self.exponent() == EXPONENT_ALL_ONES {
            if self.fraction() != 0 && self.fraction() < QUIET_BIT {
                Binary64 { bits: (self.bits + QUIET_BIT) as u64 }
            } else {
                self
            }
        } else if self.exponent() >= 2 {
            Binary64 { bits: (self.bits - FRACTION_SPAN) as u64 }
        } else {
            Binary64 { bits: (self.bits - self.body() + half_to_even(self.body() as nat)) as u64 }
        }
    }

    /// The value with the given encoding.
    pub fn from_bits(bits: u64) -> (r: Binary64)
        ensures
            r.bits == bits,
    {
        Binary64 { bits }
    }

    /// The encoding of the value.
    pub fn to_bits(self) -> (bits: u64)
        ensures
            bits == self.bits,
    {
        self.bits
    }

    /// The value divided by two.
    #[verifier::when_used_as_spec(spec_halved)]
    pub fn halved(self) -> (r: Binary64)
        ensures
            r == self.spec_halved(),
    {
        let sign: u64 = if self.bits >= SIGN_BIT {
            SIGN_BIT
        } else {
            0
        };
        let body: u64 = self.bits - sign;
        let exponent: u64 = body / FRACTION_SPAN;
        let fraction: u64 = body % FRACTION_SPAN;
        if exponent == EXPONENT_ALL_ONES {
            if fraction != 0 && fraction < QUIET_BIT {
                Binary64 { bits: self.bits + QUIET_BIT }
            } else {
                self
            }
        } else if exponent >= 2 {
            Binary64 { bits: self.bits - FRACTION_SPAN }
        } else {
            let half: u64 = body / 2;
            let rounded: u64 = if body % 2 == 1 && half % 2 == 1 {
                half + 1
            } else {
                half
            };
            Binary64 { bits: sign + rounded }
        }
    }
}

/// Halving a finite number keeps it finite, keeps its sign, and halves its
/// magnitude, rounding to nearest with ties to even where the half is not
/// representable.
pub proof fn lemma_halved_halves(x: Binary64)
    requires
        x.finite(),
    ensures
        x.spec_halved().finite(),
        x.spec_halved().negative() == x.negative(),
        x.spec_halved().magnitude() == half_to_even(x.magnitude()),
{
    let r = x.spec_halved();
    let e = x.exponent();
    let f = x.fraction();
    if e >= 2 {
        assert(r.body() == x.body() - FRACTION_SPAN);
        assert(r.exponent() == e - 1);
        assert(r.fraction() == f);
        let p = pow2((e - 2) as nat);
        lemma_pow2_unfold((e - 1) as nat);
        assert(pow2((e - 1) as nat) == 2 * p);
        assert((FRACTION_SPAN + f) * (2 * p) == 2 * ((FRACTION_SPAN + f) * p)) by (nonlinear_arith);
        if e == 2 {
            lemma_pow2_unfold(1);
            assert(pow2(0) == 1) by {
                reveal(pow2);
                vstd::arithmetic::power::lemma_pow0(2);
            }
            assert(p == 1);
            assert(x.magnitude() == 2 * (FRACTION_SPAN + f));
            assert(r.magnitude() == (FRACTION_SPAN + f) * pow2(0));
        } else {
            assert(r.magnitude() == (FRACTION_SPAN + f) * p);
        }
    } else {
        assert(pow2(0) == 1) by {
            reveal(pow2);
            vstd::arithmetic::power::lemma_pow0(2);
        }
        assert(x.magnitude() == x.body());
        let h = half_to_even(x.body() as nat);
        assert(r.body() == h);
        assert(h <= FRACTION_SPAN);
        assert(r.magnitude() == h);
    }
}

} // verus!
