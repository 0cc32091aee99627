//! Double-precision numbers as bit patterns.
//!
//! The library stores, compares and classifies such numbers; arithmetic on them belongs to
//! the caller.

use vstd::prelude::*;
use vstd::std_specs::cmp::PartialEqSpecImpl;

verus! {

/// A double-precision number, held as its IEEE 754 bit pattern.
#[derive(Clone, Copy, Debug)]
pub struct Real {
    pub bits: u64,
}

/// The bit pattern of an infinite magnitude.
pub const INFINITE_MAGNITUDE: u64 = 0x7FF0_0000_0000_0000;

/// The smallest magnitude of a quiet NaN.
pub const QUIET_NAN_MAGNITUDE: u64 = 0x7FF8_0000_0000_0000;

/// The bit that carries the sign.
pub const SIGN_BIT: u64 = 0x8000_0000_0000_0000;

impl Real {
    /// The bit pattern without its sign.
    pub open spec fn magnitude(self) -> u64 {
        self.bits % SIGN_BIT
    }

    /// Neither infinite nor NaN.
    pub open spec fn finite(self) -> bool {
        self.magnitude() < INFINITE_MAGNITUDE
    }

    /// Not a number.
    pub open spec fn nan(self) -> bool {
        self.magnitude() > INFINITE_MAGNITUDE
    }

    /// One of the two zeros.
    pub open spec fn zero(self) -> bool {
        self.magnitude() == 0
    }

    /// Greater than or equal to zero.
    pub open spec fn nonnegative(self) -> bool {
        !self.nan() && (self.bits < SIGN_BIT || self.zero())
    }

    /// A NaN that an arithmetic unit may replace by a quiet one in passing.
    pub open spec fn signalling(self) -> bool {
        INFINITE_MAGNITUDE < self.magnitude() < QUIET_NAN_MAGNITUDE
    }

    /// Whether a number that was stored can come back as `read`: bit for bit, but of a signalling
    /// NaN only that it is NaN.
    pub open spec fn comes_back_as(self, read: Real) -> bool {
        if self.signalling() {
            read.nan()
        } else {
            read == self
        }
    }

    /// Numeric equality: NaN equals nothing and the two zeros are equal.
    pub open spec fn equals(self, other: Real) -> bool {
        &&& !self.nan()
        &&& !other.nan()
        &&& self.bits == other.bits || self.zero() && other.zero()
    }

    /// Positive zero.
    pub fn nought() -> (r: Real)
        ensures
            r == (Real { bits: 0 }),
            r.zero(),
            r.finite(),
    {
        Real { bits: 0 }
    }

    /// Whether the number is neither infinite nor NaN.
    pub fn is_finite(&self) -> (r: bool)
        ensures
            r == self.finite(),
    {
        self.bits % SIGN_BIT < INFINITE_MAGNITUDE
    }

    /// Whether the number is NaN.
    pub fn is_nan(&self) -> (r: bool)
        ensures
            r == self.nan(),
    {
        self.bits % SIGN_BIT > INFINITE_MAGNITUDE
    }

    /// Whether the number is one of the two zeros.
    pub fn is_zero(&self) -> (r: bool)
        ensures
            r == self.zero(),
    {
        self.bits % SIGN_BIT == 0
    }

    /// Whether the number compares greater than or equal to zero.
    pub fn is_nonnegative(&self) -> (r: bool)
        ensures
            r == self.nonnegative(),
    {
        !self.is_nan() && (self.bits < SIGN_BIT || self.is_zero())
    }
}

impl PartialEq for Real {
    fn eq(&self, other: &Self) -> (r: bool) {
        !self.is_nan() && !other.is_nan() && (self.bits == other.bits || self.is_zero()
            && other.is_zero())
    }
}

impl PartialEqSpecImpl for Real {
    open spec fn obeys_eq_spec() -> bool {
        true
    }

    open spec fn eq_spec(&self, other: &Self) -> bool {
        self.equals(*other)
    }
}

/// The classes of numbers by their bit patterns: the sign bit aside, zero is the smallest pattern,
/// the finite numbers stand below the infinite ones, and what stands above those is no number.
pub proof fn law_classes(x: Real, finite: bool, nan: bool, zero: bool, nonnegative: bool)
    requires
        call_ensures(Real::is_finite, (&x,), finite),
        call_ensures(Real::is_nan, (&x,), nan),
        call_ensures(Real::is_zero, (&x,), zero),
        call_ensures(Real::is_nonnegative, (&x,), nonnegative),
    ensures
        finite <==> x.bits < 0x7FF0_0000_0000_0000 || 0x8000_0000_0000_0000 <= x.bits
            < 0xFFF0_0000_0000_0000,
        nan <==> 0x7FF0_0000_0000_0000 < x.bits < 0x8000_0000_0000_0000 || x.bits
            > 0xFFF0_0000_0000_0000,
        zero <==> x.bits == 0 || x.bits == 0x8000_0000_0000_0000,
        nonnegative <==> x.bits <= 0x7FF0_0000_0000_0000 || x.bits == 0x8000_0000_0000_0000,
        zero ==> finite && nonnegative,
        finite ==> !nan,
        nan ==> !nonnegative,
{
}

/// Two numbers are equal exactly if they have one bit pattern that is a number, or are two zeros.
pub proof fn law_equal_numbers(x: Real, y: Real, equal: bool)
    requires
        call_ensures(<Real as PartialEq>::eq, (&x, &y), equal),
    ensures
        x.bits == y.bits ==> (equal <==> x.bits <= 0x7FF0_0000_0000_0000 || 0x8000_0000_0000_0000
            <= x.bits <= 0xFFF0_0000_0000_0000),
        x.bits != y.bits ==> (equal <==> (x.bits == 0 && y.bits == 0x8000_0000_0000_0000) || (x.bits
            == 0x8000_0000_0000_0000 && y.bits == 0)),
{
}

/// The number to start a sum with is positive zero.
pub proof fn law_nought(x: Real)
    requires
        call_ensures(Real::nought, (), x),
    ensures
        x.bits == 0,
{
}

} // verus!
