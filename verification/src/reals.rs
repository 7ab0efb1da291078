//! Real-valued settings, held as the bits of their IEEE 754 representation. Comparing two of
//! them is comparing sign and magnitude.
use vstd::prelude::*;

use crate::failure::Reading;

verus! {

/// A 64-bit real by its bits: sign, eleven exponent bits, fraction.
#[derive(Debug, Clone, Copy, PartialEq, Eq, Structural)]
pub struct Real {
    pub bits: u64,
}

/// A 32-bit real by its bits: sign, eight exponent bits, fraction.
#[derive(Debug, Clone, Copy, PartialEq, Eq, Structural)]
pub struct ShortReal {
    pub bits: u32,
}

/// A 64-bit real as written, with its value, or what is wrong with the text.
#[derive(Debug, Clone, PartialEq, Eq)]
pub struct RealText {
    pub text: String,
    pub value: Reading<Real>,
}

/// A 32-bit real as written, with its value, or what is wrong with the text.
#[derive(Debug, Clone, PartialEq, Eq)]
pub struct ShortRealText {
    pub text: String,
    pub value: Reading<ShortReal>,
}

/// The least bits with the sign set.
pub const SIGN: u64 = 0x8000_0000_0000_0000;

/// The bits of infinity: greater magnitudes are not numbers.
pub const INFINITY: u64 = 0x7ff0_0000_0000_0000;

/// The bits of one.
pub const ONE: u64 = 0x3ff0_0000_0000_0000;

/// The least 32 bits with the sign set.
pub const SHORT_SIGN: u32 = 0x8000_0000;

/// The 32 bits of infinity.
pub const SHORT_INFINITY: u32 = 0x7f80_0000;

/// A 64-bit real holds every whole number up to here.
pub const WHOLE_LIMIT: u64 = 0x20_0000_0000_0000;

impl Real {
    /// Whether the sign is set.
    pub open spec fn negative(self) -> bool {
        self.bits >= SIGN
    }

    /// The bits without the sign.
    pub open spec fn magnitude(self) -> int {
        if self.negative() {
            self.bits - SIGN
        } else {
            self.bits as int
        }
    }

    /// Whether this is not a number.
    pub open spec fn nan(self) -> bool {
        self.magnitude() > INFINITY
    }

    /// Whether this is a number other than an infinity.
    pub open spec fn finite(self) -> bool {
        self.magnitude() < INFINITY
    }

    /// The place of a number in the order of the numbers.
    pub open spec fn rank(self) -> int {
        if self.negative() {
            -self.magnitude()
        } else {
            self.magnitude()
        }
    }

    /// `self < other`. What is not a number is less than nothing, and nothing is less than it.
    pub open spec fn less(self, other: Real) -> bool {
        !self.nan() && !other.nan() && self.rank() < other.rank()
    }

    /// `self <= other`.
    pub open spec fn at_most(self, other: Real) -> bool {
        !self.nan() && !other.nan() && self.rank() <= other.rank()
    }

    /// The bits without the sign: see [`Real::magnitude`].
    fn unsigned(self) -> (m: u64)
        ensures
            m == self.magnitude(),
    {
        if self.bits >= SIGN {
            self.bits - SIGN
        } else {
            self.bits
        }
    }

    /// Whether this is a number other than an infinity.
    pub fn is_finite(self) -> (yes: bool)
        ensures
            yes == self.finite(),
    {
        self.unsigned() < INFINITY
    }

    /// `self <= 0`.
    pub fn at_most_zero(self) -> (yes: bool)
        ensures
            yes == self.at_most(Real { bits: 0 }),
    {
        let m: u64 = self.unsigned();
        m <= INFINITY && (self.bits >= SIGN || m == 0)
    }

    /// `self < 0`.
    pub fn below_zero(self) -> (yes: bool)
        ensures
            yes == self.less(Real { bits: 0 }),
    {
        let m: u64 = self.unsigned();
        m <= INFINITY && self.bits >= SIGN && m != 0
    }

    /// Whether this is a real below one, or not a number at all.
    pub fn below_one(self) -> (yes: bool)
        ensures
            yes == !(Real { bits: ONE }.at_most(self)),
    {
        if self.bits >= SIGN {
            return true;
        }
        self.bits < ONE || self.bits > INFINITY
    }

    /// `0 <= self && self < 1`.
    pub fn in_unit_interval(self) -> (yes: bool)
        ensures
            yes == (Real { bits: 0 }.at_most(self) && self.less(Real { bits: ONE })),
    {
        if self.bits >= SIGN {
            self.bits == SIGN
        } else {
            self.bits < ONE
        }
    }

    /// `self > other`.
    pub fn exceeds(self, other: Real) -> (yes: bool)
        ensures
            yes == other.less(self),
    {
        let a: u64 = self.unsigned();
        let b: u64 = other.unsigned();
        if a > INFINITY || b > INFINITY {
            false
        } else if self.bits >= SIGN {
            other.bits >= SIGN && a < b
        } else if other.bits >= SIGN {
            a > 0 || b > 0
        } else {
            a > b
        }
    }
}

impl ShortReal {
    /// Whether the sign is set.
    pub open spec fn negative(self) -> bool {
        self.bits >= SHORT_SIGN
    }

    /// The bits without the sign.
    pub open spec fn magnitude(self) -> int {
        if self.negative() {
            self.bits - SHORT_SIGN
        } else {
            self.bits as int
        }
    }

    /// Whether this is not a number.
    pub open spec fn nan(self) -> bool {
        self.magnitude() > SHORT_INFINITY
    }

    /// `self < other`. What is not a number is less than nothing, and nothing is less than it.
    pub open spec fn less(self, other: ShortReal) -> bool {
        !self.nan() && !other.nan() && self.rank() < other.rank()
    }

    /// The place of a number in the order of the numbers.
    pub open spec fn rank(self) -> int {
        if self.negative() {
            -self.magnitude()
        } else {
            self.magnitude()
        }
    }

    /// `self <= other`.
    pub open spec fn at_most(self, other: ShortReal) -> bool {
        !self.nan() && !other.nan() && self.rank() <= other.rank()
    }

    /// `self <= 0`.
    pub fn at_most_zero(self) -> (yes: bool)
        ensures
            yes == self.at_most(ShortReal { bits: 0 }),
    {
        let m: u32 = if self.bits >= SHORT_SIGN {
            self.bits - SHORT_SIGN
        } else {
            self.bits
        };
        m <= SHORT_INFINITY && (self.bits >= SHORT_SIGN || m == 0)
    }
}

/// The order of reals, by their bits: above zero more bits are more, below zero they are less, both
/// zeros are equal, and what is not a number has no place in it.
pub proof fn law_reals_are_ordered(a: u64, b: u64)
    requires
        a < SIGN,
        b < SIGN,
    ensures
        ({
            let x = Real { bits: a };
            let y = Real { bits: b };
            let minus_x = Real { bits: (a + SIGN) as u64 };
            let minus_y = Real { bits: (b + SIGN) as u64 };
            let numbers = a <= 0x7ff0_0000_0000_0000 && b <= 0x7ff0_0000_0000_0000;
            &&& x.less(y) <==> numbers && a < b
            &&& x.at_most(y) <==> numbers && a <= b
            &&& minus_x.less(minus_y) <==> numbers && b < a
            &&& minus_x.at_most(minus_y) <==> numbers && b <= a
            &&& minus_x.less(y) <==> numbers && !(a == 0 && b == 0)
            &&& minus_x.at_most(y) <==> numbers
            &&& !x.less(minus_y)
            &&& x.at_most(minus_y) <==> a == 0 && b == 0
            &&& x.finite() <==> a < 0x7ff0_0000_0000_0000
            &&& minus_x.finite() <==> a < 0x7ff0_0000_0000_0000
        }),
{
}

/// The order of short reals, by their bits, just as that of the long ones.
pub proof fn law_short_reals_are_ordered(a: u32, b: u32)
    requires
        a < SHORT_SIGN,
        b < SHORT_SIGN,
    ensures
        ({
            let x = ShortReal { bits: a };
            let y = ShortReal { bits: b };
            let minus_x = ShortReal { bits: (a + SHORT_SIGN) as u32 };
            let minus_y = ShortReal { bits: (b + SHORT_SIGN) as u32 };
            let numbers = a <= 0x7f80_0000 && b <= 0x7f80_0000;
            &&& x.less(y) <==> numbers && a < b
            &&& x.at_most(y) <==> numbers && a <= b
            &&& minus_x.less(minus_y) <==> numbers && b < a
            &&& minus_x.at_most(minus_y) <==> numbers && b <= a
            &&& minus_x.less(y) <==> numbers && !(a == 0 && b == 0)
            &&& minus_x.at_most(y) <==> numbers
            &&& !x.less(minus_y)
            &&& x.at_most(minus_y) <==> a == 0 && b == 0
        }),
{
}

} // verus!
