//! Floating-point numbers, held by their bits.
//!
//! A [`Number`] is a double-precision value in its IEEE 754 binary form. Its sign, whether it is a
//! number at all, and how it compares with another are read off the bits, so everything that is
//! decided by comparing numbers is decided here. Computing new numbers is left to an
//! [`Arithmetic`], about which nothing is assumed: contracts name what it was asked and what it
//! answered.
use vstd::prelude::*;

verus! {

/// The bit that holds the sign.
pub const SIGN: u64 = 0x8000_0000_0000_0000;

/// The bits of positive infinity; a larger magnitude is not a number.
pub const INFINITY: u64 = 0x7ff0_0000_0000_0000;

/// The bits of `1`.
pub const ONE: u64 = 0x3ff0_0000_0000_0000;

/// The bits of `2`.
pub const TWO: u64 = 0x4000_0000_0000_0000;

/// A double-precision floating-point value.
#[derive(Clone, Copy, Debug)]
pub struct Number {
    /// The IEEE 754 binary representation.
    pub bits: u64,
}

impl Number {
    /// The bits without the sign.
    pub open spec fn magnitude(self) -> int {
        if self.bits >= SIGN {
            self.bits - SIGN
        } else {
            self.bits as int
        }
    }

    /// Whether the value is not a number.
    pub open spec fn nan(self) -> bool {
        self.magnitude() > INFINITY
    }

    /// The place of the value in the order of numbers; both zeros have place `0`.
    pub open spec fn rank(self) -> int {
        if self.bits >= SIGN {
            -self.magnitude()
        } else {
            self.magnitude()
        }
    }

    /// `self < other`.
    pub open spec fn lt(self, other: Number) -> bool {
        !self.nan() && !other.nan() && self.rank() < other.rank()
    }

    /// `self <= other`.
    pub open spec fn le(self, other: Number) -> bool {
        !self.nan() && !other.nan() && self.rank() <= other.rank()
    }

    /// `self == other`: false where either side is not a number, true of the two zeros.
    pub open spec fn same(self, other: Number) -> bool {
        !self.nan() && !other.nan() && self.rank() == other.rank()
    }

    /// The smaller of the two; the other one where one is not a number.
    pub open spec fn lesser(self, other: Number) -> Number {
        if self.nan() || other.lt(self) {
            other
        } else {
            self
        }
    }

    /// The larger of the two; the other one where one is not a number.
    pub open spec fn greater(self, other: Number) -> Number {
        if self.nan() || self.lt(other) {
            other
        } else {
            self
        }
    }

    /// `self` brought into `low ..= high`.
    pub open spec fn clamped(self, low: Number, high: Number) -> Number {
        if self.lt(low) {
            low
        } else if high.lt(self) {
            high
        } else {
            self
        }
    }

    /// `-self`.
    pub open spec fn opposite(self) -> Number {
        if self.bits >= SIGN {
            Number { bits: (self.bits - SIGN) as u64 }
        } else {
            Number { bits: (self.bits + SIGN) as u64 }
        }
    }

    /// The value with the given bits.
    pub fn new(bits: u64) -> (number: Number)
        ensures
            number == (Number { bits }),
    {
        Number { bits }
    }

    /// The value `0`.
    pub fn zero() -> (number: Number)
        ensures
            number == (Number { bits: 0 }),
    {
        Number { bits: 0 }
    }

    fn place(self) -> (place: i64)
        ensures
            place == self.rank(),
    {
        if self.bits >= SIGN {
            -((self.bits - SIGN) as i64)
        } else {
            self.bits as i64
        }
    }

    /// Whether the value is not a number.
    pub fn is_nan(self) -> (result: bool)
        ensures
            result == self.nan(),
    {
        if self.bits >= SIGN {
            self.bits - SIGN > INFINITY
        } else {
            self.bits > INFINITY
        }
    }

    /// `self < other`.
    pub fn is_lt(self, other: Number) -> (result: bool)
        ensures
            result == self.lt(other),
    {
        !self.is_nan() && !other.is_nan() && self.place() < other.place()
    }

    /// `self <= other`.
    pub fn is_le(self, other: Number) -> (result: bool)
        ensures
            result == self.le(other),
    {
        !self.is_nan() && !other.is_nan() && self.place() <= other.place()
    }

    /// `self == other`.
    pub fn is_same(self, other: Number) -> (result: bool)
        ensures
            result == self.same(other),
    {
        !self.is_nan() && !other.is_nan() && self.place() == other.place()
    }

    /// The smaller of the two.
    pub fn min(self, other: Number) -> (result: Number)
        ensures
            result == self.lesser(other),
    {
        if self.is_nan() || other.is_lt(self) {
            other
        } else {
            self
        }
    }

    /// The larger of the two.
    pub fn max(self, other: Number) -> (result: Number)
        ensures
            result == self.greater(other),
    {
        if self.is_nan() || self.is_lt(other) {
            other
        } else {
            self
        }
    }

    /// The value brought into `low ..= high`. A value that is not a number stays as it is.
    pub fn clamp(self, low: Number, high: Number) -> (result: Number)
        requires
            low.le(high),
        ensures
            result == self.clamped(low, high),
    {
        if self.is_lt(low) {
            low
        } else if high.is_lt(self) {
            high
        } else {
            self
        }
    }

    /// The value with the other sign.
    pub fn neg(self) -> (result: Number)
        ensures
            result == self.opposite(),
            result.rank() == -self.rank(),
            result.nan() == self.nan(),
    {
        if self.bits >= SIGN {
            Number { bits: self.bits - SIGN }
        } else {
            Number { bits: self.bits + SIGN }
        }
    }
}

/// What computes with numbers.
///
/// The methods carry no contract: a caller learns only that an answer was given.
pub trait Arithmetic {
    /// `x + y`.
    fn sum(&self, x: Number, y: Number) -> Number;

    /// `x - y`.
    fn difference(&self, x: Number, y: Number) -> Number;

    /// `x * y`.
    fn product(&self, x: Number, y: Number) -> Number;

    /// `x / y`.
    fn quotient(&self, x: Number, y: Number) -> Number;

    /// The square root of `x`.
    fn root(&self, x: Number) -> Number;

    /// The least whole number that is not below `x`.
    fn ceiling(&self, x: Number) -> Number;

    /// The nearest whole number, halves away from zero.
    fn nearest(&self, x: Number) -> Number;

    /// `x` rounded to single precision.
    fn narrow(&self, x: Number) -> Number;

    /// The whole number `n` as a number.
    fn number(&self, n: i128) -> Number;

    /// `x` cut to a whole number: the nearest bound where it is out of range, and `0` where it is
    /// not a number.
    fn whole(&self, x: Number) -> i64;

    /// A span of nanoseconds in seconds.
    fn seconds(&self, nanos: u128) -> Number;
}

/// The whole number, or the nearest bound where it does not fit into 32 bits.
pub open spec fn saturated(n: i64) -> int {
    if n < i32::MIN {
        i32::MIN as int
    } else if n > i32::MAX {
        i32::MAX as int
    } else {
        n as int
    }
}

/// The whole number, or the nearest bound where it does not fit into 32 bits.
pub fn saturate(n: i64) -> (result: i32)
    ensures
        result == saturated(n),
{
    if n < -0x8000_0000 {
        -0x8000_0000
    } else if n > 0x7fff_ffff {
        0x7fff_ffff
    } else {
        n as i32
    }
}

/// `r` was answered for `x + y`.
#[verifier::inline]
pub open spec fn is_sum<A: Arithmetic>(a: &A, x: Number, y: Number, r: Number) -> bool {
    call_ensures(A::sum, (a, x, y), r)
}

/// `r` was answered for `x - y`.
#[verifier::inline]
pub open spec fn is_difference<A: Arithmetic>(a: &A, x: Number, y: Number, r: Number) -> bool {
    call_ensures(A::difference, (a, x, y), r)
}

/// `r` was answered for `x * y`.
#[verifier::inline]
pub open spec fn is_product<A: Arithmetic>(a: &A, x: Number, y: Number, r: Number) -> bool {
    call_ensures(A::product, (a, x, y), r)
}

/// `r` was answered for `x / y`.
#[verifier::inline]
pub open spec fn is_quotient<A: Arithmetic>(a: &A, x: Number, y: Number, r: Number) -> bool {
    call_ensures(A::quotient, (a, x, y), r)
}

/// `r` was answered for the square root of `x`.
#[verifier::inline]
pub open spec fn is_root<A: Arithmetic>(a: &A, x: Number, r: Number) -> bool {
    call_ensures(A::root, (a, x), r)
}

/// `r` was answered for the ceiling of `x`.
#[verifier::inline]
pub open spec fn is_ceiling<A: Arithmetic>(a: &A, x: Number, r: Number) -> bool {
    call_ensures(A::ceiling, (a, x), r)
}

/// `r` was answered for the whole number nearest to `x`.
#[verifier::inline]
pub open spec fn is_nearest<A: Arithmetic>(a: &A, x: Number, r: Number) -> bool {
    call_ensures(A::nearest, (a, x), r)
}

/// `r` was answered for `x` in single precision.
#[verifier::inline]
pub open spec fn is_narrow<A: Arithmetic>(a: &A, x: Number, r: Number) -> bool {
    call_ensures(A::narrow, (a, x), r)
}

/// `r` was answered for the whole number `n`.
#[verifier::inline]
pub open spec fn is_number<A: Arithmetic>(a: &A, n: int, r: Number) -> bool {
    call_ensures(A::number, (a, n as i128), r)
}

/// `r` was answered for `x` cut to a whole number.
#[verifier::inline]
pub open spec fn is_whole<A: Arithmetic>(a: &A, x: Number, r: i64) -> bool {
    call_ensures(A::whole, (a, x), r)
}

/// `r` was answered for a span of `nanos` nanoseconds in seconds.
#[verifier::inline]
pub open spec fn is_seconds<A: Arithmetic>(a: &A, nanos: u128, r: Number) -> bool {
    call_ensures(A::seconds, (a, nanos), r)
}

/// Every question has one answer: asked the same again, the same is answered.
pub open spec fn is_steady<A: Arithmetic>(a: &A) -> bool {
    &&& forall|x: Number, y: Number, r: Number, s: Number| #[trigger]
        is_sum(a, x, y, r) && #[trigger] is_sum(a, x, y, s) ==> r == s
    &&& forall|x: Number, y: Number, r: Number, s: Number| #[trigger]
        is_difference(a, x, y, r) && #[trigger] is_difference(a, x, y, s) ==> r == s
    &&& forall|x: Number, y: Number, r: Number, s: Number| #[trigger]
        is_product(a, x, y, r) && #[trigger] is_product(a, x, y, s) ==> r == s
    &&& forall|x: Number, y: Number, r: Number, s: Number| #[trigger]
        is_quotient(a, x, y, r) && #[trigger] is_quotient(a, x, y, s) ==> r == s
    &&& forall|n: i128, r: Number, s: Number| #[trigger]
        call_ensures(A::number, (a, n), r) && #[trigger] call_ensures(A::number, (a, n), s) ==> r
            == s
}

/// A side scaled by no more than what the bound allows is within the bound.
pub open spec fn stays_within<A: Arithmetic>(a: &A, side: Number, bound: Number) -> bool {
    forall|j: Number, k: Number, p: Number|
        #![trigger is_quotient(a, bound, side, k), is_product(a, side, j, p)]
        is_quotient(a, bound, side, k) && j.le(k) && is_product(a, side, j, p) ==> p.le(bound)
}

/// Numbers are ordered by their bits: positive ones as they are, negative ones the other way round,
/// negative ones before positive ones, and both zeros alike. What is beyond infinity is not a
/// number, and compares with nothing.
pub proof fn numbers_are_ordered_by_their_bits(x: Number, y: Number)
    ensures
        x.bits <= 0x7ff0_0000_0000_0000 && y.bits <= 0x7ff0_0000_0000_0000 ==> {
            &&& x.lt(y) <==> x.bits < y.bits
            &&& x.le(y) <==> x.bits <= y.bits
            &&& x.same(y) <==> x.bits == y.bits
        },
        0x8000_0000_0000_0000 <= x.bits <= 0xfff0_0000_0000_0000 && 0x8000_0000_0000_0000 <= y.bits
            <= 0xfff0_0000_0000_0000 ==> {
            &&& x.lt(y) <==> x.bits > y.bits
            &&& x.le(y) <==> x.bits >= y.bits
            &&& x.same(y) <==> x.bits == y.bits
        },
        0x8000_0000_0000_0000 <= x.bits <= 0xfff0_0000_0000_0000 && y.bits <= 0x7ff0_0000_0000_0000
            ==> {
            &&& x.le(y)
            &&& !y.lt(x)
            &&& x.lt(y) <==> x.bits != 0x8000_0000_0000_0000 || y.bits != 0
            &&& x.same(y) <==> x.bits == 0x8000_0000_0000_0000 && y.bits == 0
        },
        0x7ff0_0000_0000_0000 < x.bits < 0x8000_0000_0000_0000 || 0xfff0_0000_0000_0000 < x.bits ==> {
            &&& x.nan()
            &&& !x.lt(y) && !y.lt(x) && !x.le(y) && !y.le(x) && !x.same(y) && !y.same(x)
        },
{
}

/// The smaller and the larger of two numbers are the two, in their order, and a clamped number is
/// the nearest one between the bounds.
pub proof fn smaller_larger_and_clamped(x: Number, y: Number, low: Number, high: Number)
    requires
        !x.nan(),
        !y.nan(),
        low.le(high),
    ensures
        x.lesser(y).le(x) && x.lesser(y).le(y),
        x.le(x.greater(y)) && y.le(x.greater(y)),
        x.lesser(y) == x || x.lesser(y) == y,
        x.greater(y) == x || x.greater(y) == y,
        low.le(x.clamped(low, high)) && x.clamped(low, high).le(high),
        low.le(x) && x.le(high) ==> x.clamped(low, high) == x,
        x.lt(low) ==> x.clamped(low, high) == low,
        high.lt(x) ==> x.clamped(low, high) == high,
{
}

/// The other sign turns the order round.
pub proof fn other_sign_turns_the_order_round(x: Number, y: Number)
    ensures
        x.opposite().opposite() == x,
        x.lt(y) <==> y.opposite().lt(x.opposite()),
        x.opposite().bits != x.bits,
        x.opposite().nan() == x.nan(),
{
}

} // verus!
