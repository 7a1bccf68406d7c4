//! Numbers read as real numbers, and arithmetic that does not round.
//!
//! What an operation is for is said best of real numbers. A reading gives each [`Number`] its
//! value; an [`Arithmetic`] is exact under a reading where each of its answers is the number with
//! the value that was asked for. Laws on places and sizes hold of exact answers.
use crate::number::{
    is_ceiling, is_difference, is_narrow, is_nearest, is_product, is_quotient, is_root, is_sum,
    is_whole, Arithmetic, Number,
};
use vstd::prelude::*;

verus! {

/// `v` keeps the order of numbers, and gives small whole numbers and simple fractions their values.
pub open spec fn is_reading(v: spec_fn(Number) -> real) -> bool {
    &&& forall|x: Number, y: Number|
        !x.nan() && !y.nan() ==> (#[trigger] x.lt(y) <==> v(x) < v(y))
    &&& forall|x: Number, y: Number|
        !x.nan() && !y.nan() ==> (#[trigger] x.le(y) <==> v(x) <= v(y))
    &&& v(Number { bits: 0 }) == 0real
    &&& v(Number { bits: 0x3ff0_0000_0000_0000 }) == 1real
    &&& v(Number { bits: 0x4000_0000_0000_0000 }) == 2real
    &&& v(Number { bits: 0x4008_0000_0000_0000 }) == 3real
    &&& v(Number { bits: 0x4030_0000_0000_0000 }) == 16real
    &&& v(Number { bits: 0x4034_0000_0000_0000 }) == 20real
    &&& v(Number { bits: 0x4038_0000_0000_0000 }) == 24real
    &&& v(Number { bits: 0x4048_0000_0000_0000 }) == 48real
    &&& v(Number { bits: 0x4058_0000_0000_0000 }) == 96real
    &&& v(Number { bits: 0x3fd0_0000_0000_0000 }) == 1real / 4real
    &&& v(Number { bits: 0x3fe8_0000_0000_0000 }) == 3real / 4real
}

/// `n` is `x` without what comes after the point, or the largest whole number that there is.
pub open spec fn is_floor(x: real, n: i64) -> bool {
    if x < (i64::MAX as int) as real {
        (n as int) as real <= x && x < (n + 1) as real
    } else {
        n == i64::MAX
    }
}

/// Every answer is a number, and has the value that was asked for.
pub open spec fn is_exact<A: Arithmetic>(a: &A, v: spec_fn(Number) -> real) -> bool {
    &&& is_reading(v)
    &&& forall|x: Number, y: Number, r: Number| #[trigger]
        is_sum(a, x, y, r) ==> !r.nan() && v(r) == v(x) + v(y)
    &&& forall|x: Number, y: Number, r: Number| #[trigger]
        is_difference(a, x, y, r) ==> !r.nan() && v(r) == v(x) - v(y)
    &&& forall|x: Number, y: Number, r: Number| #[trigger]
        is_product(a, x, y, r) ==> !r.nan() && v(r) == v(x) * v(y)
    &&& forall|x: Number, y: Number, r: Number| #[trigger]
        is_quotient(a, x, y, r) && v(y) != 0real ==> !r.nan() && v(r) * v(y) == v(x)
    &&& forall|n: i128, r: Number| #[trigger]
        call_ensures(A::number, (a, n), r) ==> !r.nan() && v(r) == (n as int) as real
    &&& forall|x: Number, n: i64| #[trigger]
        is_whole(a, x, n) && 0real <= v(x) ==> is_floor(v(x), n)
}

/// Square roots are exact.
pub open spec fn has_exact_roots<A: Arithmetic>(a: &A, v: spec_fn(Number) -> real) -> bool {
    &&& forall|x: Number, r: Number| #[trigger]
        is_root(a, x, r) && 0real <= v(x) ==> !r.nan() && 0real <= v(r) && v(r) * v(r) == v(x)
    &&& forall|x: Number, r: Number| #[trigger]
        is_ceiling(a, x, r) ==> !r.nan() && v(x) <= v(r) && v(r) < v(x) + 1real && (
        v(r).floor() as real) == v(r)
}

/// Whole numbers are found by rounding, halves away from zero.
pub open spec fn rounds_to_nearest<A: Arithmetic>(a: &A, v: spec_fn(Number) -> real) -> bool {
    forall|x: Number, r: Number| #[trigger]
        is_nearest(a, x, r) ==> !r.nan() && v(r) == v(r).floor() as real && v(x) - 1real / 2real
            <= v(r) && v(r) <= v(x) + 1real / 2real
}

/// A whole number is cut to itself, and single precision holds the value.
pub open spec fn keeps_values<A: Arithmetic>(a: &A, v: spec_fn(Number) -> real) -> bool {
    &&& forall|x: Number, n: i64| #[trigger]
        is_whole(a, x, n) && v(x) == v(x).floor() as real && i64::MIN <= v(x).floor() <= i64::MAX
            ==> n == v(x).floor()
    &&& forall|x: Number, r: Number| #[trigger] is_narrow(a, x, r) ==> !r.nan() && v(r) == v(x)
}

/// The larger of two.
pub open spec fn larger(x: real, y: real) -> real {
    if x < y {
        y
    } else {
        x
    }
}

/// The smaller of two.
pub open spec fn smaller(x: real, y: real) -> real {
    if y < x {
        y
    } else {
        x
    }
}

/// A quotient is the value divided.
pub(crate) proof fn lemma_quotient<A: Arithmetic>(
    a: &A,
    v: spec_fn(Number) -> real,
    x: Number,
    y: Number,
    r: Number,
)
    requires
        is_exact(a, v),
        is_quotient(a, x, y, r),
        v(y) != 0real,
    ensures
        !r.nan(),
        v(r) == v(x) / v(y),
{
    let (p, q, s) = (v(x), v(y), v(r));
    assert(s == p / q) by (nonlinear_arith)
        requires
            s * q == p,
            q != 0real,
    ;
}

} // verus!
