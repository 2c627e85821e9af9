//! Integer division and remainder that wrap seamlessly across zero, so that
//! negative world coordinates continue the positive cycle.

use vstd::prelude::*;

verus! {

/// Quotient that rounds toward negative infinity, so chunk indexing is a
/// stable bijection across the origin. The divisor is a chunk dimension and
/// therefore positive; the wrapping cycle is only meaningful for a positive
/// period, so the contract keeps that bound rather than picking a convention
/// for negative divisors. In specifications `dividend / divisor` is
/// Euclidean division, which for a positive divisor is exactly this floor
/// division.
pub fn wrapping_quotient(dividend: i32, divisor: i32) -> (r: i32)
    requires
        divisor > 0,
    ensures
        r == dividend as int / divisor as int,
{
    proof {
        let d = dividend as int;
        let v = divisor as int;
        assert(i32::MIN <= d / v <= i32::MAX) by (nonlinear_arith)
            requires
                v > 0,
                i32::MIN <= d <= i32::MAX,
        ;
    }
    dividend.checked_div_euclid(divisor).unwrap()
}

/// Remainder paired with `wrapping_quotient`; always in `[0, divisor)` for
/// the same positive divisor.
pub fn wrapping_remainder(dividend: i32, divisor: i32) -> (r: i32)
    requires
        divisor > 0,
    ensures
        r == dividend as int % divisor as int,
        0 <= r < divisor,
{
    dividend.checked_rem_euclid(divisor).unwrap()
}

} // verus!
