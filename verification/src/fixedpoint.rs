//! Fixed-point cost arithmetic.
//!
//! Every cost, weight and n-gram frequency in this crate is a non-negative
//! fixed-point number held in a `u64`: the value `v` stands for the real
//! number `v / FP_SCALE`.  Sums saturate at `u64::MAX` and divisions by
//! zero yield zero, so every operation is total and deterministic.

use vstd::prelude::*;

verus! {

/// Number of fixed-point units per 1.0 of cost or weight.
pub const FP_SCALE: u64 = 1000000;

/// Saturating addition on the mathematical integers, clamped to `u64`.
pub open spec fn sat_add_spec(a: int, b: int) -> int {
    if a + b > u64::MAX {
        u64::MAX as int
    } else {
        a + b
    }
}

/// Quotient `n / d`, clamped to `u64`; zero when the divisor is not positive.
///
/// This is the total model of all fixed-point divisions: a zero divisor
/// (the NaN and infinity cases of real arithmetic) resolves to cost 0.
pub open spec fn divq_spec(n: int, d: int) -> int {
    if d <= 0 {
        0
    } else if n / d > u64::MAX {
        u64::MAX as int
    } else {
        n / d
    }
}

/// Product scaled down by a divisor: `a * b / c`, clamped, total.
pub open spec fn mul_div_spec(a: int, b: int, c: int) -> int {
    divq_spec(a * b, c)
}

/// Saturating addition of two fixed-point values.
pub fn sat_add(a: u64, b: u64) -> (r: u64)
    ensures
        r == sat_add_spec(a as int, b as int),
{
    a.saturating_add(b)
}

/// `a * b / c` with an exact 128-bit intermediate product; 0 when `c == 0`.
///
/// Weighting a cost is `mul_div(weight, cost, FP_SCALE)`; dividing a cost
/// by a fixed-point divisor `c` is `mul_div(cost, FP_SCALE, c)`.
pub fn mul_div(a: u64, b: u64, c: u64) -> (r: u64)
    ensures
        r == mul_div_spec(a as int, b as int, c as int),
{
    proof {
        assert(0 <= (a as int) * (b as int) <= u128::MAX as int)
            by (nonlinear_arith)
            requires a <= u64::MAX && b <= u64::MAX;
    }
    if c == 0 {
        return 0;
    }
    let p: u128 = (a as u128) * (b as u128);
    let q: u128 = p / (c as u128);
    if q > u64::MAX as u128 {
        u64::MAX
    } else {
        q as u64
    }
}

} // verus!
