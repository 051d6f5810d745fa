pub mod alerts;
pub mod analysis;
pub mod arbitrage;
pub mod clock;
pub mod config;
pub mod conflicts;
pub mod criteria;
pub mod differ;
pub mod evaluator;
pub mod insights;
pub mod metric;
pub mod metrics;
pub mod program;
pub mod programs;
pub mod recommend;
pub mod text;
pub mod vulnerability;
pub mod whatif;

use vstd::prelude::*;

verus! {

/// Fixed-point scale: all fractional quantities are stored as integer
/// multiples of one ten-thousandth.
pub const FP_SCALE: i64 = 10_000;

/// Largest magnitude a stored quantity may take; keeps all arithmetic
/// in this crate free of overflow.
pub const FP_LIMIT: i64 = 100_000_000_000_000;

/// A quantity is representable when its magnitude stays under the global limit.
pub open spec fn fp_valid(v: i64) -> bool {
    -FP_LIMIT <= v <= FP_LIMIT
}

/// Division rounding toward zero (for positive divisors), as the
/// machine's signed division behaves.
pub open spec fn tdiv(a: int, b: int) -> int {
    if a >= 0 {
        a / b
    } else {
        -((-a) / b)
    }
}

} // verus!
