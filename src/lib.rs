//! Realized capital gains over a multi-currency inventory of acquired lots.
//!
//! Decimal quantities are held as [`decimal::Dec`] values (a mantissa and a
//! scale); the arithmetic on them is carried out by `rust_decimal`.
use vstd::prelude::*;

pub mod decimal;
pub mod disposal;
pub mod gains;
pub mod holding;
pub mod income;
pub mod method;
pub mod processing;
pub mod selection;
pub mod trade;

verus! {

/// Length of a year in milliseconds: the holding period beyond which a gain is long-term.
pub const YEAR_IN_MILLISECONDS: u64 = 31536000000;

/// Length of a quarter in milliseconds.
pub const QUARTER_IN_MILLISECONDS: u64 = 7776000000;

/// Time from `acquired` to `at`, wrapping around like `u64::wrapping_sub` when `acquired`
/// is later than `at`.
pub open spec fn elapsed(at: u64, acquired: u64) -> int {
    if at >= acquired {
        at - acquired
    } else {
        at - acquired + 0x1_0000_0000_0000_0000
    }
}

/// `at - acquired`, wrapping around when `acquired` is later.
pub fn elapsed_since(at: u64, acquired: u64) -> (r: u64)
    ensures
        r == elapsed(at, acquired),
{
    at.wrapping_sub(acquired)
}

} // verus!
