//! Fixed-point arithmetic for the yield curve.
//!
//! Every fixed-point number is carried as its raw bits in a `u128`, with 64
//! fractional bits: raw bits `r` encode the value `r / 2^64`. Addition and
//! comparison of such numbers are plain `u128` addition and comparison; the
//! two wide operations, multiplication and division, are done by
//! `substrate_fixed`'s `U64F64` behind checked, trusted wrappers.

use vstd::prelude::*;
use vstd::arithmetic::mul::lemma_mul_inequality;
use substrate_fixed::types::U64F64;

verus! {

/// One whole unit: 2^64, the raw bits of the fixed-point number 1.
pub const FX_ONE: u128 = 0x1_0000_0000_0000_0000;

/// The raw bits of the product of two fixed-point numbers: the exact
/// product of the raw bits, scaled back down (truncating).
pub open spec fn fx_mul_val(a: int, b: int) -> int {
    (a * b) / (FX_ONE as int)
}

/// Whether the product's raw bits fit in 128 bits.
pub open spec fn fx_mul_ok(a: int, b: int) -> bool {
    fx_mul_val(a, b) <= u128::MAX
}

/// The raw bits of the quotient of two fixed-point numbers: the dividend's
/// raw bits scaled up, divided by the divisor's raw bits (truncating).
/// Meaningful only for `b != 0`.
pub open spec fn fx_div_val(a: int, b: int) -> int {
    (a * (FX_ONE as int)) / b
}

/// Whether the quotient exists and its raw bits fit in 128 bits.
pub open spec fn fx_div_ok(a: int, b: int) -> bool {
    b != 0 && fx_div_val(a, b) <= u128::MAX
}

/// Relies on `substrate_fixed`'s `U64F64::checked_mul` (via
/// `mul_overflow` on `u128` with 64 fractional bits): it returns the full
/// 256-bit product of the raw bits shifted down by 64, or `None` exactly
/// when that value does not fit in 128 bits.
#[verifier::external_body]
pub fn fx_mul(a: u128, b: u128) -> (r: Option<u128>)
    ensures
        fx_mul_ok(a as int, b as int) ==> r == Some(fx_mul_val(a as int, b as int) as u128),
        !fx_mul_ok(a as int, b as int) ==> r is None,
{
    match U64F64::from_bits(a).checked_mul(U64F64::from_bits(b)) {
        Some(v) => Some(v.to_bits()),
        None => None,
    }
}

/// Relies on `substrate_fixed`'s `U64F64::checked_div` (via
/// `div_overflow` on `u128` with 64 fractional bits): it returns the raw
/// bits of the dividend shifted up by 64 and divided by the divisor's raw
/// bits, or `None` exactly when the divisor is zero or the quotient does
/// not fit in 128 bits.
#[verifier::external_body]
pub fn fx_div(a: u128, b: u128) -> (r: Option<u128>)
    ensures
        fx_div_ok(a as int, b as int) ==> r == Some(fx_div_val(a as int, b as int) as u128),
        !fx_div_ok(a as int, b as int) ==> r is None,
{
    match U64F64::from_bits(a).checked_div(U64F64::from_bits(b)) {
        Some(v) => Some(v.to_bits()),
        None => None,
    }
}

/// The raw bits that encode the whole number `n` exactly.
pub open spec fn fx_from_val(n: u64) -> int {
    n * (FX_ONE as int)
}

/// Encode a whole number as fixed-point raw bits; never overflows.
pub fn fx_from_u64(n: u64) -> (r: u128)
    ensures
        r == fx_from_val(n),
{
    proof {
        lemma_mul_inequality(n as int, u64::MAX as int, FX_ONE as int);
    }
    (n as u128) * FX_ONE
}

/// Checked addition of raw bits (fixed-point addition is bit addition).
pub fn fx_add(a: u128, b: u128) -> (r: Option<u128>)
    ensures
        a + b <= u128::MAX ==> r == Some((a + b) as u128),
        a + b > u128::MAX ==> r is None,
{
    if a <= u128::MAX - b {
        Some(a + b)
    } else {
        None
    }
}

} // verus!
