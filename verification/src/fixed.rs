//! Unsigned fixed-point numbers as the merger uses them.
//!
//! `FixedU64F64` holds the raw bits of a number with 64 integer and 64
//! fractional bits; `FixedU96F32` holds one with 96 integer and 32 fractional
//! bits. The value of a number is `bits / 2^frac`. All arithmetic is done by
//! `substrate_fixed`; the wrappers below state what each call returns.

use vstd::prelude::*;
use substrate_fixed::types::{U64F64, U96F32};

verus! {

/// 2^64, the scale of a `FixedU64F64`.
pub open spec fn scale64() -> int {
    0x1_0000_0000_0000_0000
}

/// 2^32, the scale of a `FixedU96F32`.
pub open spec fn scale32() -> int {
    0x1_0000_0000
}

/// Raw bits of a number with 64 integer and 64 fractional bits.
#[derive(Clone, Copy, Debug, PartialEq, Eq, Structural)]
pub struct FixedU64F64 {
    pub bits: u128,
}

/// Raw bits of a number with 96 integer and 32 fractional bits.
#[derive(Clone, Copy, Debug, PartialEq, Eq, Structural)]
pub struct FixedU96F32 {
    pub bits: u128,
}

/// Saturating addition of raw bits.
pub open spec fn sat_add_bits(a: u128, b: u128) -> u128 {
    if a + b <= u128::MAX {
        (a + b) as u128
    } else {
        u128::MAX
    }
}

/// Saturating subtraction of raw bits.
pub open spec fn sat_sub_bits(a: u128, b: u128) -> u128 {
    if a >= b {
        (a - b) as u128
    } else {
        0
    }
}

/// Quotient of two numbers with `scale` as their common scale, truncated;
/// `None` for a zero divisor or a quotient that does not fit in 128 bits.
pub open spec fn div_bits(a: u128, b: u128, scale: int) -> Option<u128> {
    if b == 0 {
        None
    } else if (a as int) * scale / (b as int) <= u128::MAX {
        Some(((a as int) * scale / (b as int)) as u128)
    } else {
        None
    }
}

/// Product of two numbers with `scale` as their common scale, truncated and
/// saturated at the largest representable number.
pub open spec fn sat_mul_bits(a: u128, b: u128, scale: int) -> u128 {
    if (a as int) * (b as int) / scale <= u128::MAX {
        ((a as int) * (b as int) / scale) as u128
    } else {
        u128::MAX
    }
}

pub open spec fn fx64(bits: u128) -> FixedU64F64 {
    FixedU64F64 { bits }
}

pub open spec fn fx32(bits: u128) -> FixedU96F32 {
    FixedU96F32 { bits }
}

pub open spec fn checked_div64(a: FixedU64F64, b: FixedU64F64) -> Option<FixedU64F64> {
    match div_bits(a.bits, b.bits, scale64()) {
        Some(q) => Some(fx64(q)),
        None => None,
    }
}

pub open spec fn checked_div32(a: FixedU96F32, b: FixedU96F32) -> Option<FixedU96F32> {
    match div_bits(a.bits, b.bits, scale32()) {
        Some(q) => Some(fx32(q)),
        None => None,
    }
}

/// Product truncated to 64 fractional bits; `None` when it does not fit.
pub open spec fn checked_mul64(a: FixedU64F64, b: FixedU64F64) -> Option<FixedU64F64> {
    if (a.bits as int) * (b.bits as int) / scale64() <= u128::MAX {
        Some(fx64(((a.bits as int) * (b.bits as int) / scale64()) as u128))
    } else {
        None
    }
}

pub open spec fn sat_mul64(a: FixedU64F64, b: FixedU64F64) -> FixedU64F64 {
    fx64(sat_mul_bits(a.bits, b.bits, scale64()))
}

pub open spec fn sat_add64(a: FixedU64F64, b: FixedU64F64) -> FixedU64F64 {
    fx64(sat_add_bits(a.bits, b.bits))
}

/// The number `n` as a `FixedU64F64`.
pub open spec fn int64(n: int) -> FixedU64F64 {
    fx64((n * scale64()) as u128)
}

/// The integer part of a `FixedU64F64`.
pub open spec fn floor64(x: FixedU64F64) -> int {
    x.bits as int / scale64()
}

/// Calls `U64F64::from_num` on a `u64`: the number `n` with no fraction.
#[verifier::external_body]
pub(crate) fn u64f64_from_u64(n: u64) -> (r: FixedU64F64)
    ensures
        r.bits == n * scale64(),
{
    FixedU64F64 { bits: U64F64::from_num(n).to_bits() }
}

/// Calls `U64F64::checked_div`: the quotient truncated to 64 fractional bits,
/// `None` when the divisor is zero or the quotient does not fit.
#[verifier::external_body]
pub(crate) fn u64f64_checked_div(a: FixedU64F64, b: FixedU64F64) -> (r: Option<FixedU64F64>)
    ensures
        r == checked_div64(a, b),
{
    match U64F64::from_bits(a.bits).checked_div(U64F64::from_bits(b.bits)) {
        Some(q) => Some(FixedU64F64 { bits: q.to_bits() }),
        None => None,
    }
}

/// Calls `U64F64::checked_mul`: the product truncated to 64 fractional
/// bits, `None` when it does not fit.
#[verifier::external_body]
pub(crate) fn u64f64_checked_mul(a: FixedU64F64, b: FixedU64F64) -> (r: Option<FixedU64F64>)
    ensures
        r == checked_mul64(a, b),
{
    match U64F64::from_bits(a.bits).checked_mul(U64F64::from_bits(b.bits)) {
        Some(q) => Some(FixedU64F64 { bits: q.to_bits() }),
        None => None,
    }
}

/// Calls `U64F64::saturating_mul`: the product truncated to 64 fractional
/// bits, or the largest number when it does not fit.
#[verifier::external_body]
pub(crate) fn u64f64_saturating_mul(a: FixedU64F64, b: FixedU64F64) -> (r: FixedU64F64)
    ensures
        r == sat_mul64(a, b),
{
    FixedU64F64 { bits: U64F64::from_bits(a.bits).saturating_mul(U64F64::from_bits(b.bits)).to_bits() }
}

/// Calls `U64F64::saturating_add`: the sum, or the largest number when it
/// does not fit.
#[verifier::external_body]
pub(crate) fn u64f64_saturating_add(a: FixedU64F64, b: FixedU64F64) -> (r: FixedU64F64)
    ensures
        r == sat_add64(a, b),
{
    FixedU64F64 { bits: U64F64::from_bits(a.bits).saturating_add(U64F64::from_bits(b.bits)).to_bits() }
}

/// Calls the `+` operator of `U64F64` on a sum that fits (it panics otherwise
/// when debug assertions are on).
#[verifier::external_body]
pub(crate) fn u64f64_add(a: FixedU64F64, b: FixedU64F64) -> (r: FixedU64F64)
    requires
        a.bits + b.bits <= u128::MAX,
    ensures
        r.bits == a.bits + b.bits,
{
    FixedU64F64 { bits: (U64F64::from_bits(a.bits) + U64F64::from_bits(b.bits)).to_bits() }
}

/// Calls `U64F64::to_num::<u64>`: the integer part (it always fits).
#[verifier::external_body]
pub(crate) fn u64f64_to_u64(x: FixedU64F64) -> (r: u64)
    ensures
        r == x.bits as int / scale64(),
{
    U64F64::from_bits(x.bits).to_num::<u64>()
}

/// Calls `U64F64::to_num::<i128>`: the integer part (it always fits).
#[verifier::external_body]
pub(crate) fn u64f64_to_i128(x: FixedU64F64) -> (r: i128)
    ensures
        r == x.bits as int / scale64(),
{
    U64F64::from_bits(x.bits).to_num::<i128>()
}

/// Calls `U64F64::from_num` on a `U96F32` whose value fits in 64 integer
/// bits: the same value with 32 more fractional bits.
#[verifier::external_body]
pub(crate) fn u64f64_from_u96f32(p: FixedU96F32) -> (r: FixedU64F64)
    requires
        p.bits < scale64() * scale32(),
    ensures
        r.bits == p.bits * scale32(),
{
    FixedU64F64 { bits: U64F64::from_num(U96F32::from_bits(p.bits)).to_bits() }
}

/// Calls `U96F32::from_num` on a `u64`: the number `n` with no fraction.
#[verifier::external_body]
pub(crate) fn u96f32_from_u64(n: u64) -> (r: FixedU96F32)
    ensures
        r.bits == n * scale32(),
{
    FixedU96F32 { bits: U96F32::from_num(n).to_bits() }
}

/// Calls `U96F32::checked_div`: the quotient truncated to 32 fractional bits,
/// `None` when the divisor is zero or the quotient does not fit.
#[verifier::external_body]
pub(crate) fn u96f32_checked_div(a: FixedU96F32, b: FixedU96F32) -> (r: Option<FixedU96F32>)
    ensures
        r == checked_div32(a, b),
{
    match U96F32::from_bits(a.bits).checked_div(U96F32::from_bits(b.bits)) {
        Some(q) => Some(FixedU96F32 { bits: q.to_bits() }),
        None => None,
    }
}

/// Calls `U96F32::to_num::<u64>` on a number whose integer part fits in a
/// `u64` (it panics otherwise when debug assertions are on): the integer part.
#[verifier::external_body]
pub(crate) fn u96f32_to_u64(x: FixedU96F32) -> (r: u64)
    requires
        x.bits as int / scale32() <= u64::MAX,
    ensures
        r == x.bits as int / scale32(),
{
    U96F32::from_bits(x.bits).to_num::<u64>()
}

impl FixedU64F64 {
    /// The number `n` with no fraction.
    pub fn from_num(n: u64) -> (r: FixedU64F64)
        ensures
            r == int64(n as int),
    {
        u64f64_from_u64(n)
    }

    /// The number whose raw bits are `bits`.
    pub fn from_bits(bits: u128) -> (r: FixedU64F64)
        ensures
            r.bits == bits,
    {
        FixedU64F64 { bits }
    }

    /// The raw bits of the number.
    pub fn to_bits(self) -> (r: u128)
        ensures
            r == self.bits,
    {
        self.bits
    }

    /// The integer part of the number.
    pub fn to_u64(self) -> (r: u64)
        ensures
            r == floor64(self),
    {
        u64f64_to_u64(self)
    }
}

impl FixedU96F32 {
    /// The number `n` with no fraction.
    pub fn from_num(n: u64) -> (r: FixedU96F32)
        ensures
            r.bits == n * scale32(),
    {
        u96f32_from_u64(n)
    }

    /// The number whose raw bits are `bits`.
    pub fn from_bits(bits: u128) -> (r: FixedU96F32)
        ensures
            r.bits == bits,
    {
        FixedU96F32 { bits }
    }
}

} // verus!
