//! Conversion of each holder's stake when two pools merge, and the TAO a
//! stake redeems for.

use vstd::prelude::*;
use crate::fixed::{
    FixedU64F64, checked_div64, checked_mul64, int64, sat_add64, sat_mul64, u64f64_checked_div, u64f64_checked_mul,
    u64f64_from_u64, u64f64_saturating_add, u64f64_saturating_mul,
};
use crate::state::Pallet;
use crate::types::Error;

verus! {

/// New stake of a holder of `alpha_i` of the surviving pool:
/// `α'_i = α_i / (1 + (τ_β / (τ_α + τ_β)) · (α_i / α))`, each step rounded
/// as the fixed-point operations round; `None` where a division fails.
pub open spec fn alpha_holder_conversion(
    alpha_i: FixedU64F64,
    alpha_total: FixedU64F64,
    tao_alpha: FixedU64F64,
    tao_beta: FixedU64F64,
) -> Option<FixedU64F64> {
    let tao_total = sat_add64(tao_alpha, tao_beta);
    match checked_div64(alpha_i, alpha_total) {
        None => None,
        Some(stake_ratio) => match checked_div64(tao_beta, tao_total) {
            None => None,
            Some(tao_factor) => {
                let denominator = sat_add64(int64(1), sat_mul64(tao_factor, stake_ratio));
                checked_div64(alpha_i, denominator)
            },
        },
    }
}

/// New stake, in the surviving pool, of a holder of `beta_i` of the merged
/// pool: `β'_i = β_i / (1 + (τ_α / (τ_α + τ_β)) · (β_i / β)) · (p_β / p_α)`,
/// each step rounded as the fixed-point operations round; `None` where a
/// division fails.
pub open spec fn beta_holder_conversion(
    beta_i: FixedU64F64,
    beta_total: FixedU64F64,
    tao_alpha: FixedU64F64,
    tao_beta: FixedU64F64,
    p_beta: FixedU64F64,
    p_alpha: FixedU64F64,
) -> Option<FixedU64F64> {
    let tao_total = sat_add64(tao_alpha, tao_beta);
    match checked_div64(beta_i, beta_total) {
        None => None,
        Some(stake_ratio) => match checked_div64(tao_alpha, tao_total) {
            None => None,
            Some(tao_factor) => {
                let denominator = sat_add64(int64(1), sat_mul64(tao_factor, stake_ratio));
                match checked_div64(beta_i, denominator) {
                    None => None,
                    Some(beta_converted) => match checked_div64(p_beta, p_alpha) {
                        None => None,
                        Some(price_ratio) => Some(sat_mul64(beta_converted, price_ratio)),
                    },
                }
            },
        },
    }
}

/// TAO that `stake` redeems for against a pool holding `tao_reserve` and
/// `alpha_reserve`: `(τ · s) / (α + s)`, rounded as the fixed-point
/// operations round, zero where the division fails. Where `τ · s` does not
/// fit, it is computed as `τ · (s / (α + s))`.
#[verifier::opaque]
pub open spec fn redeemability(
    stake: FixedU64F64,
    tao_reserve: FixedU64F64,
    alpha_reserve: FixedU64F64,
) -> FixedU64F64 {
    let denominator = sat_add64(alpha_reserve, stake);
    match checked_mul64(stake, tao_reserve) {
        Some(numerator) => match checked_div64(numerator, denominator) {
            Some(q) => q,
            None => int64(0),
        },
        None => match checked_div64(stake, denominator) {
            Some(share) => sat_mul64(tao_reserve, share),
            None => int64(0),
        },
    }
}

/// A conversion result as a merger reports it: a failed division is an
/// arithmetic overflow.
pub open spec fn or_overflow(r: Option<FixedU64F64>) -> Result<FixedU64F64, Error> {
    match r {
        Some(v) => Ok(v),
        None => Err(Error::Overflow),
    }
}

impl Pallet {
    /// Converts the stake of a holder of the surviving pool:
    /// holders of the surviving pool are diluted by the added liquidity.
    pub fn convert_alpha_holder(
        alpha_i: FixedU64F64,
        alpha_total: FixedU64F64,
        tao_alpha: FixedU64F64,
        tao_beta: FixedU64F64,
    ) -> (r: Result<FixedU64F64, Error>)
        ensures
            r == or_overflow(alpha_holder_conversion(alpha_i, alpha_total, tao_alpha, tao_beta)),
    {
        let tao_total = u64f64_saturating_add(tao_alpha, tao_beta);
        let stake_ratio = match u64f64_checked_div(alpha_i, alpha_total) {
            Some(v) => v,
            None => return Err(Error::Overflow),
        };
        let tao_factor = match u64f64_checked_div(tao_beta, tao_total) {
            Some(v) => v,
            None => return Err(Error::Overflow),
        };
        let product = u64f64_saturating_mul(tao_factor, stake_ratio);
        let denominator = u64f64_saturating_add(u64f64_from_u64(1), product);
        match u64f64_checked_div(alpha_i, denominator) {
            Some(v) => Ok(v),
            None => Err(Error::Overflow),
        }
    }

    /// Converts the stake of a holder of the merged pool into stake of the
    /// surviving pool: a liquidity adjustment and the ratio of
    /// the two prices.
    pub fn convert_beta_holder(
        beta_i: FixedU64F64,
        beta_total: FixedU64F64,
        tao_alpha: FixedU64F64,
        tao_beta: FixedU64F64,
        p_beta: FixedU64F64,
        p_alpha: FixedU64F64,
    ) -> (r: Result<FixedU64F64, Error>)
        ensures
            r == or_overflow(
                beta_holder_conversion(beta_i, beta_total, tao_alpha, tao_beta, p_beta, p_alpha),
            ),
    {
        let tao_total = u64f64_saturating_add(tao_alpha, tao_beta);
        let stake_ratio = match u64f64_checked_div(beta_i, beta_total) {
            Some(v) => v,
            None => return Err(Error::Overflow),
        };
        let tao_factor = match u64f64_checked_div(tao_alpha, tao_total) {
            Some(v) => v,
            None => return Err(Error::Overflow),
        };
        let product = u64f64_saturating_mul(tao_factor, stake_ratio);
        let denominator = u64f64_saturating_add(u64f64_from_u64(1), product);
        let beta_converted = match u64f64_checked_div(beta_i, denominator) {
            Some(v) => v,
            None => return Err(Error::Overflow),
        };
        let price_ratio = match u64f64_checked_div(p_beta, p_alpha) {
            Some(v) => v,
            None => return Err(Error::Overflow),
        };
        Ok(u64f64_saturating_mul(beta_converted, price_ratio))
    }

    /// TAO that `stake` redeems for (constant product: `Δy = y·Δx / (x + Δx)`).
    pub fn calculate_redeemability(
        stake: FixedU64F64,
        tao_reserve: FixedU64F64,
        alpha_reserve: FixedU64F64,
    ) -> (r: FixedU64F64)
        ensures
            r == redeemability(stake, tao_reserve, alpha_reserve),
    {
        reveal(redeemability);
        let denominator = u64f64_saturating_add(alpha_reserve, stake);
        match u64f64_checked_mul(stake, tao_reserve) {
            Some(numerator) => match u64f64_checked_div(numerator, denominator) {
                Some(q) => q,
                None => u64f64_from_u64(0),
            },
            None => match u64f64_checked_div(stake, denominator) {
                Some(share) => u64f64_saturating_mul(tao_reserve, share),
                None => u64f64_from_u64(0),
            },
        }
    }
}

} // verus!
