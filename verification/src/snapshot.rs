//! Snapshots of a subnet's pool and the liquidity checks built on them.

use vstd::prelude::*;
use crate::fixed::{FixedU96F32, checked_div32, fx32, scale32, u96f32_checked_div, u96f32_from_u64};
use crate::stakes::count_stakers;
use crate::state::{Pallet, PalletModel, get_u64, read_u64};
use crate::types::{Error, NetUid, PoolSnapshot};

verus! {

/// `n` capped at the largest `u32`.
pub open spec fn cap_u32(n: nat) -> u32 {
    if n <= u32::MAX {
        n as u32
    } else {
        u32::MAX
    }
}

/// Price of a pool holding `tao` and `alpha`: `τ / α`, zero for an empty
/// alpha side, `None` where the division fails.
pub open spec fn pool_price(tao: u64, alpha: u64) -> Option<FixedU96F32> {
    if alpha != 0 {
        checked_div32(fx32((tao * scale32()) as u128), fx32((alpha * scale32()) as u128))
    } else {
        Some(fx32(0))
    }
}

/// The snapshot of `netuid`'s pool in state `s`, or why it cannot be taken.
pub open spec fn snapshot_of(s: PalletModel, netuid: NetUid) -> Result<PoolSnapshot, Error> {
    let tao_base = get_u64(s.subnet_tao, netuid);
    let tao_provided = get_u64(s.subnet_tao_provided, netuid);
    let alpha_base = get_u64(s.subnet_alpha_in, netuid);
    let alpha_provided = get_u64(s.subnet_alpha_in_provided, netuid);
    if tao_base + tao_provided > u64::MAX {
        Err(Error::ReserveOverflow)
    } else if alpha_base + alpha_provided > u64::MAX {
        Err(Error::ReserveOverflow)
    } else {
        let tao = (tao_base + tao_provided) as u64;
        let alpha = (alpha_base + alpha_provided) as u64;
        match pool_price(tao, alpha) {
            None => Err(Error::Overflow),
            Some(price) => Ok(
                PoolSnapshot {
                    tao_reserve: tao,
                    alpha_reserve: alpha,
                    alpha_out: get_u64(s.subnet_alpha_out, netuid),
                    price,
                    total_stakers: cap_u32(count_stakers(s.stakes, netuid)),
                },
            ),
        }
    }
}

/// Whether both pools can be merged as far as their liquidity goes.
pub open spec fn liquidity_check(s: PalletModel, alpha: NetUid, beta: NetUid) -> Result<(), Error> {
    match snapshot_of(s, alpha) {
        Err(e) => Err(e),
        Ok(a) => match snapshot_of(s, beta) {
            Err(e) => Err(e),
            Ok(b) => if a.tao_reserve == 0 || b.tao_reserve == 0 || a.alpha_reserve == 0
                || b.alpha_reserve == 0 {
                Err(Error::InsufficientLiquidity)
            } else if a.price.bits == 0 || b.price.bits == 0 {
                Err(Error::ZeroPrice)
            } else {
                Ok(())
            },
        },
    }
}

/// A snapshot's price fits in 64 integer bits.
pub proof fn lemma_snapshot_price_small(s: PalletModel, netuid: NetUid)
    ensures
        snapshot_of(s, netuid) matches Ok(p) ==> p.price.bits < 0x1_0000_0000_0000_0000 * scale32(),
{
    let tao_base = get_u64(s.subnet_tao, netuid);
    let tao_provided = get_u64(s.subnet_tao_provided, netuid);
    let alpha_base = get_u64(s.subnet_alpha_in, netuid);
    let alpha_provided = get_u64(s.subnet_alpha_in_provided, netuid);
    if tao_base + tao_provided <= u64::MAX && alpha_base + alpha_provided <= u64::MAX {
        let tao = (tao_base + tao_provided) as u64;
        let alpha = (alpha_base + alpha_provided) as u64;
        if alpha != 0 {
            let k = scale32();
            let n = tao * k * k;
            let d = alpha * k;
            assert(n < 0x1_0000_0000_0000_0000 * k * k) by (nonlinear_arith)
                requires n == tao * k * k, tao <= u64::MAX, k > 0;
            assert(d >= k) by (nonlinear_arith)
                requires d == alpha * k, alpha >= 1, k > 0;
            assert(n >= 0) by (nonlinear_arith)
                requires n == tao * k * k, tao >= 0, k > 0;
            vstd::arithmetic::div_mod::lemma_div_is_ordered_by_denominator(n, k, d);
            vstd::arithmetic::div_mod::lemma_div_is_ordered(n, 0x1_0000_0000_0000_0000 * k * k, k);
            assert((0x1_0000_0000_0000_0000 * k * k) / k == 0x1_0000_0000_0000_0000 * k) by {
                vstd::arithmetic::div_mod::lemma_div_by_multiple(0x1_0000_0000_0000_0000 * k, k);
            }
            assert(((tao * k) as u128) * k == n) by (nonlinear_arith)
                requires n == tao * k * k, tao <= u64::MAX, k == 0x1_0000_0000, tao >= 0;
        }
    }
}

impl Pallet {
    /// Captures the reserves, price and number of stakers of `netuid`'s pool.
    pub(crate) fn snapshot_pool(&self, netuid: NetUid) -> (r: Result<PoolSnapshot, Error>)
        ensures
            r == snapshot_of(self@, netuid),
    {
        let tao_base = read_u64(&self.subnet_tao, netuid);
        let tao_provided = read_u64(&self.subnet_tao_provided, netuid);
        let tao_reserve = match tao_base.checked_add(tao_provided) {
            Some(v) => v,
            None => return Err(Error::ReserveOverflow),
        };
        let alpha_base = read_u64(&self.subnet_alpha_in, netuid);
        let alpha_provided = read_u64(&self.subnet_alpha_in_provided, netuid);
        let alpha_reserve = match alpha_base.checked_add(alpha_provided) {
            Some(v) => v,
            None => return Err(Error::ReserveOverflow),
        };
        let alpha_out = read_u64(&self.subnet_alpha_out, netuid);
        let price = if alpha_reserve != 0 {
            match u96f32_checked_div(u96f32_from_u64(tao_reserve), u96f32_from_u64(alpha_reserve)) {
                Some(p) => p,
                None => return Err(Error::Overflow),
            }
        } else {
            u96f32_from_u64(0)
        };
        let mut total_stakers: u32 = 0;
        let mut i: usize = 0;
        while i < self.total_hotkey_alpha.len()
            invariant
                0 <= i <= self.total_hotkey_alpha.len(),
                total_stakers == cap_u32(count_stakers(self.total_hotkey_alpha@.take(i as int), netuid)),
            decreases self.total_hotkey_alpha.len() - i,
        {
            let e = self.total_hotkey_alpha[i];
            proof {
                assert(self.total_hotkey_alpha@.take(i + 1).drop_last()
                    =~= self.total_hotkey_alpha@.take(i as int));
            }
            if e.netuid == netuid && e.amount != 0 {
                total_stakers = total_stakers.saturating_add(1);
            }
            i = i + 1;
        }
        proof {
            assert(self.total_hotkey_alpha@.take(i as int) =~= self.total_hotkey_alpha@);
        }
        Ok(PoolSnapshot { tao_reserve, alpha_reserve, alpha_out, price, total_stakers })
    }

    /// Checks that both pools hold TAO and alpha and have a positive price.
    pub fn validate_merger_liquidity(&self, alpha_netuid: NetUid, beta_netuid: NetUid) -> (r: Result<(), Error>)
        ensures
            r == liquidity_check(self@, alpha_netuid, beta_netuid),
    {
        let a = self.snapshot_pool(alpha_netuid)?;
        let b = self.snapshot_pool(beta_netuid)?;
        if a.tao_reserve == 0 || b.tao_reserve == 0 || a.alpha_reserve == 0 || b.alpha_reserve == 0 {
            return Err(Error::InsufficientLiquidity);
        }
        if !(a.price.bits > 0) || !(b.price.bits > 0) {
            return Err(Error::ZeroPrice);
        }
        Ok(())
    }
}

} // verus!
