//! Dissolving the users' liquidity positions of a subnet: each position's
//! TAO goes back to its coldkey, its alpha becomes stake of its hotkey, and
//! the pool's provided reserves shrink by what the position held.

use vstd::prelude::*;
use crate::stakes::{lemma_set_stake, read_stake, set_stake, stake_of, stakes_unique, write_stake};
use crate::state::{Pallet, PalletModel, balance_of, get_u64, read_balance, read_u64};
use crate::types::{AccountId, LiquidityPosition, NetUid};

verus! {

broadcast use vstd::std_specs::hash::group_hash_axioms;

/// `a + b`, saturated at the largest `u64`.
pub open spec fn sat_add_u64(a: u64, b: u64) -> u64 {
    if a + b <= u64::MAX {
        (a + b) as u64
    } else {
        u64::MAX
    }
}

/// `a - b`, saturated at zero.
pub open spec fn sat_sub_u64(a: u64, b: u64) -> u64 {
    if a >= b {
        (a - b) as u64
    } else {
        0
    }
}

/// State after position `p` is dissolved (its entry is not yet removed).
pub open spec fn dissolve_step(s: PalletModel, p: LiquidityPosition) -> PalletModel {
    PalletModel {
        balances: s.balances.insert(p.coldkey, sat_add_u64(balance_of(s.balances, p.coldkey), p.tao)),
        stakes: set_stake(s.stakes, p.hotkey, p.netuid, sat_add_u64(stake_of(s.stakes, p.hotkey, p.netuid), p.alpha)),
        subnet_tao_provided: s.subnet_tao_provided.insert(
            p.netuid,
            sat_sub_u64(get_u64(s.subnet_tao_provided, p.netuid), p.tao),
        ),
        subnet_alpha_in_provided: s.subnet_alpha_in_provided.insert(
            p.netuid,
            sat_sub_u64(get_u64(s.subnet_alpha_in_provided, p.netuid), p.alpha),
        ),
        ..s
    }
}

/// State after the positions of `netuid` among `ps` are dissolved in order.
pub open spec fn dissolve_all(s: PalletModel, ps: Seq<LiquidityPosition>, netuid: NetUid) -> PalletModel
    decreases ps.len(),
{
    if ps.len() == 0 {
        s
    } else {
        let prev = dissolve_all(s, ps.drop_last(), netuid);
        if ps.last().netuid == netuid {
            dissolve_step(prev, ps.last())
        } else {
            prev
        }
    }
}

/// The positions of `ps` on other subnets than `netuid`, in order.
pub open spec fn positions_kept(ps: Seq<LiquidityPosition>, netuid: NetUid) -> Seq<LiquidityPosition>
    decreases ps.len(),
{
    if ps.len() == 0 {
        seq![]
    } else {
        let prev = positions_kept(ps.drop_last(), netuid);
        if ps.last().netuid != netuid {
            prev.push(ps.last())
        } else {
            prev
        }
    }
}

/// State after every position of `netuid` is dissolved and removed.
pub open spec fn after_dissolve(s: PalletModel, netuid: NetUid) -> PalletModel {
    PalletModel { positions: positions_kept(s.positions, netuid), ..dissolve_all(s, s.positions, netuid) }
}

/// Dissolving touches only balances, stakes and provided reserves, and
/// keeps stake keys unique.
pub proof fn lemma_dissolve_frame(s: PalletModel, ps: Seq<LiquidityPosition>, netuid: NetUid)
    requires
        stakes_unique(s.stakes),
    ensures
        ({
            let t = dissolve_all(s, ps, netuid);
            &&& t == PalletModel {
                balances: t.balances,
                stakes: t.stakes,
                subnet_tao_provided: t.subnet_tao_provided,
                subnet_alpha_in_provided: t.subnet_alpha_in_provided,
                ..s
            }
            &&& stakes_unique(t.stakes)
        }),
    decreases ps.len(),
{
    if ps.len() > 0 {
        lemma_dissolve_frame(s, ps.drop_last(), netuid);
        let prev = dissolve_all(s, ps.drop_last(), netuid);
        let p = ps.last();
        lemma_set_stake(prev.stakes, p.hotkey, p.netuid, sat_add_u64(stake_of(prev.stakes, p.hotkey, p.netuid), p.alpha));
    }
}

impl Pallet {
    /// Dissolves every liquidity position of `netuid`: its TAO is paid back
    /// to the coldkey, its alpha is added to the hotkey's stake on `netuid`
    /// (both saturating), the pool's provided TAO and alpha shrink by the
    /// same amounts (saturating at zero), and the position is removed.
    pub(crate) fn dissolve_liquidity_positions(&mut self, netuid: NetUid)
        requires
            old(self).wf(),
        ensures
            final(self).wf(),
            final(self)@ == after_dissolve(old(self)@, netuid),
    {
        let ghost s0 = self@;
        let mut kept: Vec<LiquidityPosition> = Vec::new();
        let mut i: usize = 0;
        while i < self.positions.len()
            invariant
                0 <= i <= self.positions.len(),
                self.positions@ == s0.positions,
                stakes_unique(s0.stakes),
                self.wf(),
                self@ == dissolve_all(s0, s0.positions.take(i as int), netuid),
                kept@ == positions_kept(s0.positions.take(i as int), netuid),
            decreases self.positions.len() - i,
        {
            let p = self.positions[i];
            proof {
                assert(s0.positions.take(i + 1).drop_last() =~= s0.positions.take(i as int));
                assert(s0.positions.take(i + 1).last() == p);
                lemma_dissolve_frame(s0, s0.positions.take(i as int), netuid);
            }
            if p.netuid == netuid {
                let ghost prev = self@;
                let bal = read_balance(&self.balances, p.coldkey);
                self.balances.insert(p.coldkey, bal.saturating_add(p.tao));
                let stake = read_stake(&self.total_hotkey_alpha, p.hotkey, netuid);
                proof {
                    lemma_set_stake(self.total_hotkey_alpha@, p.hotkey, netuid, stake.saturating_add(p.alpha));
                }
                write_stake(&mut self.total_hotkey_alpha, p.hotkey, netuid, stake.saturating_add(p.alpha));
                let tao_provided = read_u64(&self.subnet_tao_provided, netuid);
                self.subnet_tao_provided.insert(netuid, tao_provided.saturating_sub(p.tao));
                let alpha_provided = read_u64(&self.subnet_alpha_in_provided, netuid);
                self.subnet_alpha_in_provided.insert(netuid, alpha_provided.saturating_sub(p.alpha));
                assert(self@ =~= dissolve_step(prev, p));
            } else {
                kept.push(p);
            }
            i = i + 1;
        }
        proof {
            assert(s0.positions.take(s0.positions.len() as int) =~= s0.positions);
        }
        self.positions = kept;
        assert(self@ =~= after_dissolve(s0, netuid));
    }
}

/// `x` capped at the largest `u64` (`x` is never negative here).
pub open spec fn cap_u64(x: int) -> u64 {
    if x <= u64::MAX {
        x as u64
    } else {
        u64::MAX
    }
}

/// `x` floored at zero.
pub open spec fn floor_zero(x: int) -> u64
    recommends
        x <= u64::MAX,
{
    if x >= 0 {
        x as u64
    } else {
        0
    }
}

/// TAO held by the positions of `coldkey` on `netuid` among `ps`.
pub open spec fn returned_tao(ps: Seq<LiquidityPosition>, coldkey: AccountId, netuid: NetUid) -> nat
    decreases ps.len(),
{
    if ps.len() == 0 {
        0
    } else {
        returned_tao(ps.drop_last(), coldkey, netuid) + if ps.last().coldkey == coldkey && ps.last().netuid
            == netuid {
            ps.last().tao as nat
        } else {
            0nat
        }
    }
}

/// TAO held by all positions on `netuid` among `ps`.
pub open spec fn positions_tao(ps: Seq<LiquidityPosition>, netuid: NetUid) -> nat
    decreases ps.len(),
{
    if ps.len() == 0 {
        0
    } else {
        positions_tao(ps.drop_last(), netuid) + if ps.last().netuid == netuid {
            ps.last().tao as nat
        } else {
            0nat
        }
    }
}

/// Dissolving the positions of `netuid` pays each coldkey the TAO of its
/// positions there and lowers the pool's provided TAO by the TAO of all of
/// them (each saturating).
pub proof fn lemma_dissolve_amounts(s: PalletModel, ps: Seq<LiquidityPosition>, netuid: NetUid, coldkey: AccountId)
    ensures
        balance_of(dissolve_all(s, ps, netuid).balances, coldkey) == cap_u64(
            balance_of(s.balances, coldkey) + returned_tao(ps, coldkey, netuid),
        ),
        get_u64(dissolve_all(s, ps, netuid).subnet_tao_provided, netuid) == floor_zero(
            get_u64(s.subnet_tao_provided, netuid) - positions_tao(ps, netuid),
        ),
        forall|other: NetUid| other != netuid ==> #[trigger] get_u64(dissolve_all(s, ps, netuid).subnet_tao_provided, other)
            == get_u64(s.subnet_tao_provided, other),
    decreases ps.len(),
{
    if ps.len() > 0 {
        lemma_dissolve_amounts(s, ps.drop_last(), netuid, coldkey);
        let prev = dissolve_all(s, ps.drop_last(), netuid);
        let t = dissolve_all(s, ps, netuid);
        assert forall|other: NetUid| other != netuid implies #[trigger] get_u64(t.subnet_tao_provided, other)
            == get_u64(s.subnet_tao_provided, other) by {
            assert(get_u64(prev.subnet_tao_provided, other) == get_u64(s.subnet_tao_provided, other));
            if ps.last().netuid == netuid {
                assert(t.subnet_tao_provided == prev.subnet_tao_provided.insert(
                    netuid,
                    sat_sub_u64(get_u64(prev.subnet_tao_provided, netuid), ps.last().tao),
                ));
            }
        }
    }
}

/// Removing the positions of one subnet leaves the TAO held on any other
/// subnet as it was.
pub proof fn lemma_kept_amounts(ps: Seq<LiquidityPosition>, removed: NetUid, netuid: NetUid, coldkey: AccountId)
    requires
        removed != netuid,
    ensures
        returned_tao(positions_kept(ps, removed), coldkey, netuid) == returned_tao(ps, coldkey, netuid),
        positions_tao(positions_kept(ps, removed), netuid) == positions_tao(ps, netuid),
        forall|i: int| 0 <= i < positions_kept(ps, removed).len() ==> ps.contains(
            #[trigger] positions_kept(ps, removed)[i],
        ),
    decreases ps.len(),
{
    if ps.len() > 0 {
        let d = ps.drop_last();
        lemma_kept_amounts(d, removed, netuid, coldkey);
        let prev = positions_kept(d, removed);
        let r = positions_kept(ps, removed);
        if ps.last().netuid != removed {
            assert(r.drop_last() =~= prev);
        }
        assert forall|i: int| 0 <= i < r.len() implies ps.contains(#[trigger] r[i]) by {
            if i < prev.len() {
                assert(r[i] == prev[i]);
                assert(d.contains(prev[i]));
                let j = choose|j: int| 0 <= j < d.len() && d[j] == prev[i];
                assert(ps[j] == r[i]);
            } else {
                assert(ps[ps.len() - 1] == r[i]);
            }
        }
    }
}

/// What remains after the positions of `netuid` are removed holds none of
/// them.
pub proof fn lemma_positions_kept(ps: Seq<LiquidityPosition>, netuid: NetUid)
    ensures
        forall|i: int| 0 <= i < positions_kept(ps, netuid).len() ==> (#[trigger] positions_kept(ps, netuid)[i]).netuid
            != netuid,
    decreases ps.len(),
{
    if ps.len() > 0 {
        lemma_positions_kept(ps.drop_last(), netuid);
        let prev = positions_kept(ps.drop_last(), netuid);
        let r = positions_kept(ps, netuid);
        assert forall|i: int| 0 <= i < r.len() implies (#[trigger] r[i]).netuid != netuid by {
            if i < prev.len() {
                assert(r[i] == prev[i]);
            }
        }
    }
}

/// Alpha held by the positions of `hotkey` on `netuid` among `ps`.
pub open spec fn returned_alpha(ps: Seq<LiquidityPosition>, hotkey: AccountId, netuid: NetUid) -> nat
    decreases ps.len(),
{
    if ps.len() == 0 {
        0
    } else {
        returned_alpha(ps.drop_last(), hotkey, netuid) + if ps.last().hotkey == hotkey && ps.last().netuid
            == netuid {
            ps.last().alpha as nat
        } else {
            0nat
        }
    }
}

/// Alpha held by all positions on `netuid` among `ps`.
pub open spec fn positions_alpha(ps: Seq<LiquidityPosition>, netuid: NetUid) -> nat
    decreases ps.len(),
{
    if ps.len() == 0 {
        0
    } else {
        positions_alpha(ps.drop_last(), netuid) + if ps.last().netuid == netuid {
            ps.last().alpha as nat
        } else {
            0nat
        }
    }
}

/// Dissolving the positions of `netuid` adds to each hotkey's stake there
/// the alpha of its positions (saturating), leaves its other stakes alone,
/// and lowers the pool's provided alpha by the alpha of all of them.
pub proof fn lemma_dissolve_stakes(s: PalletModel, ps: Seq<LiquidityPosition>, netuid: NetUid, hotkey: AccountId)
    requires
        stakes_unique(s.stakes),
    ensures
        stake_of(dissolve_all(s, ps, netuid).stakes, hotkey, netuid) == cap_u64(
            stake_of(s.stakes, hotkey, netuid) + returned_alpha(ps, hotkey, netuid),
        ),
        forall|n: NetUid| n != netuid ==> #[trigger] stake_of(dissolve_all(s, ps, netuid).stakes, hotkey, n)
            == stake_of(s.stakes, hotkey, n),
        get_u64(dissolve_all(s, ps, netuid).subnet_alpha_in_provided, netuid) == floor_zero(
            get_u64(s.subnet_alpha_in_provided, netuid) - positions_alpha(ps, netuid),
        ),
    decreases ps.len(),
{
    if ps.len() > 0 {
        lemma_dissolve_stakes(s, ps.drop_last(), netuid, hotkey);
        lemma_dissolve_frame(s, ps.drop_last(), netuid);
        let prev = dissolve_all(s, ps.drop_last(), netuid);
        let p = ps.last();
        if p.netuid == netuid {
            lemma_set_stake(prev.stakes, p.hotkey, p.netuid, sat_add_u64(stake_of(prev.stakes, p.hotkey, p.netuid), p.alpha));
        }
    }
}

} // verus!
