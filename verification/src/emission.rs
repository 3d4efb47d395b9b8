//! Paying out a subnet's pending emission to its stakers before a merger.
//!
//! The distribution is a model, stated by `after_drain`: the pending
//! emission, root dividends and owner cut of a subnet all go to the hotkeys
//! staked on it, each in proportion to its stake and rounded down, and are
//! then cleared. No other storage (alpha-out, root stakes, the owner's own
//! account) takes part; with no stake on the subnet they are only cleared.

use vstd::prelude::*;
use crate::stakes::{StakeEntry, count_stakers, stakes_unique};
use crate::state::{Pallet, PalletModel, get_u64, read_u64};
use crate::types::NetUid;

verus! {

broadcast use vstd::std_specs::hash::group_hash_axioms;

/// Total stake held on `netuid`.
pub open spec fn stake_sum(s: Seq<StakeEntry>, netuid: NetUid) -> nat
    decreases s.len(),
{
    if s.len() == 0 {
        0
    } else {
        stake_sum(s.drop_last(), netuid) + if s.last().netuid == netuid {
            s.last().amount as nat
        } else {
            0nat
        }
    }
}

/// Share of the pending amounts `pe`, `rd` and `oc` that a stake of
/// `amount` out of `sum` receives, each rounded down.
pub open spec fn reward(amount: u64, pe: u64, rd: u64, oc: u64, sum: int) -> int {
    amount * pe / sum + amount * rd / sum + amount * oc / sum
}

/// An entry after its subnet's pending amounts are paid out pro rata; the
/// stake saturates at the largest `u64`.
pub open spec fn rewarded(e: StakeEntry, netuid: NetUid, pe: u64, rd: u64, oc: u64, sum: int) -> StakeEntry {
    if e.netuid == netuid && sum > 0 {
        let n = e.amount + reward(e.amount, pe, rd, oc, sum);
        StakeEntry { amount: if n <= u64::MAX { n as u64 } else { u64::MAX }, ..e }
    } else {
        e
    }
}

/// Entries of `t` after the pending amounts are paid out with divisor `sum`.
pub open spec fn rewarded_with(t: Seq<StakeEntry>, netuid: NetUid, pe: u64, rd: u64, oc: u64, sum: int) -> Seq<StakeEntry> {
    Seq::new(t.len(), |i: int| rewarded(t[i], netuid, pe, rd, oc, sum))
}

/// Stakes after `netuid`'s pending amounts are paid out.
pub open spec fn rewarded_stakes(s: Seq<StakeEntry>, netuid: NetUid, pe: u64, rd: u64, oc: u64) -> Seq<StakeEntry> {
    let sum = stake_sum(s, netuid) as int;
    Seq::new(s.len(), |i: int| rewarded(s[i], netuid, pe, rd, oc, sum))
}

/// State after `netuid`'s pending emission, root dividends and owner cut
/// are paid out to its stakers in proportion to their stake and cleared.
/// With no stake on the subnet they are cleared.
pub open spec fn after_drain(s: PalletModel, netuid: NetUid) -> PalletModel {
    PalletModel {
        stakes: rewarded_stakes(
            s.stakes,
            netuid,
            get_u64(s.pending_emission, netuid),
            get_u64(s.pending_root_alpha_divs, netuid),
            get_u64(s.pending_owner_cut, netuid),
        ),
        pending_emission: s.pending_emission.remove(netuid),
        pending_root_alpha_divs: s.pending_root_alpha_divs.remove(netuid),
        pending_owner_cut: s.pending_owner_cut.remove(netuid),
        ..s
    }
}

proof fn lemma_stake_sum_bounds(s: Seq<StakeEntry>, netuid: NetUid)
    ensures
        stake_sum(s, netuid) <= s.len() * (u64::MAX as int),
        forall|i: int| 0 <= i < s.len() && s[i].netuid == netuid ==> #[trigger] s[i].amount <= stake_sum(s, netuid),
    decreases s.len(),
{
    if s.len() > 0 {
        lemma_stake_sum_bounds(s.drop_last(), netuid);
        assert forall|i: int| 0 <= i < s.len() && s[i].netuid == netuid implies #[trigger] s[i].amount <= stake_sum(
            s,
            netuid,
        ) by {
            if i < s.len() - 1 {
                assert(s.drop_last()[i] == s[i]);
            }
        }
        assert(s.len() * (u64::MAX as int) == (s.len() - 1) * (u64::MAX as int) + u64::MAX) by (nonlinear_arith);
    }
}

/// Paying out pending amounts changes amounts only: every entry keeps its
/// hotkey and subnet, so the keys stay unique.
pub proof fn lemma_drain_keeps_keys(s: PalletModel, netuid: NetUid)
    ensures
        after_drain(s, netuid).stakes.len() == s.stakes.len(),
        forall|i: int|
            0 <= i < s.stakes.len() ==> (#[trigger] after_drain(s, netuid).stakes[i]).hotkey == s.stakes[i].hotkey
                && after_drain(s, netuid).stakes[i].netuid == s.stakes[i].netuid,
        stakes_unique(s.stakes) ==> stakes_unique(after_drain(s, netuid).stakes),
{
    let t = after_drain(s, netuid).stakes;
    if stakes_unique(s.stakes) {
        assert forall|i: int, j: int|
            0 <= i < t.len() && 0 <= j < t.len() && i != j implies !crate::stakes::entry_has_key(
            #[trigger] t[i],
            t[j].hotkey,
            #[trigger] t[j].netuid,
        ) by {
            assert(t[i].hotkey == s.stakes[i].hotkey && t[i].netuid == s.stakes[i].netuid);
            assert(t[j].hotkey == s.stakes[j].hotkey && t[j].netuid == s.stakes[j].netuid);
        }
    }
}

/// Pays `pe`, `rd` and `oc` out to the stakes of `netuid` in `v`.
fn reward_stakes(v: &mut Vec<StakeEntry>, netuid: NetUid, pe: u64, rd: u64, oc: u64)
    ensures
        final(v)@ == rewarded_stakes(old(v)@, netuid, pe, rd, oc),
{
    let mut sum: u128 = 0;
    let mut i: usize = 0;
    proof {
        lemma_stake_sum_bounds(v@, netuid);
    }
    while i < v.len()
        invariant
            0 <= i <= v.len(),
            sum == stake_sum(v@.take(i as int), netuid),
            sum <= i * (u64::MAX as int),
        decreases v.len() - i,
    {
        proof {
            assert(v@.take(i + 1).drop_last() =~= v@.take(i as int));
            assert((i + 1) * (u64::MAX as int) == i * (u64::MAX as int) + u64::MAX) by (nonlinear_arith);
            assert(i * (u64::MAX as int) + u64::MAX <= u128::MAX) by (nonlinear_arith)
                requires i < usize::MAX;
        }
        if v[i].netuid == netuid {
            sum = sum + v[i].amount as u128;
        }
        i = i + 1;
    }
    proof {
        assert(v@.take(v.len() as int) =~= v@);
    }
    let ghost start = v@;
    let ghost total = sum as int;
    let mut j: usize = 0;
    while j < v.len()
        invariant
            0 <= j <= v.len(),
            v@.len() == start.len(),
            sum == stake_sum(start, netuid),
            total == sum,
            forall|k: int| 0 <= k < start.len() && start[k].netuid == netuid ==> #[trigger] start[k].amount <= total,
            forall|k: int| 0 <= k < j ==> #[trigger] v@[k] == rewarded(start[k], netuid, pe, rd, oc, total),
            forall|k: int| j <= k < start.len() ==> #[trigger] v@[k] == start[k],
        decreases v.len() - j,
    {
        let e = v[j];
        if e.netuid == netuid && sum > 0 {
            let a = e.amount as u128;
            proof {
                assert(e == start[j as int]);
                assert(a <= sum);
                assert(a * (pe as u128) <= u128::MAX) by (nonlinear_arith)
                    requires a <= u64::MAX, pe <= u64::MAX;
                assert(a * (rd as u128) <= u128::MAX) by (nonlinear_arith)
                    requires a <= u64::MAX, rd <= u64::MAX;
                assert(a * (oc as u128) <= u128::MAX) by (nonlinear_arith)
                    requires a <= u64::MAX, oc <= u64::MAX;
                assert(a * pe / (sum as int) <= pe) by (nonlinear_arith)
                    requires a <= sum, sum > 0, pe >= 0;
                assert(a * rd / (sum as int) <= rd) by (nonlinear_arith)
                    requires a <= sum, sum > 0, rd >= 0;
                assert(a * oc / (sum as int) <= oc) by (nonlinear_arith)
                    requires a <= sum, sum > 0, oc >= 0;
            }
            let gain = a * (pe as u128) / sum + a * (rd as u128) / sum + a * (oc as u128) / sum;
            let n = a + gain;
            let amount: u64 = if n > u64::MAX as u128 {
                u64::MAX
            } else {
                n as u64
            };
            v.set(j, StakeEntry { hotkey: e.hotkey, netuid: e.netuid, amount });
        }
        j = j + 1;
    }
    assert(v@ =~= rewarded_stakes(start, netuid, pe, rd, oc));
}

impl Pallet {
    /// Pays `netuid`'s pending emission, root dividends and owner cut out
    /// to its stakers in proportion to their stake, and clears them.
    pub(crate) fn drain_pending_emission(&mut self, netuid: NetUid)
        requires
            old(self).wf(),
        ensures
            final(self).wf(),
            final(self)@ == after_drain(old(self)@, netuid),
    {
        let ghost s0 = self@;
        let pe = read_u64(&self.pending_emission, netuid);
        let rd = read_u64(&self.pending_root_alpha_divs, netuid);
        let oc = read_u64(&self.pending_owner_cut, netuid);
        reward_stakes(&mut self.total_hotkey_alpha, netuid, pe, rd, oc);
        self.pending_emission.remove(&netuid);
        self.pending_root_alpha_divs.remove(&netuid);
        self.pending_owner_cut.remove(&netuid);
        assert(self@ =~= after_drain(s0, netuid));
        proof {
            lemma_drain_keeps_keys(s0, netuid);
        }
    }
}

/// One share `⌊a·x/S⌋` is within one unit of the exact share `a·x/S`.
proof fn lemma_share_bounds(a: int, x: int, sum: int)
    requires
        a >= 0,
        x >= 0,
        sum > 0,
    ensures
        sum * (a * x / sum) <= a * x,
        sum * (a * x / sum) > a * x - sum,
        a * x / sum >= 0,
{
    assert(a * x >= 0) by (nonlinear_arith)
        requires a >= 0, x >= 0;
    vstd::arithmetic::div_mod::lemma_fundamental_div_mod(a * x, sum);
    vstd::arithmetic::div_mod::lemma_mod_pos_bound(a * x, sum);
    vstd::arithmetic::div_mod::lemma_div_pos_is_pos(a * x, sum);
}

/// Over any part `t` of the stakes, the rewards paid with divisor `sum` add
/// up to the exact pro-rata share of that part, less under one unit per
/// staker and kind of payout.
proof fn lemma_rewards_sum(t: Seq<StakeEntry>, netuid: NetUid, pe: u64, rd: u64, oc: u64, sum: int)
    requires
        sum > 0,
        forall|i: int| 0 <= i < t.len() && t[i].netuid == netuid ==> #[trigger] t[i].amount + reward(
            t[i].amount,
            pe,
            rd,
            oc,
            sum,
        ) <= u64::MAX,
    ensures
        ({
            let u = rewarded_with(t, netuid, pe, rd, oc, sum);
            let paid = stake_sum(u, netuid) - stake_sum(t, netuid);
            &&& sum * paid <= (pe + rd + oc) * stake_sum(t, netuid)
            &&& sum * paid >= (pe + rd + oc) * stake_sum(t, netuid) - 3 * sum * count_stakers(t, netuid)
        }),
    decreases t.len(),
{
    let u = rewarded_with(t, netuid, pe, rd, oc, sum);
    if t.len() > 0 {
        let d = t.drop_last();
        assert forall|i: int| 0 <= i < d.len() && d[i].netuid == netuid implies #[trigger] d[i].amount + reward(
            d[i].amount,
            pe,
            rd,
            oc,
            sum,
        ) <= u64::MAX by {
            assert(d[i] == t[i]);
        }
        lemma_rewards_sum(d, netuid, pe, rd, oc, sum);
        let ud = rewarded_with(d, netuid, pe, rd, oc, sum);
        assert(u.drop_last() =~= ud);
        let e = t.last();
        assert(u.last() == rewarded(e, netuid, pe, rd, oc, sum));
        if e.netuid == netuid {
            let a = e.amount as int;
            lemma_share_bounds(a, pe as int, sum);
            lemma_share_bounds(a, rd as int, sum);
            lemma_share_bounds(a, oc as int, sum);
            assert(t[t.len() - 1] == e);
            let r = reward(e.amount, pe, rd, oc, sum);
            assert(e.amount + r <= u64::MAX);
            assert(u.last().amount == e.amount + r);
            assert(stake_sum(u, netuid) == stake_sum(ud, netuid) + e.amount + r);
            assert(stake_sum(t, netuid) == stake_sum(d, netuid) + e.amount);
            assert(count_stakers(t, netuid) == count_stakers(d, netuid) + if a != 0 { 1int } else { 0int });
            assert(sum * r <= a * pe + a * rd + a * oc) by (nonlinear_arith)
                requires
                    r == a * pe / sum + a * rd / sum + a * oc / sum,
                    sum * (a * pe / sum) <= a * pe,
                    sum * (a * rd / sum) <= a * rd,
                    sum * (a * oc / sum) <= a * oc,
            ;
            assert(sum * r >= a * pe + a * rd + a * oc - 3 * sum) by (nonlinear_arith)
                requires
                    r == a * pe / sum + a * rd / sum + a * oc / sum,
                    sum * (a * pe / sum) > a * pe - sum,
                    sum * (a * rd / sum) > a * rd - sum,
                    sum * (a * oc / sum) > a * oc - sum,
            ;
            if a == 0 {
                assert(a * pe == 0 && a * rd == 0 && a * oc == 0) by (nonlinear_arith)
                    requires a == 0;
                assert(r == 0);
            }
            let pd = stake_sum(ud, netuid) - stake_sum(d, netuid);
            let sd = stake_sum(d, netuid);
            let cd = count_stakers(d, netuid);
            let x = pe + rd + oc;
            assert(sum * (pd + r) <= x * (sd + a)) by (nonlinear_arith)
                requires sum * pd <= x * sd, sum * r <= a * pe + a * rd + a * oc, x == pe + rd + oc;
            assert(stake_sum(u, netuid) - stake_sum(t, netuid) == pd + r);
            assert(sum * (stake_sum(u, netuid) - stake_sum(t, netuid)) <= x * stake_sum(t, netuid));
            if a != 0 {
                assert(sum * (pd + r) >= x * (sd + a) - 3 * sum * (cd + 1)) by (nonlinear_arith)
                    requires
                        sum * pd >= x * sd - 3 * sum * cd,
                        sum * r >= a * pe + a * rd + a * oc - 3 * sum,
                        x == pe + rd + oc,
                ;
            } else {
                assert(sum * (pd + r) >= x * (sd + a) - 3 * sum * cd) by (nonlinear_arith)
                    requires sum * pd >= x * sd - 3 * sum * cd, r == 0, a == 0;
            }
        } else {
            assert(u.last() == e);
            assert(stake_sum(u, netuid) == stake_sum(ud, netuid));
            assert(stake_sum(t, netuid) == stake_sum(d, netuid));
            assert(count_stakers(t, netuid) == count_stakers(d, netuid));
            assert(sum * (stake_sum(u, netuid) - stake_sum(t, netuid)) <= (pe + rd + oc) * stake_sum(t, netuid));
        }
    } else {
        assert(stake_sum(u, netuid) == 0);
        assert(stake_sum(t, netuid) == 0);
    }
}

/// Paying out a subnet's pending amounts neither creates nor loses more
/// than rounding: when the subnet has stake and the stakes plus the pending
/// amounts fit in a `u64`, the subnet's total stake grows by at most the
/// pending emission, root dividends and owner cut together, and by at least
/// that sum less three units per staker; the pending amounts are cleared and
/// no other subnet's stake changes.
pub proof fn law_drain_pays_out_pending(s: PalletModel, netuid: NetUid, other: NetUid)
    requires
        stake_sum(s.stakes, netuid) > 0,
        stake_sum(s.stakes, netuid) + get_u64(s.pending_emission, netuid) + get_u64(s.pending_root_alpha_divs, netuid)
            + get_u64(s.pending_owner_cut, netuid) <= u64::MAX,
        other != netuid,
    ensures
        ({
            let t = after_drain(s, netuid);
            let pending = get_u64(s.pending_emission, netuid) + get_u64(s.pending_root_alpha_divs, netuid)
                + get_u64(s.pending_owner_cut, netuid);
            let paid = stake_sum(t.stakes, netuid) - stake_sum(s.stakes, netuid);
            &&& paid <= pending
            &&& paid >= pending - 3 * count_stakers(s.stakes, netuid)
            &&& get_u64(t.pending_emission, netuid) == 0
            &&& get_u64(t.pending_root_alpha_divs, netuid) == 0
            &&& get_u64(t.pending_owner_cut, netuid) == 0
            &&& stake_sum(t.stakes, other) == stake_sum(s.stakes, other)
        }),
{
    let pe = get_u64(s.pending_emission, netuid);
    let rd = get_u64(s.pending_root_alpha_divs, netuid);
    let oc = get_u64(s.pending_owner_cut, netuid);
    let sum = stake_sum(s.stakes, netuid) as int;
    lemma_stake_sum_bounds(s.stakes, netuid);
    assert forall|i: int| 0 <= i < s.stakes.len() && s.stakes[i].netuid == netuid implies #[trigger] s.stakes[i].amount
        + reward(s.stakes[i].amount, pe, rd, oc, sum) <= u64::MAX by {
        let a = s.stakes[i].amount as int;
        assert(a <= sum);
        lemma_share_le(a, pe as int, sum);
        lemma_share_le(a, rd as int, sum);
        lemma_share_le(a, oc as int, sum);
    }
    lemma_rewards_sum(s.stakes, netuid, pe, rd, oc, sum);
    let t = after_drain(s, netuid);
    assert(t.stakes =~= Seq::new(s.stakes.len(), |i: int| rewarded(s.stakes[i], netuid, pe, rd, oc, sum)));
    let paid = stake_sum(t.stakes, netuid) - sum;
    let x = pe + rd + oc;
    let cnt = count_stakers(s.stakes, netuid);
    assert(paid <= x) by (nonlinear_arith)
        requires sum * paid <= x * sum, sum > 0;
    assert(paid >= x - 3 * cnt) by (nonlinear_arith)
        requires sum * paid >= x * sum - 3 * sum * cnt, sum > 0;
    lemma_other_subnet_sum(s.stakes, netuid, other, pe, rd, oc, sum);
}

proof fn lemma_share_le(a: int, x: int, sum: int)
    requires
        0 <= a <= sum,
        x >= 0,
        sum > 0,
    ensures
        a * x / sum <= x,
        a * x / sum >= 0,
{
    assert(a * x <= sum * x) by (nonlinear_arith)
        requires 0 <= a <= sum, x >= 0;
    assert(a * x >= 0) by (nonlinear_arith)
        requires a >= 0, x >= 0;
    vstd::arithmetic::div_mod::lemma_div_is_ordered(a * x, sum * x, sum);
    vstd::arithmetic::div_mod::lemma_div_by_multiple(x, sum);
    assert(sum * x == x * sum) by (nonlinear_arith);
    vstd::arithmetic::div_mod::lemma_div_pos_is_pos(a * x, sum);
}

proof fn lemma_other_subnet_sum(t: Seq<StakeEntry>, netuid: NetUid, other: NetUid, pe: u64, rd: u64, oc: u64, sum: int)
    requires
        other != netuid,
    ensures
        stake_sum(rewarded_with(t, netuid, pe, rd, oc, sum), other) == stake_sum(t, other),
    decreases t.len(),
{
    if t.len() > 0 {
        let d = t.drop_last();
        lemma_other_subnet_sum(d, netuid, other, pe, rd, oc, sum);
        let u = rewarded_with(t, netuid, pe, rd, oc, sum);
        assert(u.drop_last() =~= rewarded_with(d, netuid, pe, rd, oc, sum));
    }
}

} // verus!
