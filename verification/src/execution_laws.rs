//! Properties of an executed merger: what it keeps, what it removes, and
//! what each holder ends up with.

use vstd::prelude::*;
use crate::liquidity::{
    after_dissolve, cap_u64, floor_zero, lemma_dissolve_amounts, lemma_dissolve_frame, lemma_dissolve_stakes,
    lemma_kept_amounts, lemma_positions_kept, positions_alpha, positions_kept, positions_tao, returned_alpha,
    returned_tao,
};
use crate::emission::{after_drain, lemma_drain_keeps_keys, reward, rewarded_stakes, stake_sum};
use crate::execution::{
    after_execute, alpha_new_raw, apply_pass, apply_step, consolidated_tao, lock_refund, pass_fits, prepared,
    execute_merger_result, execute_result, mark_executing, new_raw,
};
use crate::conversions::{
    MergeParams, all_conversions, conv_lt, conversion_pass, holder_conversion, lemma_pass_of_none,
    has_holders, is_holder, merge_params, merged_alpha_reserve, same_key, sorted_insert, tao_sum,
};
use crate::conversion::redeemability;
use crate::fixed::{FixedU64F64, floor64, int64, scale32, scale64};
use crate::execution::{safety_check, consolidate_check, consolidated_alpha, each_within_tolerance, minted_alpha};
use crate::governance::{after_approve, after_cancel, after_propose, approve_result, cancel_result, merger_wf};
use crate::snapshot::{lemma_snapshot_price_small, snapshot_of};
use crate::stakes::{
    StakeEntry, entry_has_key, lemma_remove_stake, lemma_set_stake, lemma_stake_index, lemma_stake_index_at,
    remove_stake, stake_index, stake_of, stakes_unique,
};
use crate::state::{PalletModel, balance_of, get_u64, subnet_exists};
use crate::types::{
    AccountId, BlockNumber, Conversion, Error, MergerStatus, NetUid, PoolSnapshot, REDEEMABILITY_ROUNDING_TOLERANCE,
};

verus! {

/// One conversion touches only the stakes and the events, keeps stake keys
/// unique, and changes the stakes of its own hotkey only: a holder of the
/// surviving subnet gets the new amount; a holder of the merged subnet
/// loses that stake and has the new amount added on the surviving subnet.
proof fn lemma_apply_step(s: PalletModel, c: Conversion, alpha: NetUid, beta: NetUid)
    requires
        stakes_unique(s.stakes),
        alpha != beta,
    ensures
        ({
            let t = apply_step(s, c, alpha, beta);
            &&& t == PalletModel { stakes: t.stakes, events: t.events, ..s }
            &&& stakes_unique(t.stakes)
            &&& forall|h: AccountId, n: NetUid| #[trigger]
                stake_of(t.stakes, h, n) == if h != c.hotkey || (c.netuid != alpha && c.netuid != beta) {
                    stake_of(s.stakes, h, n)
                } else if c.netuid == alpha {
                    if n == alpha {
                        new_raw(c)
                    } else {
                        stake_of(s.stakes, h, n)
                    }
                } else if n == beta {
                    0
                } else if n == alpha {
                    ((stake_of(s.stakes, h, alpha) + new_raw(c)) as u64)
                } else {
                    stake_of(s.stakes, h, n)
                }
        }),
{
    if c.netuid == alpha {
        lemma_set_stake(s.stakes, c.hotkey, alpha, new_raw(c));
    } else if c.netuid == beta {
        lemma_remove_stake(s.stakes, c.hotkey, beta);
        let taken = remove_stake(s.stakes, c.hotkey, beta);
        let total = (stake_of(taken, c.hotkey, alpha) + new_raw(c)) as u64;
        lemma_set_stake(taken, c.hotkey, alpha, total);
    }
}

/// A pass of conversions touches only the stakes and the events and keeps
/// stake keys unique.
proof fn lemma_apply_pass_frame(s: PalletModel, convs: Seq<Conversion>, alpha: NetUid, beta: NetUid, on_beta: bool)
    requires
        stakes_unique(s.stakes),
        alpha != beta,
    ensures
        ({
            let t = apply_pass(s, convs, alpha, beta, on_beta);
            &&& t == PalletModel { stakes: t.stakes, events: t.events, ..s }
            &&& stakes_unique(t.stakes)
        }),
    decreases convs.len(),
{
    if convs.len() > 0 {
        lemma_apply_pass_frame(s, convs.drop_last(), alpha, beta, on_beta);
        lemma_apply_step(apply_pass(s, convs.drop_last(), alpha, beta, on_beta), convs.last(), alpha, beta);
    }
}

/// Dissolving both subnets' positions and paying out their pending amounts
/// touches only balances, positions, provided reserves, stakes and pending
/// amounts, and keeps stake keys unique.
proof fn lemma_prepared_frame(s: PalletModel, alpha: NetUid, beta: NetUid)
    requires
        stakes_unique(s.stakes),
    ensures
        ({
            let d = prepared(s, alpha, beta);
            &&& d == PalletModel {
                stakes: d.stakes,
                balances: d.balances,
                positions: d.positions,
                subnet_tao_provided: d.subnet_tao_provided,
                subnet_alpha_in_provided: d.subnet_alpha_in_provided,
                pending_emission: d.pending_emission,
                pending_root_alpha_divs: d.pending_root_alpha_divs,
                pending_owner_cut: d.pending_owner_cut,
                ..s
            }
            &&& stakes_unique(d.stakes)
        }),
{
    let q1 = after_dissolve(s, alpha);
    let q = after_dissolve(q1, beta);
    lemma_dissolve_frame(s, s.positions, alpha);
    lemma_dissolve_frame(q1, q1.positions, beta);
    lemma_drain_keeps_keys(q, alpha);
    lemma_drain_keeps_keys(after_drain(q, alpha), beta);
}

/// A successful merger leaves proposals, consents and history untouched and
/// keeps stake keys unique.
proof fn lemma_merge_frame(s: PalletModel, alpha: NetUid, beta: NetUid)
    requires
        s.wf(),
        alpha != beta,
        execute_merger_result(s, alpha, beta) is Ok,
    ensures
        ({
            let t = execute_merger_result(s, alpha, beta)->Ok_0;
            &&& t.pending_merger == s.pending_merger
            &&& t.merger_consent == s.merger_consent
            &&& t.merger_history == s.merger_history
            &&& t.wf()
        }),
{
    let d = prepared(s, alpha, beta);
    lemma_prepared_frame(s, alpha, beta);
    let a = snapshot_of(d, alpha)->Ok_0;
    let b = snapshot_of(d, beta)->Ok_0;
    let convs = all_conversions(d, alpha, beta, a, b)->0;
    lemma_apply_pass_frame(d, convs, alpha, beta, false);
    lemma_apply_pass_frame(apply_pass(d, convs, alpha, beta, false), convs, alpha, beta, true);
}

/// The alpha reserve a merger gives the surviving pool is the largest
/// amount whose value at that pool's price does not exceed the combined
/// TAO, and the pool's alpha reserve is raised to it, never lowered
/// (where that amount fits in a `u64`, as executing the merger requires).
pub proof fn law_minted_alpha_keeps_price(a: PoolSnapshot, b: PoolSnapshot)
    requires
        consolidate_check(a, b) is Ok,
        alpha_new_raw(a, b) <= u64::MAX,
    ensures
        alpha_new_raw(a, b) * a.price.bits <= consolidated_tao(a, b) * scale32(),
        consolidated_tao(a, b) * scale32() < (alpha_new_raw(a, b) + 1) * a.price.bits,
        a.alpha_reserve + minted_alpha(a, b) == if alpha_new_raw(a, b) >= a.alpha_reserve {
            alpha_new_raw(a, b)
        } else {
            a.alpha_reserve as int
        },
{
    let k = scale32();
    let t = consolidated_tao(a, b) as int;
    let p = a.price.bits as int;
    assert(p != 0);
    let n = t * k * k;
    assert(t * k <= u128::MAX) by (nonlinear_arith)
        requires t <= u64::MAX, k == 0x1_0000_0000int, t >= 0;
    assert(((t * k) as u128) * k == n);
    let q = n / p;
    assert(consolidated_alpha(a, b)->0.bits == q);
    let r = q / k;
    assert(r == alpha_new_raw(a, b));
    // q = floor(t*k*k / p), r = floor(q / k) = floor(t*k / p)
    assert(n >= 0) by (nonlinear_arith)
        requires t >= 0, k > 0, n == t * k * k;
    vstd::arithmetic::div_mod::lemma_div_denominator(n, p, k);
    assert(n / p / k == n / (p * k));
    assert(n == (t * k) * k) by (nonlinear_arith)
        requires n == t * k * k;
    assert((t * k) * k / (p * k) == (t * k) / p) by {
        assert(p * k == k * p) by (nonlinear_arith);
        assert(t * k >= 0) by (nonlinear_arith)
            requires t >= 0, k > 0;
        vstd::arithmetic::div_mod::lemma_div_multiples_vanish_quotient(k, t * k, p);
        assert((t * k) * k == k * (t * k)) by (nonlinear_arith);
        assert(k * (t * k) / (k * p) == (t * k) / p);
    }
    assert(r == (t * k) / p);
    vstd::arithmetic::div_mod::lemma_fundamental_div_mod(t * k, p);
    vstd::arithmetic::div_mod::lemma_mod_pos_bound(t * k, p);
    assert(r * p <= t * k) by (nonlinear_arith)
        requires t * k == p * r + (t * k) % p, 0 <= (t * k) % p < p;
    assert(t * k < (r + 1) * p) by (nonlinear_arith)
        requires t * k == p * r + (t * k) % p, 0 <= (t * k) % p < p;
}

/// An executed merger keeps the proposals and consents consistent and the
/// stake keys unique.
pub proof fn law_execute_keeps_wf(s: PalletModel, alpha: NetUid, block: BlockNumber)
    requires
        s.wf(),
        merger_wf(s),
        execute_result(s, alpha) is Ok,
    ensures
        merger_wf(after_execute(s, alpha, block)),
        after_execute(s, alpha, block).wf(),
{
    let beta = s.pending_merger[alpha].0;
    let m = mark_executing(s, alpha);
    assert(m.wf());
    lemma_merge_frame(m, alpha, beta);
    let t = after_execute(s, alpha, block);
    assert forall|a: NetUid| #[trigger] t.pending_merger.contains_key(a) implies t.pending_merger[a].0 != a
        && t.pending_merger[a].2 != MergerStatus::Executing by {
        assert(a != alpha);
        assert(s.pending_merger.contains_key(a));
    }
    assert forall|p: (NetUid, NetUid)| #[trigger] t.merger_consent.contains(p) implies t.pending_merger.contains_key(p.0)
        && t.pending_merger[p.0].0 == p.1 && t.pending_merger[p.0].2 == MergerStatus::Approved by {
        assert(s.merger_consent.contains(p));
        if p.0 == alpha {
            assert(s.pending_merger[alpha].0 == p.1);
        }
    }
    assert forall|a: NetUid| #[trigger] t.pending_merger.contains_key(a) && t.pending_merger[a].2 == MergerStatus::Approved
        implies t.merger_consent.contains((a, t.pending_merger[a].0)) by {
        assert(s.merger_consent.contains((a, s.pending_merger[a].0)));
        assert(a != alpha);
    }
}

/// The merger history only grows: proposing, approving and cancelling leave
/// it as it is, and executing records the merged subnet.
pub proof fn law_history_is_permanent(
    s: PalletModel,
    who: AccountId,
    alpha: NetUid,
    beta: NetUid,
    block: BlockNumber,
)
    requires
        s.wf(),
        merger_wf(s),
    ensures
        after_propose(s, who, alpha, beta, block).merger_history == s.merger_history,
        approve_result(s, alpha, beta) is Ok ==> after_approve(s, who, alpha, beta).merger_history
            == s.merger_history,
        cancel_result(s, alpha) is Ok ==> after_cancel(s, who, alpha).merger_history == s.merger_history,
        execute_result(s, alpha) is Ok ==> after_execute(s, alpha, block).merger_history
            == s.merger_history.insert(s.pending_merger[alpha].0, (alpha, block)),
{
    if execute_result(s, alpha) is Ok {
        lemma_merge_frame(mark_executing(s, alpha), alpha, s.pending_merger[alpha].0);
    }
}

/// After a merger executes, the surviving pool holds the TAO of both pools,
/// each counted once: its base TAO and its provided TAO add up to the sum
/// of both reserves. Its alpha reserve (provided liquidity included) is the
/// price-keeping amount of `law_minted_alpha_keeps_price` unless it already
/// held more, and it holds the alpha-out of both pools.
pub proof fn law_execution_keeps_alpha_price(s: PalletModel, alpha: NetUid, block: BlockNumber)
    requires
        s.wf(),
        merger_wf(s),
        execute_result(s, alpha) is Ok,
        crate::execution::extrinsic_fits(s, alpha),
    ensures
        ({
            let beta = s.pending_merger[alpha].0;
            let d = prepared(mark_executing(s, alpha), alpha, beta);
            let a = snapshot_of(d, alpha)->Ok_0;
            let b = snapshot_of(d, beta)->Ok_0;
            let f = after_execute(s, alpha, block);
            &&& get_u64(f.subnet_tao, alpha) + get_u64(f.subnet_tao_provided, alpha) == a.tao_reserve + b.tao_reserve
            &&& get_u64(f.subnet_tao_provided, alpha) == get_u64(d.subnet_tao_provided, alpha)
            &&& get_u64(f.subnet_alpha_in, alpha) + get_u64(f.subnet_alpha_in_provided, alpha) == if alpha_new_raw(
                a,
                b,
            ) >= a.alpha_reserve {
                alpha_new_raw(a, b)
            } else {
                a.alpha_reserve as int
            }
            &&& get_u64(f.subnet_alpha_out, alpha) == get_u64(s.subnet_alpha_out, alpha) + b.alpha_out
            &&& alpha_new_raw(a, b) * a.price.bits <= consolidated_tao(a, b) * scale32()
            &&& consolidated_tao(a, b) * scale32() < (alpha_new_raw(a, b) + 1) * a.price.bits
        }),
{
    let beta = s.pending_merger[alpha].0;
    let m = mark_executing(s, alpha);
    assert(alpha != beta);
    let d = prepared(m, alpha, beta);
    lemma_prepared_frame(m, alpha, beta);
    let a = snapshot_of(d, alpha)->Ok_0;
    let b = snapshot_of(d, beta)->Ok_0;
    let convs = all_conversions(d, alpha, beta, a, b)->0;
    lemma_apply_pass_frame(d, convs, alpha, beta, false);
    lemma_apply_pass_frame(apply_pass(d, convs, alpha, beta, false), convs, alpha, beta, true);
    law_minted_alpha_keeps_price(a, b);
}

// ---------------------------------------------------------------------------
// The table of conversions
// ---------------------------------------------------------------------------

/// Conversions in strictly increasing (hotkey, subnet) order, so no two share
/// a key.
pub open spec fn conv_sorted(s: Seq<Conversion>) -> bool {
    forall|i: int, j: int| 0 <= i < j < s.len() ==> conv_lt(#[trigger] s[i], #[trigger] s[j])
}

/// `x` is the conversion of a holder of `netuid` in `stakes`.
pub open spec fn from_stake(
    stakes: Seq<StakeEntry>,
    netuid: NetUid,
    is_alpha: bool,
    p: MergeParams,
    an: FixedU64F64,
    x: Conversion,
) -> bool {
    x.netuid == netuid && exists|i: int|
        0 <= i < stakes.len() && (#[trigger] stakes[i]).hotkey == x.hotkey && stakes[i].netuid == netuid
            && stakes[i].amount != 0 && holder_conversion(is_alpha, stakes[i].amount, p, an) == Some(x.result)
}

proof fn lemma_sorted_insert_contains(s: Seq<Conversion>, c: Conversion)
    requires
        conv_sorted(s),
    ensures
        forall|x: Conversion| #[trigger]
            sorted_insert(s, c).contains(x) <==> (x == c || (s.contains(x) && !same_key(x, c))),
        conv_sorted(sorted_insert(s, c)),
    decreases s.len(),
{
    let r = sorted_insert(s, c);
    if s.len() == 0 {
        assert forall|x: Conversion| #[trigger] r.contains(x) <==> (x == c || (s.contains(x) && !same_key(x, c))) by {
            assert(r[0] == c);
        }
    } else if conv_lt(c, s[0]) {
        assert(r =~= seq![c] + s);
        assert forall|x: Conversion| #[trigger] r.contains(x) <==> (x == c || (s.contains(x) && !same_key(x, c))) by {
            if r.contains(x) && x != c {
                let k = choose|k: int| 0 <= k < r.len() && r[k] == x;
                assert(s[k - 1] == x);
                if k - 1 > 0 {
                    assert(conv_lt(s[0], s[k - 1]));
                }
            }
            if s.contains(x) {
                let k = choose|k: int| 0 <= k < s.len() && s[k] == x;
                assert(r[k + 1] == x);
            }
            assert(r[0] == c);
        }
        assert forall|i: int, j: int| 0 <= i < j < r.len() implies conv_lt(#[trigger] r[i], #[trigger] r[j]) by {
            if i == 0 && j > 1 {
                assert(conv_lt(s[0], s[j - 1]));
            }
            if i > 0 {
                assert(conv_lt(s[i - 1], s[j - 1]));
            }
        }
    } else if same_key(c, s[0]) {
        let t = s.drop_first();
        assert(r =~= seq![c] + t);
        assert forall|x: Conversion| #[trigger] r.contains(x) <==> (x == c || (s.contains(x) && !same_key(x, c))) by {
            if r.contains(x) && x != c {
                let k = choose|k: int| 0 <= k < r.len() && r[k] == x;
                assert(s[k] == x);
                assert(conv_lt(s[0], s[k]));
            }
            if s.contains(x) && !same_key(x, c) {
                let k = choose|k: int| 0 <= k < s.len() && s[k] == x;
                assert(k != 0);
                assert(r[k] == x);
            }
            assert(r[0] == c);
        }
        assert forall|i: int, j: int| 0 <= i < j < r.len() implies conv_lt(#[trigger] r[i], #[trigger] r[j]) by {
            assert(conv_lt(s[0], s[j]));
            if i > 0 {
                assert(conv_lt(s[i], s[j]));
            }
        }
    } else {
        let t = s.drop_first();
        assert(conv_sorted(t)) by {
            assert forall|i: int, j: int| 0 <= i < j < t.len() implies conv_lt(#[trigger] t[i], #[trigger] t[j]) by {
                assert(conv_lt(s[i + 1], s[j + 1]));
            }
        }
        lemma_sorted_insert_contains(t, c);
        let rt = sorted_insert(t, c);
        assert(r =~= seq![s[0]] + rt);
        assert forall|x: Conversion| #[trigger] r.contains(x) <==> (x == c || (s.contains(x) && !same_key(x, c))) by {
            if r.contains(x) {
                let k = choose|k: int| 0 <= k < r.len() && r[k] == x;
                if k == 0 {
                    assert(s[0] == x);
                } else {
                    assert(rt[k - 1] == x);
                    assert(rt.contains(x));
                    if t.contains(x) {
                        let m = choose|m: int| 0 <= m < t.len() && t[m] == x;
                        assert(s[m + 1] == x);
                    }
                }
            }
            if x == c {
                assert(rt.contains(c));
                let m = choose|m: int| 0 <= m < rt.len() && rt[m] == c;
                assert(r[m + 1] == c);
            }
            if s.contains(x) && !same_key(x, c) {
                let k = choose|k: int| 0 <= k < s.len() && s[k] == x;
                if k == 0 {
                    assert(r[0] == x);
                } else {
                    assert(t[k - 1] == x);
                    assert(rt.contains(x));
                    let m = choose|m: int| 0 <= m < rt.len() && rt[m] == x;
                    assert(r[m + 1] == x);
                }
            }
        }
        assert forall|i: int, j: int| 0 <= i < j < r.len() implies conv_lt(#[trigger] r[i], #[trigger] r[j]) by {
            if i == 0 {
                assert(rt.contains(rt[j - 1]));
                if rt[j - 1] != c {
                    assert(t.contains(rt[j - 1]));
                    let m = choose|m: int| 0 <= m < t.len() && t[m] == rt[j - 1];
                    assert(conv_lt(s[0], s[m + 1]));
                }
            } else {
                assert(r[i] == rt[i - 1] && r[j] == rt[j - 1]);
            }
        }
    }
}

proof fn lemma_stakes_prefix_unique(stakes: Seq<StakeEntry>)
    requires
        stakes_unique(stakes),
        stakes.len() > 0,
    ensures
        stakes_unique(stakes.drop_last()),
{
    let t = stakes.drop_last();
    assert forall|i: int, j: int| 0 <= i < t.len() && 0 <= j < t.len() && i != j implies !entry_has_key(
        #[trigger] t[i],
        t[j].hotkey,
        #[trigger] t[j].netuid,
    ) by {
        assert(t[i] == stakes[i] && t[j] == stakes[j]);
    }
}

/// A conversion pass keeps the table sorted, keeps what it started with
/// on other subnets, adds nothing but conversions of holders of its
/// subnet, and converts each of them.
#[verifier::spinoff_prover]
#[verifier::rlimit(40)]
proof fn lemma_pass_entries(
    stakes: Seq<StakeEntry>,
    netuid: NetUid,
    is_alpha: bool,
    p: MergeParams,
    an: FixedU64F64,
    acc: Seq<Conversion>,
)
    requires
        conv_sorted(acc),
        stakes_unique(stakes),
        conversion_pass(stakes, netuid, is_alpha, p, an, Some(acc)) is Some,
    ensures
        ({
            let r = conversion_pass(stakes, netuid, is_alpha, p, an, Some(acc))->0;
            &&& conv_sorted(r)
            &&& forall|x: Conversion| acc.contains(x) && x.netuid != netuid ==> #[trigger] r.contains(x)
            &&& forall|x: Conversion| #[trigger]
                r.contains(x) ==> acc.contains(x) || from_stake(stakes, netuid, is_alpha, p, an, x)
            &&& forall|i: int|
                0 <= i < stakes.len() && (#[trigger] stakes[i]).netuid == netuid && stakes[i].amount != 0
                    ==> holder_conversion(is_alpha, stakes[i].amount, p, an) is Some && r.contains(
                    Conversion {
                        hotkey: stakes[i].hotkey,
                        netuid,
                        result: holder_conversion(is_alpha, stakes[i].amount, p, an)->0,
                    },
                )
        }),
    decreases stakes.len(),
{
    if stakes.len() > 0 {
        let d = stakes.drop_last();
        lemma_stakes_prefix_unique(stakes);
        lemma_pass_entries(d, netuid, is_alpha, p, an, acc);
        let r0 = conversion_pass(d, netuid, is_alpha, p, an, Some(acc))->0;
        let r = conversion_pass(stakes, netuid, is_alpha, p, an, Some(acc))->0;
        let e = stakes.last();
        let last = stakes.len() - 1;
        if e.netuid == netuid && e.amount != 0 {
            let res = holder_conversion(is_alpha, e.amount, p, an)->0;
            let c = Conversion { hotkey: e.hotkey, netuid, result: res };
            assert(r == sorted_insert(r0, c));
            lemma_sorted_insert_contains(r0, c);
            assert forall|x: Conversion| #[trigger]
                r.contains(x) implies acc.contains(x) || from_stake(stakes, netuid, is_alpha, p, an, x) by {
                if x == c {
                    assert(stakes[last] == e);
                } else {
                    assert(r0.contains(x));
                    if !acc.contains(x) {
                        assert(from_stake(d, netuid, is_alpha, p, an, x));
                        let i = choose|i: int|
                            0 <= i < d.len() && (#[trigger] d[i]).hotkey == x.hotkey && d[i].netuid == netuid
                                && d[i].amount != 0 && holder_conversion(is_alpha, d[i].amount, p, an) == Some(
                                x.result,
                            );
                        assert(stakes[i] == d[i]);
                    }
                }
            }
            assert forall|i: int|
                0 <= i < stakes.len() && (#[trigger] stakes[i]).netuid == netuid && stakes[i].amount != 0
                    implies holder_conversion(is_alpha, stakes[i].amount, p, an) is Some && r.contains(
                    Conversion {
                        hotkey: stakes[i].hotkey,
                        netuid,
                        result: holder_conversion(is_alpha, stakes[i].amount, p, an)->0,
                    },
                ) by {
                if i < last {
                    assert(d[i] == stakes[i]);
                    assert(!entry_has_key(stakes[i], stakes[last].hotkey, stakes[last].netuid));
                }
            }
        } else {
            assert(r == r0);
            assert forall|x: Conversion| #[trigger]
                r.contains(x) implies acc.contains(x) || from_stake(stakes, netuid, is_alpha, p, an, x) by {
                if !acc.contains(x) {
                    let i = choose|i: int|
                        0 <= i < d.len() && (#[trigger] d[i]).hotkey == x.hotkey && d[i].netuid == netuid
                            && d[i].amount != 0 && holder_conversion(is_alpha, d[i].amount, p, an) == Some(x.result);
                    assert(stakes[i] == d[i]);
                }
            }
            assert forall|i: int|
                0 <= i < stakes.len() && (#[trigger] stakes[i]).netuid == netuid && stakes[i].amount != 0
                    implies holder_conversion(is_alpha, stakes[i].amount, p, an) is Some && r.contains(
                    Conversion {
                        hotkey: stakes[i].hotkey,
                        netuid,
                        result: holder_conversion(is_alpha, stakes[i].amount, p, an)->0,
                    },
                ) by {
                assert(i < last);
                assert(d[i] == stakes[i]);
            }
        }
    }
}

/// `convs` holds a conversion for `(hotkey, netuid)`.
pub open spec fn has_conversion(convs: Seq<Conversion>, hotkey: AccountId, netuid: NetUid) -> bool {
    exists|i: int| 0 <= i < convs.len() && (#[trigger] convs[i]).hotkey == hotkey && convs[i].netuid == netuid
}

proof fn lemma_sorted_prefix(convs: Seq<Conversion>)
    requires
        conv_sorted(convs),
        convs.len() > 0,
    ensures
        conv_sorted(convs.drop_last()),
{
    let d = convs.drop_last();
    assert forall|i: int, j: int| 0 <= i < j < d.len() implies conv_lt(#[trigger] d[i], #[trigger] d[j]) by {
        assert(d[i] == convs[i] && d[j] == convs[j]);
    }
}

proof fn lemma_has_conversion_last(convs: Seq<Conversion>, hotkey: AccountId, netuid: NetUid)
    requires
        convs.len() > 0,
    ensures
        has_conversion(convs, hotkey, netuid) <==> (has_conversion(convs.drop_last(), hotkey, netuid) || (
        convs.last().hotkey == hotkey && convs.last().netuid == netuid)),
{
    let d = convs.drop_last();
    if has_conversion(convs, hotkey, netuid) {
        let i = choose|i: int| 0 <= i < convs.len() && (#[trigger] convs[i]).hotkey == hotkey && convs[i].netuid == netuid;
        if i < d.len() {
            assert(d[i] == convs[i]);
        }
    }
    if has_conversion(d, hotkey, netuid) {
        let i = choose|i: int| 0 <= i < d.len() && (#[trigger] d[i]).hotkey == hotkey && d[i].netuid == netuid;
        assert(convs[i] == d[i]);
    }
    if convs.last().hotkey == hotkey && convs.last().netuid == netuid {
        assert(convs[convs.len() - 1] == convs.last());
    }
}

/// The pass over the surviving subnet sets each converted holder's stake
/// there to the new amount and leaves every other stake as it was.
proof fn lemma_alpha_pass_stakes(
    s: PalletModel,
    convs: Seq<Conversion>,
    alpha: NetUid,
    beta: NetUid,
    h: AccountId,
    n: NetUid,
)
    requires
        stakes_unique(s.stakes),
        alpha != beta,
        conv_sorted(convs),
    ensures
        forall|i: int|
            0 <= i < convs.len() && (#[trigger] convs[i]).hotkey == h && convs[i].netuid == alpha ==> stake_of(
                apply_pass(s, convs, alpha, beta, false).stakes,
                h,
                alpha,
            ) == new_raw(convs[i]),
        (n != alpha || !has_conversion(convs, h, alpha)) ==> stake_of(
            apply_pass(s, convs, alpha, beta, false).stakes,
            h,
            n,
        ) == stake_of(s.stakes, h, n),
    decreases convs.len(),
{
    if convs.len() > 0 {
        let d = convs.drop_last();
        let c = convs.last();
        let last = convs.len() - 1;
        lemma_sorted_prefix(convs);
        lemma_alpha_pass_stakes(s, d, alpha, beta, h, n);
        lemma_alpha_pass_stakes(s, d, alpha, beta, h, alpha);
        lemma_apply_pass_frame(s, d, alpha, beta, false);
        let prev = apply_pass(s, d, alpha, beta, false);
        lemma_apply_step(prev, c, alpha, beta);
        lemma_has_conversion_last(convs, h, alpha);
        assert forall|i: int|
            0 <= i < convs.len() && (#[trigger] convs[i]).hotkey == h && convs[i].netuid == alpha implies stake_of(
                apply_pass(s, convs, alpha, beta, false).stakes,
                h,
                alpha,
            ) == new_raw(convs[i]) by {
            if i < last {
                assert(conv_lt(convs[i], convs[last]));
                assert(d[i] == convs[i]);
            }
        }
    }
}

/// The pass over the merged subnet takes out each converted holder's stake
/// there and adds the new amount to their stake on the surviving subnet.
proof fn lemma_beta_pass_stakes(s: PalletModel, convs: Seq<Conversion>, alpha: NetUid, beta: NetUid, h: AccountId)
    requires
        stakes_unique(s.stakes),
        alpha != beta,
        conv_sorted(convs),
        pass_fits(s, convs, alpha, beta, true),
    ensures
        has_conversion(convs, h, beta) ==> stake_of(apply_pass(s, convs, alpha, beta, true).stakes, h, beta) == 0,
        !has_conversion(convs, h, beta) ==> stake_of(apply_pass(s, convs, alpha, beta, true).stakes, h, beta)
            == stake_of(s.stakes, h, beta) && stake_of(apply_pass(s, convs, alpha, beta, true).stakes, h, alpha)
            == stake_of(s.stakes, h, alpha),
        forall|i: int|
            0 <= i < convs.len() && (#[trigger] convs[i]).hotkey == h && convs[i].netuid == beta ==> stake_of(
                apply_pass(s, convs, alpha, beta, true).stakes,
                h,
                alpha,
            ) == stake_of(s.stakes, h, alpha) + new_raw(convs[i]),
    decreases convs.len(),
{
    if convs.len() > 0 {
        let d = convs.drop_last();
        let c = convs.last();
        let last = convs.len() - 1;
        lemma_sorted_prefix(convs);
        lemma_beta_pass_stakes(s, d, alpha, beta, h);
        lemma_apply_pass_frame(s, d, alpha, beta, true);
        let prev = apply_pass(s, d, alpha, beta, true);
        lemma_apply_step(prev, c, alpha, beta);
        lemma_has_conversion_last(convs, h, beta);
        if c.netuid == beta {
            lemma_remove_stake(prev.stakes, c.hotkey, beta);
        }
        assert forall|i: int|
            0 <= i < convs.len() && (#[trigger] convs[i]).hotkey == h && convs[i].netuid == beta implies stake_of(
                apply_pass(s, convs, alpha, beta, true).stakes,
                h,
                alpha,
            ) == stake_of(s.stakes, h, alpha) + new_raw(convs[i]) by {
            if i < last {
                assert(conv_lt(convs[i], convs[last]));
                assert(d[i] == convs[i]);
            } else {
                assert(!has_conversion(d, h, beta)) by {
                    if has_conversion(d, h, beta) {
                        let k = choose|k: int| 0 <= k < d.len() && (#[trigger] d[k]).hotkey == h && d[k].netuid == beta;
                        assert(d[k] == convs[k]);
                        assert(conv_lt(convs[k], convs[last]));
                    }
                }
            }
        }
    }
}

/// What the conversion table of a merger holds: it is sorted, each holder
/// of either subnet has their conversion in it, and it holds nothing else.
proof fn lemma_all_conversions(d: PalletModel, alpha: NetUid, beta: NetUid, a: PoolSnapshot, b: PoolSnapshot)
    requires
        stakes_unique(d.stakes),
        alpha != beta,
        all_conversions(d, alpha, beta, a, b) is Some,
    ensures
        ({
            let p = merge_params(a, b);
            let an = merged_alpha_reserve(p)->0;
            let convs = all_conversions(d, alpha, beta, a, b)->0;
            &&& has_holders(d.stakes, alpha, beta) ==> merged_alpha_reserve(p) is Some
            &&& conv_sorted(convs)
            &&& forall|x: Conversion| #[trigger]
                convs.contains(x) ==> from_stake(d.stakes, alpha, true, p, an, x) || from_stake(
                    d.stakes,
                    beta,
                    false,
                    p,
                    an,
                    x,
                )
            &&& forall|i: int|
                0 <= i < d.stakes.len() && (#[trigger] d.stakes[i]).netuid == alpha && d.stakes[i].amount != 0
                    ==> holder_conversion(true, d.stakes[i].amount, p, an) is Some && convs.contains(
                    Conversion {
                        hotkey: d.stakes[i].hotkey,
                        netuid: alpha,
                        result: holder_conversion(true, d.stakes[i].amount, p, an)->0,
                    },
                )
            &&& forall|i: int|
                0 <= i < d.stakes.len() && (#[trigger] d.stakes[i]).netuid == beta && d.stakes[i].amount != 0
                    ==> holder_conversion(false, d.stakes[i].amount, p, an) is Some && convs.contains(
                    Conversion {
                        hotkey: d.stakes[i].hotkey,
                        netuid: beta,
                        result: holder_conversion(false, d.stakes[i].amount, p, an)->0,
                    },
                )
        }),
{
    let p = merge_params(a, b);
    let an = merged_alpha_reserve(p)->0;
    let empty: Seq<Conversion> = seq![];
    if merged_alpha_reserve(p) is None {
        assert(!has_holders(d.stakes, alpha, beta));
        assert forall|i: int| 0 <= i < d.stakes.len() implies !is_holder(#[trigger] d.stakes[i], alpha, beta) by {}
        assert(all_conversions(d, alpha, beta, a, b)->0 == empty);
        return;
    }
    let first = conversion_pass(d.stakes, alpha, true, p, an, Some(empty));
    assert(first is Some) by {
        if first is None {
            lemma_pass_of_none(d.stakes, beta, false, p, an);
        }
    }
    lemma_pass_entries(d.stakes, alpha, true, p, an, empty);
    lemma_pass_entries(d.stakes, beta, false, p, an, first->0);
    let convs = all_conversions(d, alpha, beta, a, b)->0;
    assert forall|x: Conversion| #[trigger]
        convs.contains(x) implies from_stake(d.stakes, alpha, true, p, an, x) || from_stake(
            d.stakes,
            beta,
            false,
            p,
            an,
            x,
        ) by {
        if first->0.contains(x) {
            assert(!empty.contains(x));
        }
    }
}

/// The stake of `h` on `n` that a merger converts.
pub open spec fn converted_part(stakes: Seq<StakeEntry>, h: AccountId, n: NetUid, is_alpha: bool, p: MergeParams, an: FixedU64F64) -> int {
    if stake_of(stakes, h, n) != 0 {
        floor64(holder_conversion(is_alpha, stake_of(stakes, h, n), p, an)->0.new_alpha_amount)
    } else {
        0
    }
}

proof fn lemma_floor64_fits(x: FixedU64F64)
    ensures
        0 <= floor64(x) <= u64::MAX,
{
    vstd::arithmetic::div_mod::lemma_multiply_divide_lt(x.bits as int, scale64(), scale64());
    vstd::arithmetic::div_mod::lemma_div_pos_is_pos(x.bits as int, scale64());
}

/// Stake of `h` on `n` once a conversion of `(h, n)` in the table is known
/// to be that of the holder's stake.
proof fn lemma_conversion_of_holder(
    d: PalletModel,
    convs: Seq<Conversion>,
    n: NetUid,
    is_alpha: bool,
    other: NetUid,
    p: MergeParams,
    an: FixedU64F64,
    h: AccountId,
)
    requires
        stakes_unique(d.stakes),
        n != other,
        forall|x: Conversion| #[trigger]
            convs.contains(x) ==> from_stake(d.stakes, n, is_alpha, p, an, x) || from_stake(d.stakes, other, !is_alpha, p, an, x),
        forall|i: int|
            0 <= i < d.stakes.len() && (#[trigger] d.stakes[i]).netuid == n && d.stakes[i].amount != 0
                ==> holder_conversion(is_alpha, d.stakes[i].amount, p, an) is Some && convs.contains(
                Conversion {
                    hotkey: d.stakes[i].hotkey,
                    netuid: n,
                    result: holder_conversion(is_alpha, d.stakes[i].amount, p, an)->0,
                },
            ),
    ensures
        stake_of(d.stakes, h, n) != 0 ==> holder_conversion(is_alpha, stake_of(d.stakes, h, n), p, an) is Some,
        stake_of(d.stakes, h, n) != 0 ==> exists|j: int|
            0 <= j < convs.len() && #[trigger] convs[j] == (Conversion {
                hotkey: h,
                netuid: n,
                result: holder_conversion(is_alpha, stake_of(d.stakes, h, n), p, an)->0,
            }),
        stake_of(d.stakes, h, n) == 0 ==> !has_conversion(convs, h, n),
{
    lemma_stake_index(d.stakes, h, n);
    let k = stake_index(d.stakes, h, n);
    if stake_of(d.stakes, h, n) != 0 {
        assert(d.stakes[k].netuid == n && d.stakes[k].hotkey == h);
        let x = Conversion { hotkey: h, netuid: n, result: holder_conversion(is_alpha, stake_of(d.stakes, h, n), p, an)->0 };
        assert(convs.contains(x));
        let j = choose|j: int| 0 <= j < convs.len() && convs[j] == x;
        assert(convs[j] == x);
    } else if has_conversion(convs, h, n) {
        let j = choose|j: int| 0 <= j < convs.len() && (#[trigger] convs[j]).hotkey == h && convs[j].netuid == n;
        assert(convs.contains(convs[j]));
        assert(from_stake(d.stakes, n, is_alpha, p, an, convs[j]));
        let i = choose|i: int|
            0 <= i < d.stakes.len() && (#[trigger] d.stakes[i]).hotkey == h && d.stakes[i].netuid == n
                && d.stakes[i].amount != 0 && holder_conversion(is_alpha, d.stakes[i].amount, p, an) == Some(convs[j].result);
        lemma_stake_index_at(d.stakes, i);
    }
}

/// After a merger executes, a hotkey's stake on the surviving subnet is the
/// sum of its converted stakes: the integer part of the conversion of its
/// stake on the surviving subnet plus that of its stake on the merged
/// subnet, each counted only where it held stake there (stakes read once
/// pending amounts are paid out). A hotkey that held stake on both gets both.
pub proof fn law_stake_after_merger(s: PalletModel, alpha: NetUid, block: BlockNumber, h: AccountId)
    requires
        s.wf(),
        merger_wf(s),
        execute_result(s, alpha) is Ok,
        crate::execution::extrinsic_fits(s, alpha),
    ensures
        ({
            let beta = s.pending_merger[alpha].0;
            let d = prepared(mark_executing(s, alpha), alpha, beta);
            let a = snapshot_of(d, alpha)->Ok_0;
            let b = snapshot_of(d, beta)->Ok_0;
            let p = merge_params(a, b);
            let an = merged_alpha_reserve(p)->0;
            let f = after_execute(s, alpha, block);
            &&& stake_of(f.stakes, h, alpha) == converted_part(d.stakes, h, alpha, true, p, an) + converted_part(
                d.stakes,
                h,
                beta,
                false,
                p,
                an,
            )
            &&& stake_of(f.stakes, h, beta) == 0
        }),
{
    let beta = s.pending_merger[alpha].0;
    let m = mark_executing(s, alpha);
    assert(alpha != beta);
    let d = prepared(m, alpha, beta);
    lemma_prepared_frame(m, alpha, beta);
    let a = snapshot_of(d, alpha)->Ok_0;
    let b = snapshot_of(d, beta)->Ok_0;
    let p = merge_params(a, b);
    let convs = all_conversions(d, alpha, beta, a, b)->0;
    lemma_all_conversions(d, alpha, beta, a, b);
    let an = merged_alpha_reserve(p)->0;
    lemma_conversion_of_holder(d, convs, alpha, true, beta, p, an, h);
    lemma_conversion_of_holder(d, convs, beta, false, alpha, p, an, h);
    lemma_apply_pass_frame(d, convs, alpha, beta, false);
    let t = apply_pass(d, convs, alpha, beta, false);
    lemma_alpha_pass_stakes(d, convs, alpha, beta, h, alpha);
    lemma_alpha_pass_stakes(d, convs, alpha, beta, h, beta);
    lemma_beta_pass_stakes(t, convs, alpha, beta, h);
    lemma_apply_pass_frame(t, convs, alpha, beta, true);
    if stake_of(d.stakes, h, alpha) != 0 {
        let j = choose|j: int| 0 <= j < convs.len() && #[trigger] convs[j] == (Conversion {
            hotkey: h,
            netuid: alpha,
            result: holder_conversion(true, stake_of(d.stakes, h, alpha), p, an)->0,
        });
        lemma_floor64_fits(convs[j].result.new_alpha_amount);
        assert(stake_of(t.stakes, h, alpha) == converted_part(d.stakes, h, alpha, true, p, an));
    }
    if stake_of(d.stakes, h, beta) != 0 {
        let j = choose|j: int| 0 <= j < convs.len() && #[trigger] convs[j] == (Conversion {
            hotkey: h,
            netuid: beta,
            result: holder_conversion(false, stake_of(d.stakes, h, beta), p, an)->0,
        });
        lemma_floor64_fits(convs[j].result.new_alpha_amount);
        assert(has_conversion(convs, h, beta));
    }
}

/// After a merger executes, the merged subnet is gone: it is no longer
/// registered, its pool, owner and pending amounts are cleared, no hotkey
/// holds stake on it, the proposal and its consent are removed, and the
/// history records which subnet it went into and when.
pub proof fn law_execution_removes_merged_subnet(s: PalletModel, alpha: NetUid, block: BlockNumber)
    requires
        s.wf(),
        merger_wf(s),
        execute_result(s, alpha) is Ok,
        crate::execution::extrinsic_fits(s, alpha),
    ensures
        ({
            let beta = s.pending_merger[alpha].0;
            let f = after_execute(s, alpha, block);
            &&& !subnet_exists(f, beta)
            &&& f.merger_history.contains_key(beta) && f.merger_history[beta] == (alpha, block)
            &&& !f.pending_merger.contains_key(alpha)
            &&& !f.merger_consent.contains((alpha, beta))
            &&& !f.subnet_owner.contains_key(beta)
            &&& !f.subnet_locked.contains_key(beta)
            &&& get_u64(f.subnet_tao, beta) == 0
            &&& get_u64(f.subnet_tao_provided, beta) == 0
            &&& get_u64(f.subnet_alpha_in, beta) == 0
            &&& get_u64(f.subnet_alpha_in_provided, beta) == 0
            &&& get_u64(f.subnet_alpha_out, beta) == 0
            &&& get_u64(f.pending_emission, beta) == 0
            &&& get_u64(f.pending_root_alpha_divs, beta) == 0
            &&& get_u64(f.pending_owner_cut, beta) == 0
            &&& forall|h: AccountId| #[trigger] stake_of(f.stakes, h, beta) == 0
        }),
{
    let beta = s.pending_merger[alpha].0;
    let m = mark_executing(s, alpha);
    assert(alpha != beta);
    lemma_prepared_frame(m, alpha, beta);
    let d = prepared(m, alpha, beta);
    let a = snapshot_of(d, alpha)->Ok_0;
    let b = snapshot_of(d, beta)->Ok_0;
    let convs = all_conversions(d, alpha, beta, a, b)->0;
    lemma_apply_pass_frame(d, convs, alpha, beta, false);
    lemma_apply_pass_frame(apply_pass(d, convs, alpha, beta, false), convs, alpha, beta, true);
    assert forall|h: AccountId| #[trigger] stake_of(after_execute(s, alpha, block).stakes, h, beta) == 0 by {
        law_stake_after_merger(s, alpha, block, h);
    }
}

/// Once liquidity positions are dissolved and before the pools are looked
/// at, both subnets' pending emission, root dividends and owner cut are paid
/// out to their stakers, so after an executed merger none of them is pending
/// on either subnet; paying out never lowers a stake and changes no hotkey
/// or subnet of an entry.
pub proof fn law_execution_pays_out_pending(s: PalletModel, alpha: NetUid, block: BlockNumber)
    requires
        s.wf(),
        merger_wf(s),
        execute_result(s, alpha) is Ok,
    ensures
        ({
            let beta = s.pending_merger[alpha].0;
            let m = mark_executing(s, alpha);
            let q = after_dissolve(after_dissolve(m, alpha), beta);
            let d = prepared(m, alpha, beta);
            let f = after_execute(s, alpha, block);
            &&& get_u64(f.pending_emission, alpha) == 0
            &&& get_u64(f.pending_root_alpha_divs, alpha) == 0
            &&& get_u64(f.pending_owner_cut, alpha) == 0
            &&& get_u64(f.pending_emission, beta) == 0
            &&& get_u64(f.pending_root_alpha_divs, beta) == 0
            &&& get_u64(f.pending_owner_cut, beta) == 0
            &&& d.stakes == rewarded_stakes(
                rewarded_stakes(
                    q.stakes,
                    alpha,
                    get_u64(s.pending_emission, alpha),
                    get_u64(s.pending_root_alpha_divs, alpha),
                    get_u64(s.pending_owner_cut, alpha),
                ),
                beta,
                get_u64(s.pending_emission, beta),
                get_u64(s.pending_root_alpha_divs, beta),
                get_u64(s.pending_owner_cut, beta),
            )
            &&& d.stakes.len() == q.stakes.len()
            &&& forall|i: int|
                0 <= i < q.stakes.len() ==> (#[trigger] d.stakes[i]).amount >= q.stakes[i].amount
                    && d.stakes[i].hotkey == q.stakes[i].hotkey && d.stakes[i].netuid == q.stakes[i].netuid
        }),
{
    let beta = s.pending_merger[alpha].0;
    let m = mark_executing(s, alpha);
    assert(alpha != beta);
    lemma_prepared_frame(m, alpha, beta);
    let q1 = after_dissolve(m, alpha);
    let q = after_dissolve(q1, beta);
    lemma_dissolve_frame(m, m.positions, alpha);
    lemma_dissolve_frame(q1, q1.positions, beta);
    let d = prepared(m, alpha, beta);
    let a = snapshot_of(d, alpha)->Ok_0;
    let b = snapshot_of(d, beta)->Ok_0;
    let convs = all_conversions(d, alpha, beta, a, b)->0;
    lemma_apply_pass_frame(d, convs, alpha, beta, false);
    lemma_apply_pass_frame(apply_pass(d, convs, alpha, beta, false), convs, alpha, beta, true);
    let d1 = after_drain(q, alpha);
    assert forall|i: int| 0 <= i < q.stakes.len() implies (#[trigger] d.stakes[i]).amount >= q.stakes[i].amount
        && d.stakes[i].hotkey == q.stakes[i].hotkey && d.stakes[i].netuid == q.stakes[i].netuid by {
        lemma_reward_not_negative(
            q.stakes[i].amount,
            get_u64(s.pending_emission, alpha),
            get_u64(s.pending_root_alpha_divs, alpha),
            get_u64(s.pending_owner_cut, alpha),
            stake_sum(q.stakes, alpha) as int,
        );
        lemma_reward_not_negative(
            d1.stakes[i].amount,
            get_u64(s.pending_emission, beta),
            get_u64(s.pending_root_alpha_divs, beta),
            get_u64(s.pending_owner_cut, beta),
            stake_sum(d1.stakes, beta) as int,
        );
    }
}

proof fn lemma_reward_not_negative(amount: u64, pe: u64, rd: u64, oc: u64, sum: int)
    ensures
        sum > 0 ==> reward(amount, pe, rd, oc, sum) >= 0,
{
    if sum > 0 {
        assert(amount * pe >= 0 && amount * rd >= 0 && amount * oc >= 0) by (nonlinear_arith);
        vstd::arithmetic::div_mod::lemma_div_pos_is_pos(amount * pe, sum);
        vstd::arithmetic::div_mod::lemma_div_pos_is_pos(amount * rd, sum);
        vstd::arithmetic::div_mod::lemma_div_pos_is_pos(amount * oc, sum);
    }
}

/// The merged pool that the conversions measure against is the surviving
/// pool after consolidation: its TAO is the sum of both reserves, and the
/// integer part of its alpha reserve is the price-keeping amount that
/// consolidation sets.
proof fn lemma_merged_pool(a: PoolSnapshot, b: PoolSnapshot)
    requires
        a.tao_reserve + b.tao_reserve <= u64::MAX,
        a.price.bits < 0x1_0000_0000_0000_0000 * scale32(),
        consolidated_alpha(a, b) is Some,
    ensures
        floor64(tao_sum(merge_params(a, b))) == a.tao_reserve + b.tao_reserve,
        merged_alpha_reserve(merge_params(a, b)) is Some ==> floor64(merged_alpha_reserve(merge_params(a, b))->0)
            == alpha_new_raw(a, b),
{
    let p = merge_params(a, b);
    let t = a.tao_reserve + b.tao_reserve;
    let pr = a.price.bits as int;
    let k32 = 0x1_0000_0000int;
    let k64 = 0x1_0000_0000_0000_0000int;
    let k96 = 0x1_0000_0000_0000_0000_0000_0000int;
    assert(p.tao_alpha.bits == a.tao_reserve * k64);
    assert(p.tao_beta.bits == b.tao_reserve * k64);
    assert(tao_sum(p).bits == t * k64);
    assert(floor64(tao_sum(p)) == t) by {
        vstd::arithmetic::div_mod::lemma_div_by_multiple(t, k64);
    }
    if merged_alpha_reserve(p) is Some {
        assert(p.p_alpha.bits == pr * k32);
        assert(pr > 0);
        let an = merged_alpha_reserve(p)->0;
        assert(an.bits == (t * k64) * k64 / (pr * k32));
        // (t·2^128) / (p·2^32) == (t·2^96) / p
        vstd::arithmetic::div_mod::lemma_div_multiples_vanish_quotient(k32, t * k96, pr);
        assert(k32 * (t * k96) == (t * k64) * k64);
        assert(k32 * pr == pr * k32);
        assert(an.bits == (t * k96) / pr);
        // ((t·2^96) / p) / 2^64 == (t·2^96) / (p·2^64) == (t·2^32) / p
        vstd::arithmetic::div_mod::lemma_div_denominator(t * k96, pr, k64);
        vstd::arithmetic::div_mod::lemma_div_multiples_vanish_quotient(k64, t * k32, pr);
        assert(k64 * (t * k32) == t * k96);
        assert(k64 * pr == pr * k64);
        assert(floor64(an) == (t * k32) / pr);
        // consolidation: ((t·2^64) / p) / 2^32 == (t·2^64) / (p·2^32) == (t·2^32) / p
        let q = consolidated_alpha(a, b)->0;
        assert(t * k32 <= u128::MAX);
        assert(q.bits == (t * k32) * k32 / pr);
        vstd::arithmetic::div_mod::lemma_div_denominator(t * k64, pr, k32);
        vstd::arithmetic::div_mod::lemma_div_multiples_vanish_quotient(k32, t * k32, pr);
        assert(k32 * (t * k32) == t * k64);
        assert((t * k32) * k32 == t * k64);
        assert(alpha_new_raw(a, b) == (t * k32) / pr);
    }
}

/// Every holder of either subnet keeps, within the rounding tolerance, the
/// TAO their stake redeems for. What their converted stake redeems for
/// against the surviving pool after the merger is no less than what their
/// stake redeemed for against its own pool before it, minus the tolerance.
/// That pool holds as TAO (base and provided) the sum of both reserves,
/// and as alpha the price-keeping reserve, whose integer part
/// consolidation sets. The stakes are read once pending amounts are paid
/// out; the new stake is the converted amount, whose integer part the
/// holder receives (`law_stake_after_merger`).
pub proof fn law_merger_keeps_redeemable_value(s: PalletModel, alpha: NetUid, block: BlockNumber, h: AccountId)
    requires
        s.wf(),
        merger_wf(s),
        execute_result(s, alpha) is Ok,
        crate::execution::extrinsic_fits(s, alpha),
    ensures
        ({
            let beta = s.pending_merger[alpha].0;
            let d = prepared(mark_executing(s, alpha), alpha, beta);
            let a = snapshot_of(d, alpha)->Ok_0;
            let b = snapshot_of(d, beta)->Ok_0;
            let p = merge_params(a, b);
            let an = merged_alpha_reserve(p)->0;
            let f = after_execute(s, alpha, block);
            let sa = stake_of(d.stakes, h, alpha);
            let sb = stake_of(d.stakes, h, beta);
            &&& floor64(tao_sum(p)) == get_u64(f.subnet_tao, alpha) + get_u64(f.subnet_tao_provided, alpha)
            &&& (sa != 0 || sb != 0) ==> merged_alpha_reserve(p) is Some && floor64(an) == alpha_new_raw(a, b)
            &&& sa != 0 ==> (holder_conversion(true, sa, p, an) matches Some(r) && floor64(
                redeemability(r.new_alpha_amount, tao_sum(p), an),
            ) >= floor64(redeemability(int64(sa as int), p.tao_alpha, p.alpha_total))
                - REDEEMABILITY_ROUNDING_TOLERANCE)
            &&& sb != 0 ==> (holder_conversion(false, sb, p, an) matches Some(r) && floor64(
                redeemability(r.new_alpha_amount, tao_sum(p), an),
            ) >= floor64(redeemability(int64(sb as int), p.tao_beta, p.beta_total))
                - REDEEMABILITY_ROUNDING_TOLERANCE)
        }),
{
    let beta = s.pending_merger[alpha].0;
    let m = mark_executing(s, alpha);
    assert(alpha != beta);
    let d = prepared(m, alpha, beta);
    lemma_prepared_frame(m, alpha, beta);
    let a = snapshot_of(d, alpha)->Ok_0;
    let b = snapshot_of(d, beta)->Ok_0;
    let p = merge_params(a, b);
    let convs = all_conversions(d, alpha, beta, a, b)->0;
    lemma_all_conversions(d, alpha, beta, a, b);
    let an = merged_alpha_reserve(p)->0;
    lemma_snapshot_price_small(d, alpha);
    lemma_merged_pool(a, b);
    law_execution_keeps_alpha_price(s, alpha, block);
    assert(each_within_tolerance(convs));
    lemma_conversion_of_holder(d, convs, alpha, true, beta, p, an, h);
    lemma_conversion_of_holder(d, convs, beta, false, alpha, p, an, h);
    let sa = stake_of(d.stakes, h, alpha);
    let sb = stake_of(d.stakes, h, beta);
    lemma_stake_index(d.stakes, h, alpha);
    lemma_stake_index(d.stakes, h, beta);
    if sa != 0 {
        assert(is_holder(d.stakes[stake_index(d.stakes, h, alpha)], alpha, beta));
    }
    if sb != 0 {
        assert(is_holder(d.stakes[stake_index(d.stakes, h, beta)], alpha, beta));
    }
    if sa != 0 {
        let r = holder_conversion(true, sa, p, an)->0;
        let j = choose|j: int| 0 <= j < convs.len() && #[trigger] convs[j] == (Conversion { hotkey: h, netuid: alpha, result: r });
        assert(convs[j].result.redeemability_delta >= -REDEEMABILITY_ROUNDING_TOLERANCE);
        lemma_floor64_fits(redeemability(r.new_alpha_amount, tao_sum(p), an));
        lemma_floor64_fits(redeemability(int64(sa as int), p.tao_alpha, p.alpha_total));
    }
    if sb != 0 {
        let r = holder_conversion(false, sb, p, an)->0;
        let j = choose|j: int| 0 <= j < convs.len() && #[trigger] convs[j] == (Conversion { hotkey: h, netuid: beta, result: r });
        assert(convs[j].result.redeemability_delta >= -REDEEMABILITY_ROUNDING_TOLERANCE);
        lemma_floor64_fits(redeemability(r.new_alpha_amount, tao_sum(p), an));
        lemma_floor64_fits(redeemability(int64(sb as int), p.tao_beta, p.beta_total));
    }
}

/// After a merger executes, no liquidity position of either subnet is left.
/// They were dissolved before the pools were read: each pool's provided TAO
/// had been lowered by the TAO of its positions (saturating at zero). Each
/// coldkey was paid the TAO of its positions on both subnets and, when it
/// owned the merged subnet, that subnet's lock refund; no other balance
/// changes (the sum is capped at the largest `u64`).
pub proof fn law_execution_dissolves_positions(s: PalletModel, alpha: NetUid, block: BlockNumber, c: AccountId)
    requires
        s.wf(),
        merger_wf(s),
        execute_result(s, alpha) is Ok,
    ensures
        ({
            let beta = s.pending_merger[alpha].0;
            let d = prepared(mark_executing(s, alpha), alpha, beta);
            let f = after_execute(s, alpha, block);
            let refund = if s.subnet_owner.contains_key(beta) && s.subnet_owner[beta] == c {
                lock_refund(s, beta) as int
            } else {
                0
            };
            &&& f.positions == positions_kept(positions_kept(s.positions, alpha), beta)
            &&& forall|i: int|
                0 <= i < f.positions.len() ==> (#[trigger] f.positions[i]).netuid != alpha && f.positions[i].netuid
                    != beta
            &&& get_u64(d.subnet_tao_provided, alpha) == floor_zero(
                get_u64(s.subnet_tao_provided, alpha) - positions_tao(s.positions, alpha),
            )
            &&& get_u64(d.subnet_tao_provided, beta) == floor_zero(
                get_u64(s.subnet_tao_provided, beta) - positions_tao(s.positions, beta),
            )
            &&& balance_of(f.balances, c) == cap_u64(
                balance_of(s.balances, c) + returned_tao(s.positions, c, alpha) + returned_tao(s.positions, c, beta)
                    + refund,
            )
        }),
{
    let beta = s.pending_merger[alpha].0;
    let m = mark_executing(s, alpha);
    assert(alpha != beta);
    lemma_prepared_frame(m, alpha, beta);
    let q1 = after_dissolve(m, alpha);
    let q = after_dissolve(q1, beta);
    lemma_dissolve_frame(m, m.positions, alpha);
    lemma_dissolve_frame(q1, q1.positions, beta);
    lemma_dissolve_amounts(m, m.positions, alpha, c);
    lemma_dissolve_amounts(q1, q1.positions, beta, c);
    lemma_kept_amounts(s.positions, alpha, beta, c);
    lemma_positions_kept(q1.positions, beta);
    lemma_positions_kept(s.positions, alpha);
    lemma_kept_amounts(q1.positions, beta, alpha, c);
    let d = prepared(m, alpha, beta);
    assert(d.positions == q.positions);
    assert(d.balances == q.balances);
    assert(d.subnet_tao_provided == q.subnet_tao_provided);
    let a = snapshot_of(d, alpha)->Ok_0;
    let b = snapshot_of(d, beta)->Ok_0;
    let convs = all_conversions(d, alpha, beta, a, b)->0;
    lemma_apply_pass_frame(d, convs, alpha, beta, false);
    lemma_apply_pass_frame(apply_pass(d, convs, alpha, beta, false), convs, alpha, beta, true);
    let f = after_execute(s, alpha, block);
    assert forall|i: int| 0 <= i < f.positions.len() implies (#[trigger] f.positions[i]).netuid != alpha
        && f.positions[i].netuid != beta by {
        assert(q1.positions.contains(f.positions[i]));
        let j = choose|j: int| 0 <= j < q1.positions.len() && q1.positions[j] == f.positions[i];
        assert(q1.positions[j].netuid != alpha);
    }
}

/// The smaller pool never absorbs the larger. The direction check refuses a
/// surviving pool with less TAO than the merged one, and nothing else, and
/// accepts exactly the pairs where the surviving pool holds at least as much
/// TAO and both together stay below half the `u64` range.
pub proof fn law_direction_check(a: PoolSnapshot, b: PoolSnapshot)
    ensures
        safety_check(a, b) == Err::<(), Error>(Error::InvalidMergerDirection) <==> a.tao_reserve < b.tao_reserve,
        safety_check(a, b) is Ok <==> (a.tao_reserve >= b.tao_reserve && a.tao_reserve + b.tao_reserve
            < u64::MAX / 2),
{
}

/// An executed merger had a surviving pool holding at least as much TAO as
/// the merged one (both read once positions are dissolved and emission paid
/// out), and together less than half the `u64` range.
pub proof fn law_executed_merger_direction(s: PalletModel, alpha: NetUid)
    requires
        execute_result(s, alpha) is Ok,
    ensures
        ({
            let beta = s.pending_merger[alpha].0;
            let d = prepared(mark_executing(s, alpha), alpha, beta);
            &&& snapshot_of(d, alpha) is Ok
            &&& snapshot_of(d, beta) is Ok
            &&& snapshot_of(d, alpha)->Ok_0.tao_reserve >= snapshot_of(d, beta)->Ok_0.tao_reserve
            &&& snapshot_of(d, alpha)->Ok_0.tao_reserve + snapshot_of(d, beta)->Ok_0.tao_reserve < u64::MAX / 2
        }),
{
    let beta = s.pending_merger[alpha].0;
    let d = prepared(mark_executing(s, alpha), alpha, beta);
    law_direction_check(snapshot_of(d, alpha)->Ok_0, snapshot_of(d, beta)->Ok_0);
}

/// Dissolving a subnet's liquidity positions credits each of them: every
/// hotkey's stake on the subnet grows by the alpha of its positions there,
/// every coldkey's balance by their TAO (both capped at the largest `u64`);
/// stakes on other subnets are untouched; the pool's provided TAO and alpha
/// shrink by the totals (stopping at zero); and no position of the subnet is
/// left.
pub proof fn law_dissolve_credits_positions(s: PalletModel, netuid: NetUid, h: AccountId, c: AccountId)
    requires
        stakes_unique(s.stakes),
    ensures
        ({
            let t = after_dissolve(s, netuid);
            &&& stake_of(t.stakes, h, netuid) == cap_u64(
                stake_of(s.stakes, h, netuid) + returned_alpha(s.positions, h, netuid),
            )
            &&& forall|n: NetUid| n != netuid ==> #[trigger] stake_of(t.stakes, h, n) == stake_of(s.stakes, h, n)
            &&& balance_of(t.balances, c) == cap_u64(balance_of(s.balances, c) + returned_tao(s.positions, c, netuid))
            &&& get_u64(t.subnet_tao_provided, netuid) == floor_zero(
                get_u64(s.subnet_tao_provided, netuid) - positions_tao(s.positions, netuid),
            )
            &&& get_u64(t.subnet_alpha_in_provided, netuid) == floor_zero(
                get_u64(s.subnet_alpha_in_provided, netuid) - positions_alpha(s.positions, netuid),
            )
            &&& forall|i: int| 0 <= i < t.positions.len() ==> (#[trigger] t.positions[i]).netuid != netuid
            &&& stakes_unique(t.stakes)
        }),
{
    lemma_dissolve_amounts(s, s.positions, netuid, c);
    lemma_dissolve_stakes(s, s.positions, netuid, h);
    lemma_positions_kept(s.positions, netuid);
    lemma_dissolve_frame(s, s.positions, netuid);
}

} // verus!
