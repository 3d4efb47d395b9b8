//! Properties of the conversion formulas and of merger governance.

use vstd::prelude::*;
use crate::conversion::{alpha_holder_conversion, beta_holder_conversion, redeemability};
use crate::execution::execute_result;
use crate::fixed::{FixedU64F64, scale64};
use crate::governance::{
    after_approve, after_cancel, after_propose, approve_result, cancel_result, merger_wf, propose_result,
};
use crate::snapshot::snapshot_of;
use crate::state::{PalletModel, subnet_exists};
use crate::types::{AccountId, BlockNumber, MergerEvent, MergerStatus, NetUid};

verus! {

proof fn lemma_scaled_quotient_le(x: int, k: int, d: int)
    requires
        x >= 0,
        k > 0,
        d >= k,
    ensures
        x * k / d <= x,
        x * k / d >= 0,
{
    assert(x * k / d <= x * k / k) by {
        vstd::arithmetic::div_mod::lemma_div_is_ordered_by_denominator(x * k, k, d);
    }
    assert(x * k / k == x) by {
        vstd::arithmetic::div_mod::lemma_div_by_multiple(x, k);
    }
    assert(x * k >= 0) by (nonlinear_arith)
        requires x >= 0, k > 0;
    vstd::arithmetic::div_mod::lemma_div_pos_is_pos(x * k, d);
}

proof fn lemma_product_quotient_le(x: int, y: int, k: int)
    requires
        x >= 0,
        0 <= y <= k,
        k > 0,
    ensures
        x * y / k <= x,
        x * y / k >= 0,
{
    assert(x * y <= x * k) by (nonlinear_arith)
        requires x >= 0, 0 <= y <= k;
    assert(x * y >= 0) by (nonlinear_arith)
        requires x >= 0, y >= 0;
    vstd::arithmetic::div_mod::lemma_div_is_ordered(x * y, x * k, k);
    vstd::arithmetic::div_mod::lemma_div_by_multiple(x, k);
    vstd::arithmetic::div_mod::lemma_div_pos_is_pos(x * y, k);
}

/// The conversion of a holder of the surviving pool succeeds exactly when
/// the pool's total stake is non-zero, the holder's share of it fits, and
/// the two TAO reserves are not both zero; and the holder never ends up with
/// more than they held (dilution).
pub proof fn law_alpha_conversion_dilutes(
    alpha_i: FixedU64F64,
    alpha_total: FixedU64F64,
    tao_alpha: FixedU64F64,
    tao_beta: FixedU64F64,
)
    ensures
        alpha_holder_conversion(alpha_i, alpha_total, tao_alpha, tao_beta) is Some <==> (
        alpha_total.bits != 0 && alpha_i.bits * scale64() / (alpha_total.bits as int)
            <= u128::MAX && tao_alpha.bits + tao_beta.bits != 0),
        alpha_holder_conversion(alpha_i, alpha_total, tao_alpha, tao_beta) matches Some(r)
            ==> r.bits <= alpha_i.bits,
{
    let k = scale64();
    if alpha_total.bits != 0 && alpha_i.bits * k / (alpha_total.bits as int) <= u128::MAX {
        let total = if tao_alpha.bits + tao_beta.bits <= u128::MAX {
            tao_alpha.bits + tao_beta.bits
        } else {
            u128::MAX as int
        };
        if total != 0 {
            lemma_product_quotient_le(k, tao_beta.bits as int, total);
            assert(tao_beta.bits * k / total <= k) by (nonlinear_arith)
                requires
                    k * (tao_beta.bits as int) / total <= k,
            ;
            let factor = tao_beta.bits * k / total;
            let ratio = alpha_i.bits * k / (alpha_total.bits as int);
            let prod = if factor * ratio / k <= u128::MAX { factor * ratio / k } else { u128::MAX as int };
            assert(factor * ratio >= 0) by (nonlinear_arith)
                requires factor >= 0, ratio >= 0;
            vstd::arithmetic::div_mod::lemma_div_pos_is_pos(factor * ratio, k);
            let den = if k + prod <= u128::MAX { k + prod } else { u128::MAX as int };
            lemma_scaled_quotient_le(alpha_i.bits as int, k, den);
        }
    }
}

/// A merged pool without TAO dilutes no holder of the surviving pool: with
/// a surviving pool of at least one alpha and some TAO, the holder keeps
/// exactly what they held.
pub proof fn law_empty_merged_pool_keeps_alpha_holders(
    alpha_i: FixedU64F64,
    alpha_total: FixedU64F64,
    tao_alpha: FixedU64F64,
    tao_beta: FixedU64F64,
)
    requires
        alpha_total.bits >= scale64(),
        tao_alpha.bits != 0,
        tao_beta.bits == 0,
    ensures
        alpha_holder_conversion(alpha_i, alpha_total, tao_alpha, tao_beta) == Some(alpha_i),
{
    let k = scale64();
    lemma_scaled_quotient_le(alpha_i.bits as int, k, alpha_total.bits as int);
    assert(0 * k / (tao_alpha.bits as int) == 0);
    let ratio = alpha_i.bits * k / (alpha_total.bits as int);
    assert(0 * ratio / k == 0);
    assert(alpha_i.bits * k / k == alpha_i.bits) by {
        vstd::arithmetic::div_mod::lemma_div_by_multiple(alpha_i.bits as int, k);
    }
}

/// The conversion of a holder of the merged pool succeeds exactly when that
/// pool's total stake is non-zero, the holder's share fits, the reserves are
/// not both zero, the surviving price is non-zero and the price ratio fits;
/// and when the merged pool's price is not above the surviving pool's, the
/// holder receives no more tokens than they held.
pub proof fn law_beta_conversion_bounded(
    beta_i: FixedU64F64,
    beta_total: FixedU64F64,
    tao_alpha: FixedU64F64,
    tao_beta: FixedU64F64,
    p_beta: FixedU64F64,
    p_alpha: FixedU64F64,
)
    ensures
        beta_holder_conversion(beta_i, beta_total, tao_alpha, tao_beta, p_beta, p_alpha) is Some
            <==> (beta_total.bits != 0 && beta_i.bits * scale64() / (beta_total.bits as int)
            <= u128::MAX && tao_alpha.bits + tao_beta.bits != 0 && p_alpha.bits != 0
            && p_beta.bits * scale64() / (p_alpha.bits as int) <= u128::MAX),
        p_beta.bits <= p_alpha.bits ==> (beta_holder_conversion(
            beta_i,
            beta_total,
            tao_alpha,
            tao_beta,
            p_beta,
            p_alpha,
        ) matches Some(r) ==> r.bits <= beta_i.bits),
{
    let k = scale64();
    law_alpha_conversion_dilutes(beta_i, beta_total, tao_beta, tao_alpha);
    assert(tao_beta.bits + tao_alpha.bits == tao_alpha.bits + tao_beta.bits);
    if beta_total.bits != 0 && beta_i.bits * k / (beta_total.bits as int) <= u128::MAX
        && tao_alpha.bits + tao_beta.bits != 0 {
        let conv = alpha_holder_conversion(beta_i, beta_total, tao_beta, tao_alpha);
        assert(conv is Some);
        let c = conv->0;
        if p_alpha.bits != 0 && p_beta.bits * k / (p_alpha.bits as int) <= u128::MAX {
            let ratio = p_beta.bits * k / (p_alpha.bits as int);
            if p_beta.bits <= p_alpha.bits {
                lemma_product_quotient_le(k, p_beta.bits as int, p_alpha.bits as int);
                assert(ratio <= k) by (nonlinear_arith)
                    requires
                        k * (p_beta.bits as int) / (p_alpha.bits as int) <= k,
                        ratio == p_beta.bits * k / (p_alpha.bits as int),
                ;
                lemma_product_quotient_le(c.bits as int, ratio, k);
            }
        }
    }
}

/// At equal prices a holder of the merged pool is converted exactly as a
/// holder of the surviving pool would be with the two pools' roles swapped.
pub proof fn law_equal_prices_symmetric(
    beta_i: FixedU64F64,
    beta_total: FixedU64F64,
    tao_alpha: FixedU64F64,
    tao_beta: FixedU64F64,
    price: FixedU64F64,
)
    requires
        price.bits != 0,
    ensures
        beta_holder_conversion(beta_i, beta_total, tao_alpha, tao_beta, price, price)
            == alpha_holder_conversion(beta_i, beta_total, tao_beta, tao_alpha),
{
    let k = scale64();
    assert(price.bits * k / (price.bits as int) == k) by {
        vstd::arithmetic::div_mod::lemma_div_by_multiple(k, price.bits as int);
        assert(price.bits * k == k * price.bits) by (nonlinear_arith);
    }
    law_alpha_conversion_dilutes(beta_i, beta_total, tao_beta, tao_alpha);
    assert(tao_beta.bits + tao_alpha.bits == tao_alpha.bits + tao_beta.bits);
    let conv = alpha_holder_conversion(beta_i, beta_total, tao_beta, tao_alpha);
    if conv is Some {
        let c = conv->0;
        vstd::arithmetic::div_mod::lemma_div_by_multiple(c.bits as int, k);
    }
}

/// A holder of the merged pool receives the liquidity-adjusted amount (what
/// a holder of the surviving pool keeps with the two pools' roles swapped,
/// `β_i / (1 + (τ_α / (τ_α + τ_β)) · (β_i / β))`) multiplied by the ratio of
/// the merged pool's price to the surviving pool's, `p_β / p_α`, each step
/// truncated and the product saturated. So a merged pool priced at least as
/// high as the surviving one never gives its holder less than the
/// liquidity-adjusted amount.
pub proof fn law_beta_conversion_scales_by_price_ratio(
    beta_i: FixedU64F64,
    beta_total: FixedU64F64,
    tao_alpha: FixedU64F64,
    tao_beta: FixedU64F64,
    p_beta: FixedU64F64,
    p_alpha: FixedU64F64,
)
    ensures
        beta_holder_conversion(beta_i, beta_total, tao_alpha, tao_beta, p_beta, p_alpha) == match alpha_holder_conversion(
            beta_i,
            beta_total,
            tao_beta,
            tao_alpha,
        ) {
            None => None,
            Some(adjusted) => if p_alpha.bits == 0 || p_beta.bits * scale64() / (p_alpha.bits as int) > u128::MAX {
                None
            } else {
                let ratio = p_beta.bits * scale64() / (p_alpha.bits as int);
                let product = adjusted.bits * ratio / scale64();
                Some(FixedU64F64 { bits: if product <= u128::MAX { product as u128 } else { u128::MAX } })
            },
        },
        p_beta.bits >= p_alpha.bits ==> (beta_holder_conversion(beta_i, beta_total, tao_alpha, tao_beta, p_beta, p_alpha)
            matches Some(r) ==> r.bits >= alpha_holder_conversion(beta_i, beta_total, tao_beta, tao_alpha)->0.bits),
{
    let k = scale64();
    assert(tao_beta.bits + tao_alpha.bits == tao_alpha.bits + tao_beta.bits);
    let conv = alpha_holder_conversion(beta_i, beta_total, tao_beta, tao_alpha);
    if conv is Some && p_alpha.bits != 0 && p_beta.bits * k / (p_alpha.bits as int) <= u128::MAX
        && p_beta.bits >= p_alpha.bits {
        let c = conv->0.bits as int;
        let pa = p_alpha.bits as int;
        let pb = p_beta.bits as int;
        let ratio = pb * k / pa;
        assert(pb * k >= pa * k) by (nonlinear_arith)
            requires pb >= pa, k > 0;
        vstd::arithmetic::div_mod::lemma_div_is_ordered(pa * k, pb * k, pa);
        assert(pa * k / pa == k) by {
            vstd::arithmetic::div_mod::lemma_div_by_multiple(k, pa);
            assert(k * pa == pa * k) by (nonlinear_arith);
        }
        assert(ratio >= k);
        assert(c * ratio >= c * k) by (nonlinear_arith)
            requires ratio >= k, c >= 0;
        vstd::arithmetic::div_mod::lemma_div_is_ordered(c * k, c * ratio, k);
        vstd::arithmetic::div_mod::lemma_div_by_multiple(c, k);
    }
}

/// A higher price of the merged pool never gives its holder less: with all
/// else equal, the conversion is non-decreasing in `p_β`.
pub proof fn law_beta_conversion_monotone_in_merged_price(
    beta_i: FixedU64F64,
    beta_total: FixedU64F64,
    tao_alpha: FixedU64F64,
    tao_beta: FixedU64F64,
    p_beta_low: FixedU64F64,
    p_beta_high: FixedU64F64,
    p_alpha: FixedU64F64,
)
    requires
        p_beta_low.bits <= p_beta_high.bits,
    ensures
        beta_holder_conversion(beta_i, beta_total, tao_alpha, tao_beta, p_beta_low, p_alpha) is Some
            && beta_holder_conversion(beta_i, beta_total, tao_alpha, tao_beta, p_beta_high, p_alpha) is Some
            ==> beta_holder_conversion(beta_i, beta_total, tao_alpha, tao_beta, p_beta_low, p_alpha)->0.bits
            <= beta_holder_conversion(beta_i, beta_total, tao_alpha, tao_beta, p_beta_high, p_alpha)->0.bits,
{
    law_beta_conversion_scales_by_price_ratio(beta_i, beta_total, tao_alpha, tao_beta, p_beta_low, p_alpha);
    law_beta_conversion_scales_by_price_ratio(beta_i, beta_total, tao_alpha, tao_beta, p_beta_high, p_alpha);
    let k = scale64();
    let conv = alpha_holder_conversion(beta_i, beta_total, tao_beta, tao_alpha);
    if conv is Some && p_alpha.bits != 0 {
        let c = conv->0.bits as int;
        let pa = p_alpha.bits as int;
        let lo = p_beta_low.bits * k;
        let hi = p_beta_high.bits * k;
        assert(lo <= hi) by (nonlinear_arith)
            requires p_beta_low.bits <= p_beta_high.bits, k > 0, lo == p_beta_low.bits * k, hi == p_beta_high.bits * k;
        assert(lo >= 0) by (nonlinear_arith)
            requires lo == p_beta_low.bits * k, k > 0;
        vstd::arithmetic::div_mod::lemma_div_is_ordered(lo, hi, pa);
        let r1 = lo / pa;
        let r2 = hi / pa;
        vstd::arithmetic::div_mod::lemma_div_pos_is_pos(lo, pa);
        assert(c * r1 <= c * r2) by (nonlinear_arith)
            requires r1 <= r2, c >= 0;
        assert(c * r1 >= 0) by (nonlinear_arith)
            requires r1 >= 0, c >= 0;
        vstd::arithmetic::div_mod::lemma_div_is_ordered(c * r1, c * r2, k);
    }
}

/// A stake never redeems for more TAO than the pool holds.
pub proof fn law_redeemability_bounded_by_reserve(
    stake: FixedU64F64,
    tao_reserve: FixedU64F64,
    alpha_reserve: FixedU64F64,
)
    ensures
        redeemability(stake, tao_reserve, alpha_reserve).bits <= tao_reserve.bits,
{
    reveal(redeemability);
    let k = scale64();
    let s = stake.bits as int;
    let t = tao_reserve.bits as int;
    let a = alpha_reserve.bits as int;
    let m = u128::MAX as int;
    let exact = s * t / k;
    let den = if a + s <= m { a + s } else { m };
    assert(s * t >= 0) by (nonlinear_arith)
        requires s >= 0, t >= 0;
    vstd::arithmetic::div_mod::lemma_div_pos_is_pos(s * t, k);
    assert(0 <= s <= m && a >= 0);
    assert(den >= s);
    if exact <= m {
        let num = exact;
        if den != 0 && num * k / den <= m {
            if s == 0 {
                assert(s * t == 0) by (nonlinear_arith)
                    requires s == 0;
                assert(num == 0);
                assert(num * k == 0);
            } else {
                // num * k <= s * t, so num * k / den <= s * t / s = t
                assert(exact * k <= s * t) by {
                    vstd::arithmetic::div_mod::lemma_fundamental_div_mod(s * t, k);
                    vstd::arithmetic::div_mod::lemma_mod_pos_bound(s * t, k);
                    assert(k * exact == exact * k) by (nonlinear_arith);
                }
                assert(num * k >= 0) by (nonlinear_arith)
                    requires num >= 0, k > 0;
                vstd::arithmetic::div_mod::lemma_div_is_ordered_by_denominator(num * k, s, den);
                vstd::arithmetic::div_mod::lemma_div_is_ordered(num * k, s * t, s);
                assert(s * t / s == t) by {
                    vstd::arithmetic::div_mod::lemma_div_by_multiple(t, s);
                    assert(t * s == s * t) by (nonlinear_arith);
                }
            }
        }
    } else if den != 0 {
        // share = s * k / den <= k, and t * share / k <= t
        assert(s * k >= 0) by (nonlinear_arith)
            requires s >= 0, k > 0;
        if s > 0 {
            vstd::arithmetic::div_mod::lemma_div_is_ordered_by_denominator(s * k, s, den);
            assert(s * k / s == k) by {
                vstd::arithmetic::div_mod::lemma_div_by_multiple(k, s);
                assert(k * s == s * k) by (nonlinear_arith);
            }
        } else {
            assert(s * k == 0) by (nonlinear_arith)
                requires s == 0;
        }
        let share = s * k / den;
        assert(share <= k);
        vstd::arithmetic::div_mod::lemma_div_pos_is_pos(s * k, den);
        lemma_product_quotient_le(t, share, k);
    }
}


// ---------------------------------------------------------------------------
// Governance
// ---------------------------------------------------------------------------

/// A proposal is accepted exactly for two distinct registered subnets, the
/// surviving one without a pending proposal, whose pools can both be read and
/// both hold TAO and alpha at a positive price.
pub proof fn law_proposal_needs_liquidity(s: PalletModel, alpha: NetUid, beta: NetUid)
    ensures
        propose_result(s, alpha, beta) is Ok <==> {
            &&& alpha != beta
            &&& subnet_exists(s, alpha) && subnet_exists(s, beta)
            &&& !s.pending_merger.contains_key(alpha)
            &&& snapshot_of(s, alpha) is Ok && snapshot_of(s, beta) is Ok
            &&& snapshot_of(s, alpha)->Ok_0.tao_reserve > 0 && snapshot_of(s, alpha)->Ok_0.alpha_reserve > 0
                && snapshot_of(s, alpha)->Ok_0.price.bits > 0
            &&& snapshot_of(s, beta)->Ok_0.tao_reserve > 0 && snapshot_of(s, beta)->Ok_0.alpha_reserve > 0
                && snapshot_of(s, beta)->Ok_0.price.bits > 0
        },
{
}

/// An accepted proposal keeps the proposals and consents consistent.
pub proof fn law_propose_keeps_wf(
    s: PalletModel,
    proposer: AccountId,
    alpha: NetUid,
    beta: NetUid,
    block: BlockNumber,
)
    requires
        merger_wf(s),
        propose_result(s, alpha, beta) is Ok,
    ensures
        merger_wf(after_propose(s, proposer, alpha, beta, block)),
{
    let t = after_propose(s, proposer, alpha, beta, block);
    assert forall|p: (NetUid, NetUid)| #[trigger] t.merger_consent.contains(p) implies t.pending_merger.contains_key(p.0)
        && t.pending_merger[p.0].0 == p.1 && t.pending_merger[p.0].2 == MergerStatus::Approved by {
        assert(s.merger_consent.contains(p));
        assert(p.0 != alpha);
    }
}

/// An accepted approval keeps the proposals and consents consistent.
pub proof fn law_approve_keeps_wf(s: PalletModel, approver: AccountId, alpha: NetUid, beta: NetUid)
    requires
        merger_wf(s),
        approve_result(s, alpha, beta) is Ok,
    ensures
        merger_wf(after_approve(s, approver, alpha, beta)),
{
    let t = after_approve(s, approver, alpha, beta);
    assert(s.pending_merger.contains_key(alpha));
    assert forall|p: (NetUid, NetUid)| #[trigger] t.merger_consent.contains(p) implies t.pending_merger.contains_key(p.0)
        && t.pending_merger[p.0].0 == p.1 && t.pending_merger[p.0].2 == MergerStatus::Approved by {
        if p != (alpha, beta) {
            assert(s.merger_consent.contains(p));
            if p.0 == alpha {
                assert(s.pending_merger[alpha].2 == MergerStatus::Approved);
            }
        }
    }
    assert forall|a: NetUid| #[trigger] t.pending_merger.contains_key(a) && t.pending_merger[a].2 == MergerStatus::Approved
        implies t.merger_consent.contains((a, t.pending_merger[a].0)) by {
        if a != alpha {
            assert(s.merger_consent.contains((a, s.pending_merger[a].0)));
        }
    }
}

/// An accepted cancellation keeps the proposals and consents consistent.
pub proof fn law_cancel_keeps_wf(s: PalletModel, cancelled_by: AccountId, alpha: NetUid)
    requires
        merger_wf(s),
        cancel_result(s, alpha) is Ok,
    ensures
        merger_wf(after_cancel(s, cancelled_by, alpha)),
{
    let t = after_cancel(s, cancelled_by, alpha);
    assert forall|p: (NetUid, NetUid)| #[trigger] t.merger_consent.contains(p) implies t.pending_merger.contains_key(p.0)
        && t.pending_merger[p.0].0 == p.1 && t.pending_merger[p.0].2 == MergerStatus::Approved by {
        assert(s.merger_consent.contains(p));
        if p.0 == alpha {
            assert(s.pending_merger[alpha].0 == p.1);
        }
    }
    assert forall|a: NetUid| #[trigger] t.pending_merger.contains_key(a) && t.pending_merger[a].2 == MergerStatus::Approved
        implies t.merger_consent.contains((a, t.pending_merger[a].0)) by {
        assert(s.merger_consent.contains((a, s.pending_merger[a].0)));
    }
}

/// Cancelling a proposal right after it is made gives back the proposals
/// and consents as they were; only the two events remain.
pub proof fn law_cancel_undoes_propose(
    s: PalletModel,
    proposer: AccountId,
    cancelled_by: AccountId,
    alpha: NetUid,
    beta: NetUid,
    block: BlockNumber,
)
    requires
        merger_wf(s),
        propose_result(s, alpha, beta) is Ok,
    ensures
        cancel_result(after_propose(s, proposer, alpha, beta, block), alpha) is Ok,
        after_cancel(after_propose(s, proposer, alpha, beta, block), cancelled_by, alpha) == (PalletModel {
            events: s.events.push(MergerEvent::MergerProposed { alpha, beta, proposer, block }).push(
                MergerEvent::MergerCancelled { alpha, beta, cancelled_by },
            ),
            ..s
        }),
{
    let t = after_propose(s, proposer, alpha, beta, block);
    let u = after_cancel(t, cancelled_by, alpha);
    assert(!s.merger_consent.contains((alpha, beta)));
    assert(u.pending_merger =~= s.pending_merger);
    assert(u.merger_consent =~= s.merger_consent);
}

/// A merger executes only when its proposal stands approved and the pair
/// has consent.
pub proof fn law_execution_needs_consent(s: PalletModel, alpha: NetUid)
    ensures
        execute_result(s, alpha) is Ok ==> {
            &&& s.pending_merger.contains_key(alpha)
            &&& s.pending_merger[alpha].2 == MergerStatus::Approved
            &&& s.merger_consent.contains((alpha, s.pending_merger[alpha].0))
        },
{
}


} // verus!
