//! The table of conversions for all holders of both subnets, keyed and
//! ordered by (hotkey, subnet).

use vstd::prelude::*;
use crate::conversion::{alpha_holder_conversion, beta_holder_conversion, redeemability};
use crate::fixed::{
    FixedU64F64, checked_div64, floor64, fx64, int64, scale32, scale64, u64f64_add, u64f64_checked_div,
    u64f64_from_u64, u64f64_from_u96f32, u64f64_to_i128,
};
use crate::stakes::StakeEntry;
use crate::state::{Pallet, PalletModel};
use crate::types::{AccountId, Conversion, ConversionResult, Error, NetUid, PoolSnapshot};

verus! {

/// `(h1, n1)` comes before `(h2, n2)`.
pub open spec fn key_lt(h1: AccountId, n1: NetUid, h2: AccountId, n2: NetUid) -> bool {
    h1 < h2 || (h1 == h2 && n1 < n2)
}

pub open spec fn conv_lt(a: Conversion, b: Conversion) -> bool {
    key_lt(a.hotkey, a.netuid, b.hotkey, b.netuid)
}

pub open spec fn same_key(a: Conversion, b: Conversion) -> bool {
    a.hotkey == b.hotkey && a.netuid == b.netuid
}

/// `s` with `c` inserted before the first entry that does not come before
/// it, replacing an entry with the same key.
pub open spec fn sorted_insert(s: Seq<Conversion>, c: Conversion) -> Seq<Conversion>
    decreases s.len(),
{
    if s.len() == 0 {
        seq![c]
    } else if conv_lt(c, s[0]) {
        seq![c] + s
    } else if same_key(c, s[0]) {
        seq![c] + s.drop_first()
    } else {
        seq![s[0]] + sorted_insert(s.drop_first(), c)
    }
}

/// The reserves and prices that every conversion uses, read from the two
/// snapshots.
pub struct MergeParams {
    pub tao_alpha: FixedU64F64,
    pub tao_beta: FixedU64F64,
    pub alpha_total: FixedU64F64,
    pub beta_total: FixedU64F64,
    pub p_alpha: FixedU64F64,
    pub p_beta: FixedU64F64,
}

pub open spec fn merge_params(a: PoolSnapshot, b: PoolSnapshot) -> MergeParams {
    MergeParams {
        tao_alpha: int64(a.tao_reserve as int),
        tao_beta: int64(b.tao_reserve as int),
        alpha_total: int64(a.alpha_reserve as int),
        beta_total: int64(b.alpha_reserve as int),
        p_alpha: fx64((a.price.bits * scale32()) as u128),
        p_beta: fx64((b.price.bits * scale32()) as u128),
    }
}

/// The combined TAO reserve as one fixed-point number.
pub open spec fn tao_sum(p: MergeParams) -> FixedU64F64 {
    fx64((p.tao_alpha.bits + p.tao_beta.bits) as u128)
}

/// Alpha reserve that keeps the surviving pool's price once it holds both
/// TAO reserves: `(τ_α + τ_β) / p_α`.
pub open spec fn merged_alpha_reserve(p: MergeParams) -> Option<FixedU64F64> {
    checked_div64(tao_sum(p), p.p_alpha)
}

/// What holding `amount` of the surviving (`is_alpha`) or merged subnet
/// converts to, with the change of the TAO it redeems for: what the new
/// stake redeems for against the merged pool (`tao_sum(p)` TAO and `an`
/// alpha) minus what the old stake redeemed for against its own pool.
pub open spec fn holder_conversion(is_alpha: bool, amount: u64, p: MergeParams, an: FixedU64F64) -> Option<ConversionResult> {
    let stake = int64(amount as int);
    let converted = if is_alpha {
        alpha_holder_conversion(stake, p.alpha_total, p.tao_alpha, p.tao_beta)
    } else {
        beta_holder_conversion(stake, p.beta_total, p.tao_alpha, p.tao_beta, p.p_beta, p.p_alpha)
    };
    match converted {
        None => None,
        Some(new_amount) => {
            let old_redeem = if is_alpha {
                redeemability(stake, p.tao_alpha, p.alpha_total)
            } else {
                redeemability(stake, p.tao_beta, p.beta_total)
            };
            let new_redeem = redeemability(new_amount, tao_sum(p), an);
            Some(
                ConversionResult {
                    new_alpha_amount: new_amount,
                    redeemability_delta: (floor64(new_redeem) - floor64(old_redeem)) as i128,
                },
            )
        },
    }
}

/// Conversions after visiting `stakes` for the holders of `netuid`, starting
/// from `acc`; `None` once a conversion fails.
pub open spec fn conversion_pass(
    stakes: Seq<StakeEntry>,
    netuid: NetUid,
    is_alpha: bool,
    p: MergeParams,
    an: FixedU64F64,
    acc: Option<Seq<Conversion>>,
) -> Option<Seq<Conversion>>
    decreases stakes.len(),
{
    if stakes.len() == 0 {
        acc
    } else {
        match conversion_pass(stakes.drop_last(), netuid, is_alpha, p, an, acc) {
            None => None,
            Some(convs) => {
                let e = stakes.last();
                if e.netuid == netuid && e.amount != 0 {
                    match holder_conversion(is_alpha, e.amount, p, an) {
                        None => None,
                        Some(r) => Some(
                            sorted_insert(convs, Conversion { hotkey: e.hotkey, netuid, result: r }),
                        ),
                    }
                } else {
                    Some(convs)
                }
            },
        }
    }
}

/// Some hotkey holds stake on `alpha` or `beta`.
pub open spec fn has_holders(stakes: Seq<StakeEntry>, alpha: NetUid, beta: NetUid) -> bool {
    exists|i: int| 0 <= i < stakes.len() && is_holder(#[trigger] stakes[i], alpha, beta)
}

pub open spec fn is_holder(e: StakeEntry, alpha: NetUid, beta: NetUid) -> bool {
    (e.netuid == alpha || e.netuid == beta) && e.amount != 0
}

/// All conversions of a merger of `beta` into `alpha`: holders of `alpha`
/// first, then holders of `beta`, ordered by (hotkey, subnet). The merged
/// pool's alpha reserve is needed only when there is a holder to convert;
/// with none the table is empty.
pub open spec fn all_conversions(
    s: PalletModel,
    alpha: NetUid,
    beta: NetUid,
    a: PoolSnapshot,
    b: PoolSnapshot,
) -> Option<Seq<Conversion>> {
    let p = merge_params(a, b);
    match merged_alpha_reserve(p) {
        None => if has_holders(s.stakes, alpha, beta) {
            None
        } else {
            Some(seq![])
        },
        Some(an) => conversion_pass(
            s.stakes,
            beta,
            false,
            p,
            an,
            conversion_pass(s.stakes, alpha, true, p, an, Some(seq![])),
        ),
    }
}

proof fn lemma_sorted_insert_at(s: Seq<Conversion>, c: Conversion, i: int)
    requires
        0 <= i <= s.len(),
        forall|j: int| 0 <= j < i ==> conv_lt(#[trigger] s[j], c),
        i == s.len() || !conv_lt(s[i], c),
    ensures
        sorted_insert(s, c) == if i < s.len() && same_key(c, s[i]) {
            s.update(i, c)
        } else {
            s.insert(i, c)
        },
    decreases s.len(),
{
    if s.len() == 0 {
        assert(s.insert(0, c) =~= seq![c]);
    } else if i == 0 {
        if same_key(c, s[0]) {
            assert(seq![c] + s.drop_first() =~= s.update(0, c));
        } else {
            assert(conv_lt(c, s[0]));
            assert(seq![c] + s =~= s.insert(0, c));
        }
    } else {
        assert(conv_lt(s[0], c));
        assert(!conv_lt(c, s[0]));
        assert(!same_key(c, s[0]));
        let t = s.drop_first();
        assert forall|j: int| 0 <= j < i - 1 implies conv_lt(#[trigger] t[j], c) by {
            assert(t[j] == s[j + 1]);
        }
        lemma_sorted_insert_at(t, c, i - 1);
        if i < s.len() && same_key(c, s[i]) {
            assert(seq![s[0]] + t.update(i - 1, c) =~= s.update(i, c));
        } else {
            assert(seq![s[0]] + t.insert(i - 1, c) =~= s.insert(i, c));
        }
    }
}

/// Inserts `c` into `v` at its place in (hotkey, subnet) order.
fn insert_conversion(v: &mut Vec<Conversion>, c: Conversion)
    ensures
        final(v)@ == sorted_insert(old(v)@, c),
{
    let mut i: usize = 0;
    while i < v.len() && (v[i].hotkey < c.hotkey || (v[i].hotkey == c.hotkey && v[i].netuid < c.netuid))
        invariant
            0 <= i <= v.len(),
            v@ == old(v)@,
            forall|j: int| 0 <= j < i ==> conv_lt(#[trigger] v@[j], c),
        decreases v.len() - i,
    {
        i = i + 1;
    }
    proof {
        lemma_sorted_insert_at(v@, c, i as int);
    }
    if i < v.len() && v[i].hotkey == c.hotkey && v[i].netuid == c.netuid {
        v.set(i, c);
    } else {
        v.insert(i, c);
    }
}

proof fn lemma_pass_none_absorbs(
    stakes: Seq<StakeEntry>,
    netuid: NetUid,
    is_alpha: bool,
    p: MergeParams,
    an: FixedU64F64,
    acc: Option<Seq<Conversion>>,
    i: int,
    j: int,
)
    requires
        0 <= i <= j <= stakes.len(),
        conversion_pass(stakes.take(i), netuid, is_alpha, p, an, acc) is None,
    ensures
        conversion_pass(stakes.take(j), netuid, is_alpha, p, an, acc) is None,
    decreases j - i,
{
    if j > i {
        lemma_pass_none_absorbs(stakes, netuid, is_alpha, p, an, acc, i, j - 1);
        assert(stakes.take(j).drop_last() =~= stakes.take(j - 1));
    }
}

pub(crate) proof fn lemma_pass_of_none(
    stakes: Seq<StakeEntry>,
    netuid: NetUid,
    is_alpha: bool,
    p: MergeParams,
    an: FixedU64F64,
)
    ensures
        conversion_pass(stakes, netuid, is_alpha, p, an, None) is None,
    decreases stakes.len(),
{
    if stakes.len() > 0 {
        lemma_pass_of_none(stakes.drop_last(), netuid, is_alpha, p, an);
    }
}

/// The conversions of every holder of `netuid` in `stakes`, added to `convs`.
fn run_conversion_pass(
    stakes: &Vec<StakeEntry>,
    netuid: NetUid,
    is_alpha: bool,
    tao_alpha: FixedU64F64,
    tao_beta: FixedU64F64,
    alpha_total: FixedU64F64,
    beta_total: FixedU64F64,
    p_alpha: FixedU64F64,
    p_beta: FixedU64F64,
    an: FixedU64F64,
    convs: &mut Vec<Conversion>,
) -> (r: Result<(), Error>)
    requires
        tao_alpha.bits + tao_beta.bits <= u128::MAX,
    ensures
        ({
            let p = MergeParams { tao_alpha, tao_beta, alpha_total, beta_total, p_alpha, p_beta };
            match conversion_pass(stakes@, netuid, is_alpha, p, an, Some(old(convs)@)) {
                None => r == Err::<(), Error>(Error::Overflow),
                Some(c) => r is Ok && final(convs)@ == c,
            }
        }),
{
    let ghost p = MergeParams { tao_alpha, tao_beta, alpha_total, beta_total, p_alpha, p_beta };
    let ghost start = convs@;
    let tao_total = u64f64_add(tao_alpha, tao_beta);
    let mut i: usize = 0;
    while i < stakes.len()
        invariant
            0 <= i <= stakes.len(),
            tao_total == tao_sum(p),
            start == old(convs)@,
            p == (MergeParams { tao_alpha, tao_beta, alpha_total, beta_total, p_alpha, p_beta }),
            conversion_pass(stakes@.take(i as int), netuid, is_alpha, p, an, Some(start)) == Some(convs@),
        decreases stakes.len() - i,
    {
        let e = stakes[i];
        proof {
            assert(stakes@.take(i + 1).drop_last() =~= stakes@.take(i as int));
        }
        if e.netuid == netuid && e.amount != 0 {
            let stake = u64f64_from_u64(e.amount);
            proof {
                assert(e.amount * scale64() <= u128::MAX) by (nonlinear_arith)
                    requires e.amount <= u64::MAX, scale64() == 0x1_0000_0000_0000_0000int;
                assert(stake == int64(e.amount as int));
            }
            let converted = if is_alpha {
                Pallet::convert_alpha_holder(stake, alpha_total, tao_alpha, tao_beta)
            } else {
                Pallet::convert_beta_holder(stake, beta_total, tao_alpha, tao_beta, p_beta, p_alpha)
            };
            let new_amount = match converted {
                Ok(v) => v,
                Err(_) => {
                    proof {
                        assert(stakes@.take(i + 1).last() == e);
                        assert(conversion_pass(stakes@.take(i + 1), netuid, is_alpha, p, an, Some(start)) is None);
                        lemma_pass_none_absorbs(stakes@, netuid, is_alpha, p, an, Some(start), i + 1, stakes@.len() as int);
                        assert(stakes@.take(stakes@.len() as int) =~= stakes@);
                        assert(conversion_pass(stakes@, netuid, is_alpha, p, an, Some(start)) is None);
                        assert(start == old(convs)@);
                    }
                    return Err(Error::Overflow);
                },
            };
            let old_redeem = if is_alpha {
                Pallet::calculate_redeemability(stake, tao_alpha, alpha_total)
            } else {
                Pallet::calculate_redeemability(stake, tao_beta, beta_total)
            };
            let new_redeem = Pallet::calculate_redeemability(new_amount, tao_total, an);
            let delta = u64f64_to_i128(new_redeem) - u64f64_to_i128(old_redeem);
            let c = Conversion {
                hotkey: e.hotkey,
                netuid,
                result: ConversionResult { new_alpha_amount: new_amount, redeemability_delta: delta },
            };
            insert_conversion(convs, c);
        }
        i = i + 1;
    }
    proof {
        assert(stakes@.take(stakes@.len() as int) =~= stakes@);
    }
    Ok(())
}

/// Whether some entry of `stakes` holds stake on `alpha` or `beta`.
fn any_holder(stakes: &Vec<StakeEntry>, alpha: NetUid, beta: NetUid) -> (r: bool)
    ensures
        r == has_holders(stakes@, alpha, beta),
{
    let mut i: usize = 0;
    while i < stakes.len()
        invariant
            0 <= i <= stakes.len(),
            forall|j: int| 0 <= j < i ==> !is_holder(#[trigger] stakes@[j], alpha, beta),
        decreases stakes.len() - i,
    {
        let e = stakes[i];
        if (e.netuid == alpha || e.netuid == beta) && e.amount != 0 {
            assert(is_holder(stakes@[i as int], alpha, beta));
            return true;
        }
        i = i + 1;
    }
    false
}

impl Pallet {
    /// Converts every holder of both subnets, keyed and
    /// ordered by (hotkey, subnet).
    pub fn calculate_all_conversions(
        &self,
        alpha_netuid: NetUid,
        beta_netuid: NetUid,
        alpha_snapshot: &PoolSnapshot,
        beta_snapshot: &PoolSnapshot,
    ) -> (r: Result<Vec<Conversion>, Error>)
        requires
            alpha_snapshot.tao_reserve + beta_snapshot.tao_reserve <= u64::MAX,
            alpha_snapshot.price.bits < scale64() * scale32(),
            beta_snapshot.price.bits < scale64() * scale32(),
        ensures
            match all_conversions(self@, alpha_netuid, beta_netuid, *alpha_snapshot, *beta_snapshot) {
                None => r == Err::<Vec<Conversion>, Error>(Error::Overflow),
                Some(c) => r matches Ok(v) && v@ == c,
            },
    {
        let tao_alpha = u64f64_from_u64(alpha_snapshot.tao_reserve);
        let tao_beta = u64f64_from_u64(beta_snapshot.tao_reserve);
        let alpha_total = u64f64_from_u64(alpha_snapshot.alpha_reserve);
        let beta_total = u64f64_from_u64(beta_snapshot.alpha_reserve);
        let p_alpha = u64f64_from_u96f32(alpha_snapshot.price);
        let p_beta = u64f64_from_u96f32(beta_snapshot.price);
        let ghost p = merge_params(*alpha_snapshot, *beta_snapshot);
        proof {
            assert((alpha_snapshot.tao_reserve + beta_snapshot.tao_reserve) * scale64() <= u128::MAX)
                by (nonlinear_arith)
                requires
                    alpha_snapshot.tao_reserve + beta_snapshot.tao_reserve <= u64::MAX,
                    scale64() == 0x1_0000_0000_0000_0000int,
            ;
            assert(tao_alpha.bits + tao_beta.bits == (alpha_snapshot.tao_reserve + beta_snapshot.tao_reserve)
                * scale64()) by (nonlinear_arith)
                requires
                    tao_alpha.bits == alpha_snapshot.tao_reserve * scale64(),
                    tao_beta.bits == beta_snapshot.tao_reserve * scale64(),
            ;
            assert(alpha_snapshot.tao_reserve * scale64() <= u128::MAX) by (nonlinear_arith)
                requires alpha_snapshot.tao_reserve <= u64::MAX, scale64() == 0x1_0000_0000_0000_0000int;
            assert(beta_snapshot.tao_reserve * scale64() <= u128::MAX) by (nonlinear_arith)
                requires beta_snapshot.tao_reserve <= u64::MAX, scale64() == 0x1_0000_0000_0000_0000int;
            assert(alpha_snapshot.alpha_reserve * scale64() <= u128::MAX) by (nonlinear_arith)
                requires alpha_snapshot.alpha_reserve <= u64::MAX, scale64() == 0x1_0000_0000_0000_0000int;
            assert(beta_snapshot.alpha_reserve * scale64() <= u128::MAX) by (nonlinear_arith)
                requires beta_snapshot.alpha_reserve <= u64::MAX, scale64() == 0x1_0000_0000_0000_0000int;
            assert(alpha_snapshot.price.bits * scale32() <= u128::MAX) by (nonlinear_arith)
                requires alpha_snapshot.price.bits < scale64() * scale32(), scale64() == 0x1_0000_0000_0000_0000int,
                    scale32() == 0x1_0000_0000int;
            assert(beta_snapshot.price.bits * scale32() <= u128::MAX) by (nonlinear_arith)
                requires beta_snapshot.price.bits < scale64() * scale32(), scale64() == 0x1_0000_0000_0000_0000int,
                    scale32() == 0x1_0000_0000int;
            assert(p == MergeParams { tao_alpha, tao_beta, alpha_total, beta_total, p_alpha, p_beta });
        }
        let tao_total = u64f64_add(tao_alpha, tao_beta);
        let an = match u64f64_checked_div(tao_total, p_alpha) {
            Some(v) => v,
            None => {
                if any_holder(&self.total_hotkey_alpha, alpha_netuid, beta_netuid) {
                    return Err(Error::Overflow);
                }
                return Ok(Vec::new());
            },
        };
        let mut convs: Vec<Conversion> = Vec::new();
        proof {
            lemma_pass_of_none(self.total_hotkey_alpha@, beta_netuid, false, p, an);
        }
        run_conversion_pass(
            &self.total_hotkey_alpha,
            alpha_netuid,
            true,
            tao_alpha,
            tao_beta,
            alpha_total,
            beta_total,
            p_alpha,
            p_beta,
            an,
            &mut convs,
        )?;
        run_conversion_pass(
            &self.total_hotkey_alpha,
            beta_netuid,
            false,
            tao_alpha,
            tao_beta,
            alpha_total,
            beta_total,
            p_alpha,
            p_beta,
            an,
            &mut convs,
        )?;
        Ok(convs)
    }
}

} // verus!
