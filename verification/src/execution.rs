//! Execution of an approved merger: conversions applied, pools consolidated,
//! redeemability checked and the merged subnet cleaned up.

use vstd::prelude::*;
use crate::conversions::all_conversions;
use crate::emission::after_drain;
use crate::liquidity::{after_dissolve, sat_add_u64, sat_sub_u64};
use crate::fixed::{
    checked_div32, floor64, fx32, scale32, u64f64_to_u64, u96f32_checked_div,
    u96f32_from_u64, u96f32_to_u64,
};
use crate::snapshot::{lemma_snapshot_price_small, snapshot_of};
use crate::stakes::{
    lemma_remove_stake, lemma_set_stake, read_stake, remove_stake, set_stake, stake_of,
    stakes_unique, take_stake, write_stake,
};
use crate::state::{Pallet, PalletModel, balance_of, get_u64, lemma_filter_step, read_balance, pair_set_contains, pair_set_remove, read_u64};
use crate::types::{
    AccountId, BlockNumber, Conversion, Error, MergerEvent, MergerStatus, NetUid, PoolSnapshot,
    REDEEMABILITY_ROUNDING_TOLERANCE,
};

verus! {

broadcast use vstd::std_specs::hash::group_hash_axioms;

// ---------------------------------------------------------------------------
// Safety of the merger direction and size
// ---------------------------------------------------------------------------

/// Largest combined TAO reserve a merger may produce (exclusive).
pub open spec fn max_safe_tao() -> u64 {
    (u64::MAX / 2) as u64
}

/// The surviving pool holds at least as much TAO as the merged one, and the
/// combined reserve stays below half the `u64` range.
pub open spec fn safety_check(a: PoolSnapshot, b: PoolSnapshot) -> Result<(), Error> {
    if a.tao_reserve < b.tao_reserve {
        Err(Error::InvalidMergerDirection)
    } else if a.tao_reserve + b.tao_reserve >= max_safe_tao() {
        Err(Error::ReserveOverflow)
    } else {
        Ok(())
    }
}

// ---------------------------------------------------------------------------
// Applying conversions to the stakes
// ---------------------------------------------------------------------------

/// Integer part of a holder's new stake.
pub open spec fn new_raw(c: Conversion) -> u64 {
    floor64(c.result.new_alpha_amount) as u64
}

/// Stake of the holder of `c` on `alpha` once their `beta` entry is taken out.
pub open spec fn alpha_stake_after_take(s: PalletModel, c: Conversion, alpha: NetUid, beta: NetUid) -> u64 {
    stake_of(remove_stake(s.stakes, c.hotkey, beta), c.hotkey, alpha)
}

/// State after one conversion: a holder of `alpha` gets their new stake; a
/// holder of `beta` loses that stake and gains the converted amount on
/// `alpha`.
pub open spec fn apply_step(s: PalletModel, c: Conversion, alpha: NetUid, beta: NetUid) -> PalletModel {
    if c.netuid == alpha {
        PalletModel { stakes: set_stake(s.stakes, c.hotkey, alpha, new_raw(c)), ..s }
    } else if c.netuid == beta {
        let taken = remove_stake(s.stakes, c.hotkey, beta);
        let total = (alpha_stake_after_take(s, c, alpha, beta) + new_raw(c)) as u64;
        PalletModel {
            stakes: set_stake(taken, c.hotkey, alpha, total),
            events: s.events.push(
                MergerEvent::TokensConverted {
                    account: c.hotkey,
                    source_netuid: beta,
                    target_netuid: alpha,
                    old_amount: stake_of(s.stakes, c.hotkey, beta),
                    new_amount: new_raw(c),
                },
            ),
            ..s
        }
    } else {
        s
    }
}

/// One conversion does not overflow a stake.
pub open spec fn apply_step_fits(s: PalletModel, c: Conversion, alpha: NetUid, beta: NetUid) -> bool {
    c.netuid != alpha && c.netuid == beta ==> alpha_stake_after_take(s, c, alpha, beta) + new_raw(c)
        <= u64::MAX
}

/// Whether `c` is applied in the pass over the merged subnet (`on_beta`)
/// or in the pass over the surviving subnet.
pub open spec fn in_pass(c: Conversion, alpha: NetUid, beta: NetUid, on_beta: bool) -> bool {
    if on_beta {
        c.netuid == beta && c.netuid != alpha
    } else {
        c.netuid == alpha
    }
}

/// State after the conversions of one pass, in order.
pub open spec fn apply_pass(s: PalletModel, convs: Seq<Conversion>, alpha: NetUid, beta: NetUid, on_beta: bool) -> PalletModel
    decreases convs.len(),
{
    if convs.len() == 0 {
        s
    } else {
        let prev = apply_pass(s, convs.drop_last(), alpha, beta, on_beta);
        if in_pass(convs.last(), alpha, beta, on_beta) {
            apply_step(prev, convs.last(), alpha, beta)
        } else {
            prev
        }
    }
}

/// No conversion of one pass overflows a stake.
pub open spec fn pass_fits(s: PalletModel, convs: Seq<Conversion>, alpha: NetUid, beta: NetUid, on_beta: bool) -> bool
    decreases convs.len(),
{
    if convs.len() == 0 {
        true
    } else {
        pass_fits(s, convs.drop_last(), alpha, beta, on_beta) && (in_pass(convs.last(), alpha, beta, on_beta)
            ==> apply_step_fits(apply_pass(s, convs.drop_last(), alpha, beta, on_beta), convs.last(), alpha, beta))
    }
}

/// State after all conversions: first every holder of the surviving subnet
/// gets their new stake, then every holder of the merged subnet has their
/// converted stake added on the surviving subnet. A hotkey holding stake on
/// both thus ends with the sum of both converted amounts.
pub open spec fn apply_all(s: PalletModel, convs: Seq<Conversion>, alpha: NetUid, beta: NetUid) -> PalletModel {
    apply_pass(apply_pass(s, convs, alpha, beta, false), convs, alpha, beta, true)
}

/// None of the conversions overflows a stake.
pub open spec fn apply_fits(s: PalletModel, convs: Seq<Conversion>, alpha: NetUid, beta: NetUid) -> bool {
    pass_fits(apply_pass(s, convs, alpha, beta, false), convs, alpha, beta, true)
}

proof fn lemma_pass_fits_prefix(
    s: PalletModel,
    convs: Seq<Conversion>,
    alpha: NetUid,
    beta: NetUid,
    on_beta: bool,
    i: int,
)
    requires
        pass_fits(s, convs, alpha, beta, on_beta),
        0 <= i <= convs.len(),
    ensures
        pass_fits(s, convs.take(i), alpha, beta, on_beta),
    decreases convs.len() - i,
{
    if i < convs.len() {
        assert(convs.drop_last().take(i) =~= convs.take(i));
        lemma_pass_fits_prefix(s, convs.drop_last(), alpha, beta, on_beta, i);
    } else {
        assert(convs.take(i) =~= convs);
    }
}

proof fn lemma_alpha_pass_fits(s: PalletModel, convs: Seq<Conversion>, alpha: NetUid, beta: NetUid)
    ensures
        pass_fits(s, convs, alpha, beta, false),
    decreases convs.len(),
{
    if convs.len() > 0 {
        lemma_alpha_pass_fits(s, convs.drop_last(), alpha, beta);
    }
}

// ---------------------------------------------------------------------------
// Redeemability conservation
// ---------------------------------------------------------------------------

/// `a + b`, saturated at the bounds of `i128`.
pub open spec fn sat_add_i128(a: i128, b: i128) -> i128 {
    if a + b > i128::MAX {
        i128::MAX
    } else if a + b < i128::MIN {
        i128::MIN
    } else {
        (a + b) as i128
    }
}

/// Sum of the redeemability changes of `convs`, added in order with saturation.
pub open spec fn total_change(convs: Seq<Conversion>) -> i128
    decreases convs.len(),
{
    if convs.len() == 0 {
        0
    } else {
        sat_add_i128(total_change(convs.drop_last()), convs.last().result.redeemability_delta)
    }
}

/// No holder loses more than the rounding tolerance.
pub open spec fn each_within_tolerance(convs: Seq<Conversion>) -> bool {
    forall|i: int|
        0 <= i < convs.len() ==> #[trigger] convs[i].result.redeemability_delta
            >= -REDEEMABILITY_ROUNDING_TOLERANCE
}

/// Tolerance for the whole system: the per-holder tolerance times the number
/// of stakers of both pools.
pub open spec fn total_tolerance(a: PoolSnapshot, b: PoolSnapshot) -> i128 {
    let stakers = if a.total_stakers + b.total_stakers <= u32::MAX {
        a.total_stakers + b.total_stakers
    } else {
        u32::MAX as int
    };
    (REDEEMABILITY_ROUNDING_TOLERANCE * stakers) as i128
}

/// Whether the conversions conserve redeemability within tolerance.
pub open spec fn conservation_check(convs: Seq<Conversion>, a: PoolSnapshot, b: PoolSnapshot) -> Result<(), Error> {
    if each_within_tolerance(convs) && total_change(convs) >= -total_tolerance(a, b) {
        Ok(())
    } else {
        Err(Error::RedeemabilityViolation)
    }
}

// ---------------------------------------------------------------------------
// Pool consolidation
// ---------------------------------------------------------------------------

/// Combined TAO reserve of the surviving pool.
pub open spec fn consolidated_tao(a: PoolSnapshot, b: PoolSnapshot) -> u64 {
    (a.tao_reserve + b.tao_reserve) as u64
}

/// Alpha reserve that keeps the surviving pool's price: `τ_new / p_α`, as a
/// fixed-point number.
pub open spec fn consolidated_alpha(a: PoolSnapshot, b: PoolSnapshot) -> Option<crate::fixed::FixedU96F32> {
    checked_div32(fx32((consolidated_tao(a, b) * scale32()) as u128), a.price)
}

/// Integer part of the price-keeping alpha reserve.
pub open spec fn alpha_new_raw(a: PoolSnapshot, b: PoolSnapshot) -> int {
    consolidated_alpha(a, b)->0.bits as int / scale32()
}

/// Alpha minted into the surviving pool.
pub open spec fn minted_alpha(a: PoolSnapshot, b: PoolSnapshot) -> u64 {
    if alpha_new_raw(a, b) >= a.alpha_reserve {
        (alpha_new_raw(a, b) - a.alpha_reserve) as u64
    } else {
        0
    }
}

/// Consolidation fails only when the reserves overflow or the price is zero.
pub open spec fn consolidate_check(a: PoolSnapshot, b: PoolSnapshot) -> Result<(), Error> {
    if a.tao_reserve + b.tao_reserve > u64::MAX {
        Err(Error::ReserveOverflow)
    } else if consolidated_alpha(a, b) is None {
        Err(Error::Overflow)
    } else {
        Ok(())
    }
}

/// Consolidation does not overflow a `u64`.
pub open spec fn consolidate_fits(s: PalletModel, alpha: NetUid, a: PoolSnapshot, b: PoolSnapshot) -> bool {
    consolidate_check(a, b) is Ok ==> {
        &&& alpha_new_raw(a, b) <= u64::MAX
        &&& get_u64(s.subnet_alpha_in, alpha) + minted_alpha(a, b) <= u64::MAX
        &&& get_u64(s.subnet_alpha_out, alpha) + b.alpha_out <= u64::MAX
    }
}

/// Pending emission after the merged subnet's pending emission moves to the
/// surviving one.
pub open spec fn moved_emission(m: Map<NetUid, u64>, alpha: NetUid, beta: NetUid) -> Map<NetUid, u64> {
    let pending_beta = get_u64(m, beta);
    let taken = m.remove(beta);
    if pending_beta != 0 {
        let cur = get_u64(taken, alpha);
        taken.insert(
            alpha,
            if cur + pending_beta <= u64::MAX {
                (cur + pending_beta) as u64
            } else {
                u64::MAX
            },
        )
    } else {
        taken
    }
}

/// State after consolidation: the surviving pool holds both TAO reserves
/// (its base TAO is set so that with its provided TAO it holds the sum of
/// both pools' reserves), alpha minted to keep its price and both alpha-out
/// amounts; the merged pool's reserves are gone and whatever pending
/// emission it still has moves over.
pub open spec fn after_consolidate(s: PalletModel, alpha: NetUid, beta: NetUid, a: PoolSnapshot, b: PoolSnapshot) -> PalletModel {
    let tao_new = consolidated_tao(a, b);
    let provided = get_u64(s.subnet_tao_provided, alpha);
    let tao_base = if tao_new >= provided {
        (tao_new - provided) as u64
    } else {
        0
    };
    let alpha_in = get_u64(s.subnet_alpha_in, alpha);
    let alpha_out = get_u64(s.subnet_alpha_out, alpha);
    PalletModel {
        subnet_tao: s.subnet_tao.insert(alpha, tao_base).remove(beta),
        subnet_tao_provided: s.subnet_tao_provided.remove(beta),
        subnet_alpha_in: s.subnet_alpha_in.insert(alpha, (alpha_in + minted_alpha(a, b)) as u64).remove(
            beta,
        ),
        subnet_alpha_in_provided: s.subnet_alpha_in_provided.remove(beta),
        subnet_alpha_out: s.subnet_alpha_out.insert(alpha, (alpha_out + b.alpha_out) as u64).remove(beta),
        pending_emission: moved_emission(s.pending_emission, alpha, beta),
        events: s.events.push(
            MergerEvent::PoolsConsolidated {
                alpha,
                beta,
                new_tao_reserve: tao_new,
                new_alpha_reserve: alpha_new_raw(a, b) as u64,
                delta_alpha_minted: minted_alpha(a, b),
            },
        ),
        ..s
    }
}

// ---------------------------------------------------------------------------
// Cleanup of the merged subnet
// ---------------------------------------------------------------------------

/// Per-mechanism storage of `netuid` for mechanisms below `count`.
pub open spec fn mechanisms_of(netuid: NetUid, count: u8) -> Set<(NetUid, u8)> {
    Set::new(|p: (NetUid, u8)| p.0 == netuid && p.1 < count)
}

/// Block at which `netuid` was registered, zero when not recorded.
pub open spec fn registered_at(s: PalletModel, netuid: NetUid) -> BlockNumber {
    if s.network_registered_at.contains_key(netuid) {
        s.network_registered_at[netuid]
    } else {
        0
    }
}

/// TAO paid back to the owner of `netuid` when it is removed: a subnet
/// registered before the registration start block gets its lock back, less
/// the TAO value of the emission its owner has received; any other subnet
/// gets nothing.
pub open spec fn lock_refund(s: PalletModel, netuid: NetUid) -> u64 {
    if registered_at(s, netuid) < s.network_registration_start_block {
        sat_sub_u64(get_u64(s.subnet_locked, netuid), get_u64(s.owner_received_tao, netuid))
    } else {
        0
    }
}

/// Balances once the owner of `beta`, where it has one, is paid its lock
/// refund (saturating).
pub open spec fn refunded_balances(s: PalletModel, beta: NetUid) -> Map<AccountId, u64> {
    if s.subnet_owner.contains_key(beta) && lock_refund(s, beta) != 0 {
        let owner = s.subnet_owner[beta];
        s.balances.insert(owner, sat_add_u64(balance_of(s.balances, owner), lock_refund(s, beta)))
    } else {
        s.balances
    }
}

/// State after the merged subnet is removed: its owner is paid the lock
/// refund; its registration, owner, lock, registration block, owner
/// emission, mechanisms, settings and pending emission are gone and one
/// network fewer is counted. Its merger history stays.
pub open spec fn after_cleanup(s: PalletModel, beta: NetUid) -> PalletModel {
    let count = if s.mechanism_count.contains_key(beta) {
        s.mechanism_count[beta]
    } else {
        0
    };
    PalletModel {
        subnet_owner: s.subnet_owner.remove(beta),
        subnet_locked: s.subnet_locked.remove(beta),
        networks_added: s.networks_added.remove(beta),
        total_networks: if s.total_networks >= 1 {
            (s.total_networks - 1) as u16
        } else {
            0
        },
        mechanism_storage: s.mechanism_storage.difference(mechanisms_of(beta, count)),
        subnet_params: s.subnet_params.remove(beta),
        pending_emission: s.pending_emission.remove(beta),
        mechanism_count: s.mechanism_count.remove(beta),
        balances: refunded_balances(s, beta),
        network_registered_at: s.network_registered_at.remove(beta),
        owner_received_tao: s.owner_received_tao.remove(beta),
        events: s.events.push(MergerEvent::SubnetCleaned { netuid: beta }),
        ..s
    }
}

// ---------------------------------------------------------------------------
// The whole merger
// ---------------------------------------------------------------------------

/// `s` once both subnets' liquidity positions are dissolved and then their
/// pending emission is paid out.
pub open spec fn prepared(s: PalletModel, alpha: NetUid, beta: NetUid) -> PalletModel {
    after_drain(after_drain(after_dissolve(after_dissolve(s, alpha), beta), alpha), beta)
}

/// Whether a merger from `s` is refused before any stake or pool changes:
/// a snapshot cannot be taken, the direction or size is unsafe, or a
/// conversion fails.
pub open spec fn refused_early(s: PalletModel, alpha: NetUid, beta: NetUid) -> bool {
    let d = prepared(s, alpha, beta);
    match snapshot_of(d, alpha) {
        Err(_) => true,
        Ok(a) => match snapshot_of(d, beta) {
            Err(_) => true,
            Ok(b) => safety_check(a, b) is Err || all_conversions(d, alpha, beta, a, b) is None,
        },
    }
}

/// Result of merging `beta` into `alpha` from state `s`: the final state, or
/// the first check that refuses it. Both subnets' pending emission is paid
/// out to their stakers before the pools are looked at.
pub open spec fn execute_merger_result(s0: PalletModel, alpha: NetUid, beta: NetUid) -> Result<PalletModel, Error> {
    let s = prepared(s0, alpha, beta);
    match snapshot_of(s, alpha) {
        Err(e) => Err(e),
        Ok(a) => match snapshot_of(s, beta) {
            Err(e) => Err(e),
            Ok(b) => match safety_check(a, b) {
                Err(e) => Err(e),
                Ok(_) => match all_conversions(s, alpha, beta, a, b) {
                    None => Err(Error::Overflow),
                    Some(convs) => match consolidate_check(a, b) {
                        Err(e) => Err(e),
                        Ok(_) => match conservation_check(convs, a, b) {
                            Err(e) => Err(e),
                            Ok(_) => Ok(
                                after_cleanup(
                                    after_consolidate(apply_all(s, convs, alpha, beta), alpha, beta, a, b),
                                    beta,
                                ),
                            ),
                        },
                    },
                },
            },
        },
    }
}

/// Merging `beta` into `alpha` from `s` overflows no `u64` on the way.
pub open spec fn execution_fits(s0: PalletModel, alpha: NetUid, beta: NetUid) -> bool {
    let s = prepared(s0, alpha, beta);
    match snapshot_of(s, alpha) {
        Err(_) => true,
        Ok(a) => match snapshot_of(s, beta) {
            Err(_) => true,
            Ok(b) => match safety_check(a, b) {
                Err(_) => true,
                Ok(_) => match all_conversions(s, alpha, beta, a, b) {
                    None => true,
                    Some(convs) => apply_fits(s, convs, alpha, beta) && consolidate_fits(
                        apply_all(s, convs, alpha, beta),
                        alpha,
                        a,
                        b,
                    ),
                },
            },
        },
    }
}

/// `s` with the proposal of `alpha` marked as executing.
pub open spec fn mark_executing(s: PalletModel, alpha: NetUid) -> PalletModel {
    let p = s.pending_merger[alpha];
    PalletModel { pending_merger: s.pending_merger.insert(alpha, (p.0, p.1, MergerStatus::Executing)), ..s }
}

/// Outcome of executing the merger proposed for `alpha`.
pub open spec fn execute_result(s: PalletModel, alpha: NetUid) -> Result<(), Error> {
    if !s.pending_merger.contains_key(alpha) {
        Err(Error::NoMergerProposal)
    } else if s.pending_merger[alpha].2 != MergerStatus::Approved {
        Err(Error::MergerNotApproved)
    } else if !s.merger_consent.contains((alpha, s.pending_merger[alpha].0)) {
        Err(Error::MergerNotApproved)
    } else {
        match execute_merger_result(mark_executing(s, alpha), alpha, s.pending_merger[alpha].0) {
            Err(e) => Err(e),
            Ok(_) => Ok(()),
        }
    }
}

/// State after the merger proposed for `alpha` is executed at `block`: the
/// merged state, without the proposal and its consent, with the merger
/// recorded in the history.
pub open spec fn after_execute(s: PalletModel, alpha: NetUid, block: BlockNumber) -> PalletModel {
    let beta = s.pending_merger[alpha].0;
    let merged = execute_merger_result(mark_executing(s, alpha), alpha, beta)->Ok_0;
    PalletModel {
        pending_merger: merged.pending_merger.remove(alpha),
        merger_consent: merged.merger_consent.remove((alpha, beta)),
        merger_history: merged.merger_history.insert(beta, (alpha, block)),
        events: merged.events.push(MergerEvent::MergerExecuted { alpha, beta, block }),
        ..merged
    }
}

/// Executing the approved, consented merger proposed for `alpha` overflows
/// no `u64` (a merger that is not approved is refused before it runs).
pub open spec fn extrinsic_fits(s: PalletModel, alpha: NetUid) -> bool {
    s.pending_merger.contains_key(alpha) && s.pending_merger[alpha].2 == MergerStatus::Approved
        && s.merger_consent.contains((alpha, s.pending_merger[alpha].0)) ==> execution_fits(
        mark_executing(s, alpha),
        alpha,
        s.pending_merger[alpha].0,
    )
}

} // verus!

verus! {

/// Removes `(netuid, mechanism)` from `v`.
fn mechanism_storage_remove(v: &mut Vec<(NetUid, u8)>, netuid: NetUid, mechanism: u8)
    ensures
        final(v)@.to_set() == old(v)@.to_set().remove((netuid, mechanism)),
{
    let mut kept: Vec<(NetUid, u8)> = Vec::new();
    let mut i: usize = 0;
    while i < v.len()
        invariant
            0 <= i <= v.len(),
            forall|p: (NetUid, u8)| #[trigger] kept@.contains(p) <==> (p != (netuid, mechanism) && exists|k: int|
                0 <= k < i && v@[k] == p),
        decreases v.len() - i,
    {
        let p = v[i];
        let ghost before = kept@;
        if !(p.0 == netuid && p.1 == mechanism) {
            kept.push(p);
        }
        proof {
            lemma_filter_step(before, kept@, v@, i as int, (netuid, mechanism));
        }
        i = i + 1;
    }
    *v = kept;
    assert(v@.to_set() =~= old(v)@.to_set().remove((netuid, mechanism)));
}

/// Removes the per-mechanism storage of `netuid` for mechanisms below `count`.
fn remove_subnet_mechanisms(v: &mut Vec<(NetUid, u8)>, netuid: NetUid, count: u8)
    ensures
        final(v)@.to_set() == old(v)@.to_set().difference(mechanisms_of(netuid, count)),
{
    let ghost start = v@.to_set();
    let mut m: u8 = 0;
    assert(start.difference(mechanisms_of(netuid, 0)) =~= start);
    while m < count
        invariant
            0 <= m <= count,
            start == old(v)@.to_set(),
            v@.to_set() == start.difference(mechanisms_of(netuid, m)),
        decreases count - m,
    {
        mechanism_storage_remove(v, netuid, m);
        assert(start.difference(mechanisms_of(netuid, m)).remove((netuid, m)) =~= start.difference(
            mechanisms_of(netuid, (m + 1) as u8),
        ));
        m = m + 1;
    }
}

/// A copy of `v`.
fn copy_vec<T: Copy>(v: &Vec<T>) -> (r: Vec<T>)
    ensures
        r@ == v@,
{
    let mut r: Vec<T> = Vec::new();
    let mut i: usize = 0;
    while i < v.len()
        invariant
            0 <= i <= v.len(),
            r@ == v@.take(i as int),
        decreases v.len() - i,
    {
        r.push(v[i]);
        assert(r@ =~= v@.take(i + 1));
        i = i + 1;
    }
    assert(v@.take(v.len() as int) =~= v@);
    r
}

impl Pallet {
    /// A copy of the whole state.
    fn duplicate(&self) -> (r: Pallet)
        ensures
            r@ == self@,
    {
        Pallet {
            networks_added: self.networks_added.clone(),
            total_networks: self.total_networks,
            subnet_owner: self.subnet_owner.clone(),
            subnet_locked: self.subnet_locked.clone(),
            mechanism_count: self.mechanism_count.clone(),
            mechanism_storage: copy_vec(&self.mechanism_storage),
            subnet_params: self.subnet_params.clone(),
            subnet_tao: self.subnet_tao.clone(),
            subnet_tao_provided: self.subnet_tao_provided.clone(),
            subnet_alpha_in: self.subnet_alpha_in.clone(),
            subnet_alpha_in_provided: self.subnet_alpha_in_provided.clone(),
            subnet_alpha_out: self.subnet_alpha_out.clone(),
            pending_emission: self.pending_emission.clone(),
            pending_root_alpha_divs: self.pending_root_alpha_divs.clone(),
            pending_owner_cut: self.pending_owner_cut.clone(),
            total_hotkey_alpha: copy_vec(&self.total_hotkey_alpha),
            balances: self.balances.clone(),
            positions: copy_vec(&self.positions),
            network_registered_at: self.network_registered_at.clone(),
            network_registration_start_block: self.network_registration_start_block,
            owner_received_tao: self.owner_received_tao.clone(),
            pending_merger: self.pending_merger.clone(),
            merger_consent: copy_vec(&self.merger_consent),
            merger_history: self.merger_history.clone(),
            events: copy_vec(&self.events),
        }
    }

    /// Checks that the surviving pool is the larger one and that the
    /// combined TAO reserve stays well inside the `u64` range.
    pub(crate) fn validate_merger_safety(alpha_snapshot: &PoolSnapshot, beta_snapshot: &PoolSnapshot) -> (r:
        Result<(), Error>)
        ensures
            r == safety_check(*alpha_snapshot, *beta_snapshot),
    {
        if alpha_snapshot.tao_reserve < beta_snapshot.tao_reserve {
            return Err(Error::InvalidMergerDirection);
        }
        let combined = alpha_snapshot.tao_reserve.saturating_add(beta_snapshot.tao_reserve);
        if !(combined < u64::MAX / 2) {
            return Err(Error::ReserveOverflow);
        }
        Ok(())
    }

    /// Applies the conversions of one pass (see `apply_all`).
    fn apply_conversion_pass(
        &mut self,
        alpha_netuid: NetUid,
        beta_netuid: NetUid,
        conversions: &Vec<Conversion>,
        on_beta: bool,
    )
        requires
            old(self).wf(),
            pass_fits(old(self)@, conversions@, alpha_netuid, beta_netuid, on_beta),
        ensures
            final(self).wf(),
            final(self)@ == apply_pass(old(self)@, conversions@, alpha_netuid, beta_netuid, on_beta),
    {
        let mut i: usize = 0;
        while i < conversions.len()
            invariant
                0 <= i <= conversions.len(),
                self.wf(),
                pass_fits(old(self)@, conversions@, alpha_netuid, beta_netuid, on_beta),
                self@ == apply_pass(old(self)@, conversions@.take(i as int), alpha_netuid, beta_netuid, on_beta),
            decreases conversions.len() - i,
        {
            let c = conversions[i];
            proof {
                lemma_pass_fits_prefix(old(self)@, conversions@, alpha_netuid, beta_netuid, on_beta, i + 1);
                assert(conversions@.take(i + 1).drop_last() =~= conversions@.take(i as int));
                assert(conversions@.take(i + 1).last() == c);
            }
            let ghost prev = self@;
            let new_amount_raw = u64f64_to_u64(c.result.new_alpha_amount);
            if !on_beta && c.netuid == alpha_netuid {
                proof {
                    lemma_set_stake(self.total_hotkey_alpha@, c.hotkey, alpha_netuid, new_amount_raw);
                }
                write_stake(&mut self.total_hotkey_alpha, c.hotkey, alpha_netuid, new_amount_raw);
                assert(self@ =~= apply_step(prev, c, alpha_netuid, beta_netuid));
            } else if on_beta && c.netuid == beta_netuid && c.netuid != alpha_netuid {
                proof {
                    lemma_remove_stake(self.total_hotkey_alpha@, c.hotkey, beta_netuid);
                }
                let beta_amount = take_stake(&mut self.total_hotkey_alpha, c.hotkey, beta_netuid);
                let current = read_stake(&self.total_hotkey_alpha, c.hotkey, alpha_netuid);
                let new_total = current + new_amount_raw;
                proof {
                    lemma_set_stake(self.total_hotkey_alpha@, c.hotkey, alpha_netuid, new_total);
                }
                write_stake(&mut self.total_hotkey_alpha, c.hotkey, alpha_netuid, new_total);
                self.events.push(
                    MergerEvent::TokensConverted {
                        account: c.hotkey,
                        source_netuid: beta_netuid,
                        target_netuid: alpha_netuid,
                        old_amount: beta_amount,
                        new_amount: new_amount_raw,
                    },
                );
                assert(self@ =~= apply_step(prev, c, alpha_netuid, beta_netuid));
            }
            i = i + 1;
        }
        proof {
            assert(conversions@.take(conversions@.len() as int) =~= conversions@);
        }
    }

    /// Gives every holder their converted stake: holders of `alpha_netuid`
    /// get their new amount, then holders of `beta_netuid` lose their entry
    /// and have the converted amount added on `alpha_netuid`.
    pub(crate) fn apply_token_conversions(
        &mut self,
        alpha_netuid: NetUid,
        beta_netuid: NetUid,
        conversions: &Vec<Conversion>,
    )
        requires
            old(self).wf(),
            apply_fits(old(self)@, conversions@, alpha_netuid, beta_netuid),
        ensures
            final(self).wf(),
            final(self)@ == apply_all(old(self)@, conversions@, alpha_netuid, beta_netuid),
    {
        proof {
            lemma_alpha_pass_fits(self@, conversions@, alpha_netuid, beta_netuid);
        }
        self.apply_conversion_pass(alpha_netuid, beta_netuid, conversions, false);
        self.apply_conversion_pass(alpha_netuid, beta_netuid, conversions, true);
    }

    /// Checks that no holder loses more redeemable TAO than the rounding
    /// tolerance and that the system as a whole loses no more than the
    /// tolerance per staker.
    pub(crate) fn verify_redeemability_conservation(
        alpha_snapshot: &PoolSnapshot,
        beta_snapshot: &PoolSnapshot,
        conversions: &Vec<Conversion>,
    ) -> (r: Result<(), Error>)
        ensures
            r == conservation_check(conversions@, *alpha_snapshot, *beta_snapshot),
    {
        let mut total: i128 = 0;
        let mut i: usize = 0;
        while i < conversions.len()
            invariant
                0 <= i <= conversions.len(),
                total == total_change(conversions@.take(i as int)),
                each_within_tolerance(conversions@.take(i as int)),
            decreases conversions.len() - i,
        {
            let delta = conversions[i].result.redeemability_delta;
            proof {
                assert(conversions@.take(i + 1).drop_last() =~= conversions@.take(i as int));
            }
            if delta < -REDEEMABILITY_ROUNDING_TOLERANCE {
                proof {
                    assert(!each_within_tolerance(conversions@)) by {
                        assert(conversions@[i as int].result.redeemability_delta < -REDEEMABILITY_ROUNDING_TOLERANCE);
                    }
                }
                return Err(Error::RedeemabilityViolation);
            }
            total = if delta >= 0 {
                if total > i128::MAX - delta {
                    i128::MAX
                } else {
                    total + delta
                }
            } else {
                if total < i128::MIN - delta {
                    i128::MIN
                } else {
                    total + delta
                }
            };
            proof {
                assert forall|k: int| 0 <= k < i + 1 implies #[trigger] conversions@.take(i + 1)[k].result.redeemability_delta
                    >= -REDEEMABILITY_ROUNDING_TOLERANCE by {
                    if k < i {
                        assert(conversions@.take(i + 1)[k] == conversions@.take(i as int)[k]);
                    }
                }
            }
            i = i + 1;
        }
        proof {
            assert(conversions@.take(conversions@.len() as int) =~= conversions@);
        }
        let stakers = alpha_snapshot.total_stakers.saturating_add(beta_snapshot.total_stakers);
        let total_tolerance: i128 = REDEEMABILITY_ROUNDING_TOLERANCE * (stakers as i128);
        if total < -total_tolerance {
            return Err(Error::RedeemabilityViolation);
        }
        Ok(())
    }

    /// Moves the merged pool's TAO into the surviving pool, mints alpha so
    /// that the surviving pool keeps its price, adds the merged pool's
    /// alpha-out and pending emission, and clears the merged pool.
    pub(crate) fn consolidate_pools(
        &mut self,
        alpha_netuid: NetUid,
        beta_netuid: NetUid,
        alpha_snapshot: &PoolSnapshot,
        beta_snapshot: &PoolSnapshot,
    ) -> (r: Result<(), Error>)
        requires
            consolidate_fits(old(self)@, alpha_netuid, *alpha_snapshot, *beta_snapshot),
        ensures
            r == consolidate_check(*alpha_snapshot, *beta_snapshot),
            r is Ok ==> final(self)@ == after_consolidate(
                old(self)@,
                alpha_netuid,
                beta_netuid,
                *alpha_snapshot,
                *beta_snapshot,
            ),
            r is Err ==> final(self)@ == old(self)@,
    {
        let tao_alpha_new = match alpha_snapshot.tao_reserve.checked_add(beta_snapshot.tao_reserve) {
            Some(v) => v,
            None => return Err(Error::ReserveOverflow),
        };
        let alpha_new = match u96f32_checked_div(u96f32_from_u64(tao_alpha_new), alpha_snapshot.price) {
            Some(v) => v,
            None => return Err(Error::Overflow),
        };
        let alpha_new_u64 = u96f32_to_u64(alpha_new);
        let delta_alpha = alpha_new_u64.saturating_sub(alpha_snapshot.alpha_reserve);
        let ghost s0 = self@;
        let provided = read_u64(&self.subnet_tao_provided, alpha_netuid);
        self.subnet_tao.insert(alpha_netuid, tao_alpha_new.saturating_sub(provided));
        let current_in = read_u64(&self.subnet_alpha_in, alpha_netuid);
        self.subnet_alpha_in.insert(alpha_netuid, current_in + delta_alpha);
        let current_out = read_u64(&self.subnet_alpha_out, alpha_netuid);
        self.subnet_alpha_out.insert(alpha_netuid, current_out + beta_snapshot.alpha_out);
        let pending_beta = read_u64(&self.pending_emission, beta_netuid);
        self.pending_emission.remove(&beta_netuid);
        if pending_beta != 0 {
            let current = read_u64(&self.pending_emission, alpha_netuid);
            self.pending_emission.insert(alpha_netuid, current.saturating_add(pending_beta));
        }
        self.subnet_tao.remove(&beta_netuid);
        self.subnet_tao_provided.remove(&beta_netuid);
        self.subnet_alpha_in.remove(&beta_netuid);
        self.subnet_alpha_in_provided.remove(&beta_netuid);
        self.subnet_alpha_out.remove(&beta_netuid);
        self.events.push(
            MergerEvent::PoolsConsolidated {
                alpha: alpha_netuid,
                beta: beta_netuid,
                new_tao_reserve: tao_alpha_new,
                new_alpha_reserve: alpha_new_u64,
                delta_alpha_minted: delta_alpha,
            },
        );
        assert(self@ =~= after_consolidate(s0, alpha_netuid, beta_netuid, *alpha_snapshot, *beta_snapshot));
        Ok(())
    }

    /// Removes the merged subnet: its owner is paid the lock refund, then
    /// registration, owner, lock, registration block, owner emission,
    /// per-mechanism storage, settings and pending emission are removed.
    /// Its netuid can be registered again; its merger history stays.
    pub(crate) fn cleanup_merged_subnet(&mut self, beta_netuid: NetUid)
        ensures
            final(self)@ == after_cleanup(old(self)@, beta_netuid),
    {
        let ghost s0 = self@;
        let registered: BlockNumber = match self.network_registered_at.get(&beta_netuid) {
            Some(b) => *b,
            None => 0,
        };
        let refund: u64 = if registered < self.network_registration_start_block {
            read_u64(&self.subnet_locked, beta_netuid).saturating_sub(read_u64(&self.owner_received_tao, beta_netuid))
        } else {
            0
        };
        if refund != 0 {
            match self.subnet_owner.get(&beta_netuid) {
                Some(o) => {
                    let owner = *o;
                    let balance = read_balance(&self.balances, owner);
                    self.balances.insert(owner, balance.saturating_add(refund));
                },
                None => {},
            }
        }
        assert(self.balances@ == refunded_balances(s0, beta_netuid));
        self.network_registered_at.remove(&beta_netuid);
        self.owner_received_tao.remove(&beta_netuid);
        self.subnet_owner.remove(&beta_netuid);
        self.subnet_locked.remove(&beta_netuid);
        self.networks_added.remove(&beta_netuid);
        self.total_networks = self.total_networks.saturating_sub(1);
        let mechanism_count: u8 = match self.mechanism_count.get(&beta_netuid) {
            Some(c) => *c,
            None => 0,
        };
        if mechanism_count > 0 {
            remove_subnet_mechanisms(&mut self.mechanism_storage, beta_netuid, mechanism_count);
        } else {
            assert(s0.mechanism_storage.difference(mechanisms_of(beta_netuid, 0)) =~= s0.mechanism_storage);
        }
        self.subnet_params.remove(&beta_netuid);
        self.pending_emission.remove(&beta_netuid);
        self.mechanism_count.remove(&beta_netuid);
        self.events.push(MergerEvent::SubnetCleaned { netuid: beta_netuid });
        assert(self@ =~= after_cleanup(s0, beta_netuid));
    }
}

} // verus!

verus! {

impl Pallet {
    /// Runs the merger algorithm: liquidity positions dissolved, pending
    /// emission paid out, snapshots,
    /// safety checks, conversions,
    /// stake updates, pool consolidation, redeemability check and cleanup.
    /// On an error some storage may already be written; the caller discards
    /// it.
    fn do_execute_merger(&mut self, alpha_netuid: NetUid, beta_netuid: NetUid) -> (r: Result<(), Error>)
        requires
            old(self).wf(),
            execution_fits(old(self)@, alpha_netuid, beta_netuid),
        ensures
            match execute_merger_result(old(self)@, alpha_netuid, beta_netuid) {
                Err(e) => r == Err::<(), Error>(e),
                Ok(s) => r is Ok && final(self)@ == s && final(self).wf(),
            },
            r is Err && refused_early(old(self)@, alpha_netuid, beta_netuid) ==> final(self)@ == prepared(
                old(self)@,
                alpha_netuid,
                beta_netuid,
            ),
    {
        self.dissolve_liquidity_positions(alpha_netuid);
        self.dissolve_liquidity_positions(beta_netuid);
        self.drain_pending_emission(alpha_netuid);
        self.drain_pending_emission(beta_netuid);
        let ghost s0 = self@;
        let alpha_snapshot = self.snapshot_pool(alpha_netuid)?;
        let beta_snapshot = self.snapshot_pool(beta_netuid)?;
        Self::validate_merger_safety(&alpha_snapshot, &beta_snapshot)?;
        proof {
            lemma_snapshot_price_small(s0, alpha_netuid);
            lemma_snapshot_price_small(s0, beta_netuid);
        }
        let conversions = self.calculate_all_conversions(
            alpha_netuid,
            beta_netuid,
            &alpha_snapshot,
            &beta_snapshot,
        )?;
        self.apply_token_conversions(alpha_netuid, beta_netuid, &conversions);
        self.consolidate_pools(alpha_netuid, beta_netuid, &alpha_snapshot, &beta_snapshot)?;
        Self::verify_redeemability_conservation(&alpha_snapshot, &beta_snapshot, &conversions)?;
        proof {
            let s2 = self@;
            assert(stakes_unique(s2.stakes));
        }
        self.cleanup_merged_subnet(beta_netuid);
        Ok(())
    }

    /// Executes the approved merger proposed for `alpha_netuid` at block
    /// `current_block`. It either completes or changes nothing: on success
    /// the proposal and its consent are removed and the merger is recorded
    /// in the history.
    pub fn do_execute_merger_extrinsic(&mut self, alpha_netuid: NetUid, current_block: BlockNumber) -> (r: Result<
        (),
        Error,
    >)
        requires
            old(self).wf(),
            extrinsic_fits(old(self)@, alpha_netuid),
        ensures
            final(self).wf(),
            r == execute_result(old(self)@, alpha_netuid),
            r is Ok ==> final(self)@ == after_execute(old(self)@, alpha_netuid, current_block),
            r is Err ==> final(self)@ == old(self)@,
    {
        let (beta_netuid, proposal_block, status) = match self.pending_merger.get(&alpha_netuid) {
            Some(p) => *p,
            None => return Err(Error::NoMergerProposal),
        };
        if status != MergerStatus::Approved {
            return Err(Error::MergerNotApproved);
        }
        if !pair_set_contains(&self.merger_consent, alpha_netuid, beta_netuid) {
            return Err(Error::MergerNotApproved);
        }
        let mut work = self.duplicate();
        work.pending_merger.insert(alpha_netuid, (beta_netuid, proposal_block, MergerStatus::Executing));
        assert(work@ =~= mark_executing(self@, alpha_netuid));
        work.do_execute_merger(alpha_netuid, beta_netuid)?;
        let ghost merged = work@;
        work.pending_merger.remove(&alpha_netuid);
        pair_set_remove(&mut work.merger_consent, alpha_netuid, beta_netuid);
        work.merger_history.insert(beta_netuid, (alpha_netuid, current_block));
        work.events.push(
            MergerEvent::MergerExecuted { alpha: alpha_netuid, beta: beta_netuid, block: current_block },
        );
        assert(work@ =~= after_execute(self@, alpha_netuid, current_block));
        *self = work;
        Ok(())
    }
}

} // verus!
