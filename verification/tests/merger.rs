use subnet_merger::fixed::FixedU64F64;
use subnet_merger::state::Pallet;
use subnet_merger::types::{Error, MergerEvent, MergerStatus, NetUid, REDEEMABILITY_ROUNDING_TOLERANCE};
use substrate_fixed::types::U64F64;

fn fx(n: u64) -> FixedU64F64 {
    FixedU64F64::from_num(n)
}

fn to_sf(x: FixedU64F64) -> U64F64 {
    U64F64::from_bits(x.to_bits())
}

fn from_sf(x: U64F64) -> FixedU64F64 {
    FixedU64F64::from_bits(x.to_bits())
}

const BLOCK: u64 = 1;

// =============================================================================
// Mathematical Tests - Conversion Formulas
// =============================================================================

#[test]
fn test_convert_alpha_holder_basic() {
    let alpha_i = fx(100);
    let alpha_total = fx(1000);
    let tao_alpha = fx(5000);
    let tao_beta = fx(5000);

    let result = Pallet::convert_alpha_holder(alpha_i, alpha_total, tao_alpha, tao_beta);

    assert!(result.is_ok());
    let alpha_i_new = result.unwrap();

    assert!(to_sf(alpha_i_new) < to_sf(alpha_i));
    assert!(to_sf(alpha_i_new) > U64F64::from_num(0));
}

#[test]
fn test_convert_alpha_holder_asymmetric() {
    let alpha_i = fx(50);
    let alpha_total = fx(1000);
    let tao_alpha = fx(9000);
    let tao_beta = fx(1000);

    let result = Pallet::convert_alpha_holder(alpha_i, alpha_total, tao_alpha, tao_beta);

    assert!(result.is_ok());
    let alpha_i_new = to_sf(result.unwrap());

    let dilution = to_sf(alpha_i).saturating_sub(alpha_i_new);
    let dilution_percent = dilution
        .saturating_mul(U64F64::from_num(100))
        .checked_div(to_sf(alpha_i))
        .unwrap();

    assert!(dilution_percent < U64F64::from_num(10));
}

#[test]
fn test_convert_beta_holder_equal_prices() {
    let beta_i = fx(100);
    let beta_total = fx(1000);
    let tao_alpha = fx(5000);
    let tao_beta = fx(5000);
    let p_beta = fx(1);
    let p_alpha = fx(1);

    let result = Pallet::convert_beta_holder(beta_i, beta_total, tao_alpha, tao_beta, p_beta, p_alpha);

    assert!(result.is_ok());
    let alpha_i_new = to_sf(result.unwrap());

    assert!(alpha_i_new > U64F64::from_num(0));
    assert!(alpha_i_new < to_sf(beta_i));
}

#[test]
fn test_convert_beta_holder_price_ratio() {
    let beta_i = fx(100);
    let beta_total = fx(1000);
    let tao_alpha = fx(5000);
    let tao_beta = fx(5000);
    let p_beta = fx(1);
    let p_alpha = fx(2);

    let result = Pallet::convert_beta_holder(beta_i, beta_total, tao_alpha, tao_beta, p_beta, p_alpha);

    assert!(result.is_ok());
    let alpha_i_new = to_sf(result.unwrap());

    assert!(alpha_i_new < to_sf(beta_i));
}

#[test]
fn test_redeemability_conservation() {
    let tao_alpha = U64F64::from_num(10000);
    let alpha_reserve = U64F64::from_num(5000);
    let tao_beta = U64F64::from_num(5000);
    let beta_reserve = U64F64::from_num(2500);

    let alpha_stakes = vec![U64F64::from_num(100), U64F64::from_num(200), U64F64::from_num(300)];
    let alpha_total: U64F64 = alpha_stakes.iter().copied().sum();

    let beta_stakes = vec![U64F64::from_num(50), U64F64::from_num(150)];
    let beta_total: U64F64 = beta_stakes.iter().copied().sum();

    let p_alpha = tao_alpha.checked_div(alpha_reserve).unwrap();
    let p_beta = tao_beta.checked_div(beta_reserve).unwrap();

    let mut total_before: i128 = 0;
    for stake in &alpha_stakes {
        let r = Pallet::calculate_redeemability(from_sf(*stake), from_sf(tao_alpha), from_sf(alpha_reserve));
        total_before += to_sf(r).to_num::<i128>();
    }
    for stake in &beta_stakes {
        let r = Pallet::calculate_redeemability(from_sf(*stake), from_sf(tao_beta), from_sf(beta_reserve));
        total_before += to_sf(r).to_num::<i128>();
    }

    let mut converted_alpha = Vec::new();
    for stake in &alpha_stakes {
        let c = Pallet::convert_alpha_holder(
            from_sf(*stake),
            from_sf(alpha_total),
            from_sf(tao_alpha),
            from_sf(tao_beta),
        )
        .unwrap();
        converted_alpha.push(c);
    }

    let mut converted_beta = Vec::new();
    for stake in &beta_stakes {
        let c = Pallet::convert_beta_holder(
            from_sf(*stake),
            from_sf(beta_total),
            from_sf(tao_alpha),
            from_sf(tao_beta),
            from_sf(p_beta),
            from_sf(p_alpha),
        )
        .unwrap();
        converted_beta.push(c);
    }

    let taonew = tao_alpha.saturating_add(tao_beta);
    let alpha_new = taonew.checked_div(p_alpha).unwrap();

    let mut total_after: i128 = 0;
    for stake in converted_alpha.iter().chain(&converted_beta) {
        let r = Pallet::calculate_redeemability(*stake, from_sf(taonew), from_sf(alpha_new));
        total_after += to_sf(r).to_num::<i128>();
    }

    let diff = (total_before - total_after).abs();
    assert!(
        diff < REDEEMABILITY_ROUNDING_TOLERANCE * 10,
        "Redeemability not conserved: diff={}",
        diff
    );
}

#[test]
fn test_alpha_price_maintenance() {
    let tao_alpha = U64F64::from_num(10000);
    let alpha_reserve = U64F64::from_num(5000);
    let tao_beta = U64F64::from_num(3000);

    let p_alpha_before = tao_alpha.checked_div(alpha_reserve).unwrap();
    let taonew = tao_alpha.saturating_add(tao_beta);
    let alpha_new_expected = taonew.checked_div(p_alpha_before).unwrap();
    let p_alpha_after = taonew.checked_div(alpha_new_expected).unwrap();

    let price_diff = if p_alpha_before > p_alpha_after {
        p_alpha_before.saturating_sub(p_alpha_after)
    } else {
        p_alpha_after.saturating_sub(p_alpha_before)
    };

    assert!(price_diff < U64F64::from_num(0.000001));
}

// =============================================================================
// Edge Cases - Mathematical
// =============================================================================

#[test]
fn test_convert_single_holder() {
    let alpha_i = fx(1000);
    let alpha_total = fx(1000);
    let tao_alpha = fx(10000);
    let tao_beta = fx(1000);

    let result = Pallet::convert_alpha_holder(alpha_i, alpha_total, tao_alpha, tao_beta);
    assert!(result.is_ok());

    assert!(to_sf(result.unwrap()) < to_sf(alpha_i));
}

#[test]
fn test_convert_tiny_holder() {
    let alpha_i = fx(1);
    let alpha_total = fx(1000000);
    let tao_alpha = fx(5000);
    let tao_beta = fx(5000);

    let result = Pallet::convert_alpha_holder(alpha_i, alpha_total, tao_alpha, tao_beta);
    assert!(result.is_ok());

    let diff = to_sf(alpha_i).saturating_sub(to_sf(result.unwrap()));
    assert!(diff < U64F64::from_num(1));
}

#[test]
fn test_zero_division_protection() {
    let alpha_i = fx(100);
    let alpha_total = fx(0);
    let tao_alpha = fx(5000);
    let tao_beta = fx(5000);

    let result = Pallet::convert_alpha_holder(alpha_i, alpha_total, tao_alpha, tao_beta);
    assert!(result.is_err());
}

#[test]
fn test_overflow_protection() {
    let alpha_i = fx(u64::MAX / 2);
    let alpha_total = fx(u64::MAX / 2);
    let tao_alpha = fx(u64::MAX / 4);
    let tao_beta = fx(u64::MAX / 4);

    let result = Pallet::convert_alpha_holder(alpha_i, alpha_total, tao_alpha, tao_beta);
    assert!(result.is_ok());
}

// =============================================================================
// Integration Tests - Full Merger Flow
// =============================================================================

/// Two registered subnets with 10 TAO and 5 alpha each; returns
/// (pallet, alpha netuid, beta netuid, alpha owner coldkey, alpha owner
/// hotkey, beta owner coldkey, beta owner hotkey).
fn setup_two_subnets_for_merger() -> (Pallet, NetUid, NetUid, u64, u64, u64, u64) {
    let alpha_owner_coldkey = 1u64;
    let alpha_owner_hotkey = 2u64;
    let beta_owner_coldkey = 3u64;
    let beta_owner_hotkey = 4u64;

    let mut pallet = Pallet::new();
    let alpha_netuid: NetUid = 1;
    let beta_netuid: NetUid = 2;
    pallet.add_network(alpha_netuid, alpha_owner_coldkey, 0);
    pallet.add_network(beta_netuid, beta_owner_coldkey, 0);

    let tao_reserve: u64 = 10_000_000_000_000;
    let alpha_reserve: u64 = tao_reserve / 2;
    pallet.setup_reserves(alpha_netuid, tao_reserve, alpha_reserve);
    pallet.setup_reserves(beta_netuid, tao_reserve, alpha_reserve);

    (
        pallet,
        alpha_netuid,
        beta_netuid,
        alpha_owner_coldkey,
        alpha_owner_hotkey,
        beta_owner_coldkey,
        beta_owner_hotkey,
    )
}

#[test]
fn test_full_merger_flow() {
    let (mut pallet, alpha_netuid, beta_netuid, alpha_owner, _, beta_owner, _) = setup_two_subnets_for_merger();

    assert_eq!(pallet.do_propose_merger(alpha_owner, alpha_netuid, beta_netuid, BLOCK), Ok(()));

    assert!(pallet.pending_merger.contains_key(&alpha_netuid));
    let (beta, _, status) = *pallet.pending_merger.get(&alpha_netuid).unwrap();
    assert_eq!(beta, beta_netuid);
    assert_eq!(status, MergerStatus::Proposed);

    assert_eq!(pallet.do_approve_merger(beta_owner, alpha_netuid, beta_netuid), Ok(()));

    let (_, _, status) = *pallet.pending_merger.get(&alpha_netuid).unwrap();
    assert_eq!(status, MergerStatus::Approved);
    assert!(pallet.merger_consent(alpha_netuid, beta_netuid));

    assert_eq!(pallet.do_execute_merger_extrinsic(alpha_netuid, BLOCK), Ok(()));

    assert!(!pallet.pending_merger.contains_key(&alpha_netuid));
    assert!(!pallet.merger_consent(alpha_netuid, beta_netuid));

    assert!(pallet.merger_history.contains_key(&beta_netuid));
    let (merged_into, _) = *pallet.merger_history.get(&beta_netuid).unwrap();
    assert_eq!(merged_into, alpha_netuid);

    assert!(!pallet.if_subnet_exist(beta_netuid));
}

#[test]
fn test_propose_merger_by_owner() {
    let (mut pallet, alpha_netuid, beta_netuid, alpha_owner, _, _, _) = setup_two_subnets_for_merger();

    assert_eq!(pallet.do_propose_merger(alpha_owner, alpha_netuid, beta_netuid, BLOCK), Ok(()));

    assert!(pallet.pending_merger.contains_key(&alpha_netuid));
    let (beta, _, status) = *pallet.pending_merger.get(&alpha_netuid).unwrap();
    assert_eq!(beta, beta_netuid);
    assert_eq!(status, MergerStatus::Proposed);
}

#[test]
fn test_approve_merger_by_owner() {
    let (mut pallet, alpha_netuid, beta_netuid, alpha_owner, _, beta_owner, _) = setup_two_subnets_for_merger();

    assert_eq!(pallet.do_propose_merger(alpha_owner, alpha_netuid, beta_netuid, BLOCK), Ok(()));
    assert_eq!(pallet.do_approve_merger(beta_owner, alpha_netuid, beta_netuid), Ok(()));

    let (_, _, status) = *pallet.pending_merger.get(&alpha_netuid).unwrap();
    assert_eq!(status, MergerStatus::Approved);

    assert!(pallet.merger_consent(alpha_netuid, beta_netuid));
}

#[test]
fn test_cancel_merger_proposal() {
    let (mut pallet, alpha_netuid, beta_netuid, alpha_owner, _, _, _) = setup_two_subnets_for_merger();

    assert_eq!(pallet.do_propose_merger(alpha_owner, alpha_netuid, beta_netuid, BLOCK), Ok(()));

    assert_eq!(pallet.do_cancel_merger(alpha_owner, alpha_netuid), Ok(()));

    assert!(!pallet.pending_merger.contains_key(&alpha_netuid));

    assert!(!pallet.merger_consent(alpha_netuid, beta_netuid));
}

// =============================================================================
// Permission Tests
// =============================================================================

#[test]
fn test_propose_unauthorized() {
    let (mut pallet, alpha_netuid, beta_netuid, _, _, _, _) = setup_two_subnets_for_merger();
    let unauthorized = 999u64;

    assert_eq!(pallet.do_propose_merger(unauthorized, alpha_netuid, beta_netuid, BLOCK), Ok(()));

    assert!(pallet.pending_merger.contains_key(&alpha_netuid));
}

#[test]
fn test_approve_without_proposal() {
    let (mut pallet, alpha_netuid, beta_netuid, _, _, beta_owner, _) = setup_two_subnets_for_merger();

    assert_eq!(
        pallet.do_approve_merger(beta_owner, alpha_netuid, beta_netuid),
        Err(Error::NoMergerProposal)
    );
}

#[test]
fn test_execute_non_approved() {
    let (mut pallet, alpha_netuid, beta_netuid, alpha_owner, _, _, _) = setup_two_subnets_for_merger();

    assert_eq!(pallet.do_propose_merger(alpha_owner, alpha_netuid, beta_netuid, BLOCK), Ok(()));

    assert_eq!(pallet.do_execute_merger_extrinsic(alpha_netuid, BLOCK), Err(Error::MergerNotApproved));
}

// =============================================================================
// Error Condition Tests
// =============================================================================

#[test]
fn test_cannot_merge_with_self() {
    let (mut pallet, alpha_netuid, _, alpha_owner, _, _, _) = setup_two_subnets_for_merger();

    assert_eq!(
        pallet.do_propose_merger(alpha_owner, alpha_netuid, alpha_netuid, BLOCK),
        Err(Error::CannotMergeWithSelf)
    );
}

#[test]
fn test_merge_nonexistent_subnet() {
    let (mut pallet, alpha_netuid, _, alpha_owner, _, _, _) = setup_two_subnets_for_merger();
    let nonexistent_netuid: NetUid = 9999;

    assert_eq!(
        pallet.do_propose_merger(alpha_owner, alpha_netuid, nonexistent_netuid, BLOCK),
        Err(Error::SubnetNotExists)
    );
}

#[test]
fn test_duplicate_merger_proposal() {
    let (mut pallet, alpha_netuid, beta_netuid, alpha_owner, _, _, _) = setup_two_subnets_for_merger();

    assert_eq!(pallet.do_propose_merger(alpha_owner, alpha_netuid, beta_netuid, BLOCK), Ok(()));

    assert_eq!(
        pallet.do_propose_merger(alpha_owner, alpha_netuid, beta_netuid, BLOCK),
        Err(Error::MergerAlreadyPending)
    );
}

#[test]
fn test_approve_wrong_beta() {
    let (mut pallet, alpha_netuid, beta_netuid, alpha_owner, _, beta_owner, _) = setup_two_subnets_for_merger();

    assert_eq!(pallet.do_propose_merger(alpha_owner, alpha_netuid, beta_netuid, BLOCK), Ok(()));

    let wrong_netuid: NetUid = beta_netuid + 1;
    assert_eq!(
        pallet.do_approve_merger(beta_owner, alpha_netuid, wrong_netuid),
        Err(Error::MergerMismatch)
    );
}

#[test]
fn test_insufficient_liquidity() {
    let alpha_owner = 1u64;
    let beta_owner = 3u64;

    let mut pallet = Pallet::new();
    let alpha_netuid: NetUid = 1;
    let beta_netuid: NetUid = 2;
    pallet.add_network(alpha_netuid, alpha_owner, 0);
    pallet.add_network(beta_netuid, beta_owner, 0);

    pallet.setup_reserves(alpha_netuid, 0, 0);
    pallet.setup_reserves(beta_netuid, 100, 50);

    assert_eq!(
        pallet.do_propose_merger(alpha_owner, alpha_netuid, beta_netuid, BLOCK),
        Err(Error::InsufficientLiquidity)
    );
}

// =============================================================================
// Event Verification Tests
// =============================================================================

#[test]
fn test_merger_proposed_event() {
    let (mut pallet, alpha_netuid, beta_netuid, alpha_owner, _, _, _) = setup_two_subnets_for_merger();

    assert_eq!(pallet.do_propose_merger(alpha_owner, alpha_netuid, beta_netuid, BLOCK), Ok(()));

    assert!(pallet.pending_merger.contains_key(&alpha_netuid));
}

#[test]
fn test_merger_approved_event() {
    let (mut pallet, alpha_netuid, beta_netuid, alpha_owner, _, beta_owner, _) = setup_two_subnets_for_merger();

    assert_eq!(pallet.do_propose_merger(alpha_owner, alpha_netuid, beta_netuid, BLOCK), Ok(()));
    assert_eq!(pallet.do_approve_merger(beta_owner, alpha_netuid, beta_netuid), Ok(()));

    let (_, _, status) = *pallet.pending_merger.get(&alpha_netuid).unwrap();
    assert_eq!(status, MergerStatus::Approved);
}

#[test]
fn test_merger_history_storage() {
    let (mut pallet, alpha_netuid, beta_netuid, alpha_owner, _, beta_owner, _) = setup_two_subnets_for_merger();

    assert_eq!(pallet.do_propose_merger(alpha_owner, alpha_netuid, beta_netuid, BLOCK), Ok(()));
    assert_eq!(pallet.do_approve_merger(beta_owner, alpha_netuid, beta_netuid), Ok(()));
    assert_eq!(pallet.do_execute_merger_extrinsic(alpha_netuid, BLOCK), Ok(()));

    assert!(pallet.merger_history.contains_key(&beta_netuid));
    let (merged_into, _block) = *pallet.merger_history.get(&beta_netuid).unwrap();
    assert_eq!(merged_into, alpha_netuid);
}

#[test]
fn test_pending_merger_lifecycle() {
    let (mut pallet, alpha_netuid, beta_netuid, alpha_owner, _, beta_owner, _) = setup_two_subnets_for_merger();

    assert!(!pallet.pending_merger.contains_key(&alpha_netuid));

    assert_eq!(pallet.do_propose_merger(alpha_owner, alpha_netuid, beta_netuid, BLOCK), Ok(()));
    assert!(pallet.pending_merger.contains_key(&alpha_netuid));

    assert_eq!(pallet.do_approve_merger(beta_owner, alpha_netuid, beta_netuid), Ok(()));
    let (_, _, status) = *pallet.pending_merger.get(&alpha_netuid).unwrap();
    assert_eq!(status, MergerStatus::Approved);

    assert_eq!(pallet.do_execute_merger_extrinsic(alpha_netuid, BLOCK), Ok(()));
    assert!(!pallet.pending_merger.contains_key(&alpha_netuid));
}

#[test]
fn test_merger_consent_lifecycle() {
    let (mut pallet, alpha_netuid, beta_netuid, alpha_owner, _, beta_owner, _) = setup_two_subnets_for_merger();

    assert!(!pallet.merger_consent(alpha_netuid, beta_netuid));

    assert_eq!(pallet.do_propose_merger(alpha_owner, alpha_netuid, beta_netuid, BLOCK), Ok(()));
    assert!(!pallet.merger_consent(alpha_netuid, beta_netuid));

    assert_eq!(pallet.do_approve_merger(beta_owner, alpha_netuid, beta_netuid), Ok(()));
    assert!(pallet.merger_consent(alpha_netuid, beta_netuid));

    assert_eq!(pallet.do_execute_merger_extrinsic(alpha_netuid, BLOCK), Ok(()));
    assert!(!pallet.merger_consent(alpha_netuid, beta_netuid));
}

#[test]
fn test_merger_events_recorded() {
    let (mut pallet, alpha_netuid, beta_netuid, alpha_owner, _, beta_owner, _) = setup_two_subnets_for_merger();

    assert_eq!(pallet.do_propose_merger(alpha_owner, alpha_netuid, beta_netuid, 7), Ok(()));
    assert_eq!(
        pallet.events.last(),
        Some(&MergerEvent::MergerProposed { alpha: alpha_netuid, beta: beta_netuid, proposer: alpha_owner, block: 7 })
    );
    assert_eq!(pallet.do_approve_merger(beta_owner, alpha_netuid, beta_netuid), Ok(()));
    assert_eq!(
        pallet.events.last(),
        Some(&MergerEvent::MergerApproved { alpha: alpha_netuid, beta: beta_netuid, approver: beta_owner })
    );
    assert_eq!(pallet.do_execute_merger_extrinsic(alpha_netuid, 9), Ok(()));
    assert_eq!(
        pallet.events.last(),
        Some(&MergerEvent::MergerExecuted { alpha: alpha_netuid, beta: beta_netuid, block: 9 })
    );
    assert!(pallet.events.contains(&MergerEvent::SubnetCleaned { netuid: beta_netuid }));
}
