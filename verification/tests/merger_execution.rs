use subnet_merger::fixed::{FixedU64F64, FixedU96F32};
use subnet_merger::stakes::StakeEntry;
use subnet_merger::state::Pallet;
use subnet_merger::types::{Error, MergerEvent, MergerStatus, NetUid, PoolSnapshot};
use substrate_fixed::types::U64F64;

fn fx(n: u64) -> FixedU64F64 {
    FixedU64F64::from_num(n)
}

/// Surviving pool 1 (10M TAO, 5M alpha) and merged pool 2 (5M TAO, 2.5M
/// alpha), both priced at 2; hotkey 100 holds stake on both.
fn two_pools_with_holders() -> (Pallet, NetUid, NetUid) {
    let mut pallet = Pallet::new();
    pallet.add_network(1, 10, 0);
    pallet.add_network(2, 20, 0);
    pallet.setup_reserves(1, 10_000_000, 5_000_000);
    pallet.setup_reserves(2, 5_000_000, 2_500_000);
    pallet.set_stake(100, 1, 100_000);
    pallet.set_stake(200, 1, 200_000);
    pallet.set_stake(100, 2, 50_000);
    pallet.set_stake(300, 2, 150_000);
    (pallet, 1, 2)
}

fn approve(pallet: &mut Pallet, alpha: NetUid, beta: NetUid) {
    assert_eq!(pallet.do_propose_merger(10, alpha, beta, 1), Ok(()));
    assert_eq!(pallet.do_approve_merger(20, alpha, beta), Ok(()));
}

#[test]
fn test_execution_converts_holders() {
    let (mut pallet, alpha, beta) = two_pools_with_holders();
    approve(&mut pallet, alpha, beta);
    assert_eq!(pallet.do_execute_merger_extrinsic(alpha, 2), Ok(()));

    // 100 keeps 99_337 of its 100_000 and gains 49_342 for its 50_000 beta.
    assert_eq!(pallet.get_stake(100, alpha), 148_679);
    assert_eq!(pallet.get_stake(200, alpha), 197_368);
    assert_eq!(pallet.get_stake(300, alpha), 144_230);
    assert_eq!(pallet.get_stake(100, beta), 0);
    assert_eq!(pallet.get_stake(300, beta), 0);
    assert_eq!(
        pallet.total_hotkey_alpha,
        vec![
            StakeEntry { hotkey: 100, netuid: 1, amount: 148_679 },
            StakeEntry { hotkey: 200, netuid: 1, amount: 197_368 },
            StakeEntry { hotkey: 300, netuid: 1, amount: 144_230 },
        ]
    );

    // The surviving pool holds both TAO reserves at its old price of 2.
    assert_eq!(pallet.get_subnet_tao(alpha), 15_000_000);
    assert_eq!(pallet.get_subnet_alpha_in(alpha), 7_500_000);
    assert_eq!(pallet.get_subnet_tao(beta), 0);
    assert_eq!(pallet.get_subnet_alpha_in(beta), 0);

    assert_eq!(
        pallet.events[2..].to_vec(),
        vec![
            MergerEvent::TokensConverted {
                account: 100,
                source_netuid: 2,
                target_netuid: 1,
                old_amount: 50_000,
                new_amount: 49_342,
            },
            MergerEvent::TokensConverted {
                account: 300,
                source_netuid: 2,
                target_netuid: 1,
                old_amount: 150_000,
                new_amount: 144_230,
            },
            MergerEvent::PoolsConsolidated {
                alpha: 1,
                beta: 2,
                new_tao_reserve: 15_000_000,
                new_alpha_reserve: 7_500_000,
                delta_alpha_minted: 2_500_000,
            },
            MergerEvent::SubnetCleaned { netuid: 2 },
            MergerEvent::MergerExecuted { alpha: 1, beta: 2, block: 2 },
        ]
    );
}

#[test]
fn test_dual_holder_gets_both_conversions_when_merged_subnet_sorts_first() {
    // The surviving subnet has the larger netuid, so hotkey 100's entry on
    // the merged subnet comes first in (hotkey, subnet) order; it still ends
    // with both converted amounts: 99_337 for its 100_000 on the surviving
    // pool plus 49_342 for its 50_000 on the merged one.
    let mut pallet = Pallet::new();
    pallet.add_network(2, 10, 0);
    pallet.add_network(1, 20, 0);
    pallet.setup_reserves(2, 10_000_000, 5_000_000);
    pallet.setup_reserves(1, 5_000_000, 2_500_000);
    pallet.set_stake(100, 2, 100_000);
    pallet.set_stake(100, 1, 50_000);
    approve(&mut pallet, 2, 1);
    assert_eq!(pallet.do_execute_merger_extrinsic(2, 2), Ok(()));
    assert_eq!(pallet.get_stake(100, 2), 99_337 + 49_342);
    assert_eq!(pallet.get_stake(100, 1), 0);
}

#[test]
fn test_pending_emission_paid_out_before_merger() {
    let (mut pallet, alpha, beta) = two_pools_with_holders();
    pallet.set_pending_emission(alpha, 500);
    pallet.set_pending_emission(beta, 300);
    approve(&mut pallet, alpha, beta);
    assert_eq!(pallet.do_execute_merger_extrinsic(alpha, 2), Ok(()));
    assert_eq!(pallet.get_pending_emission(alpha), 0);
    assert_eq!(pallet.get_pending_emission(beta), 0);
    // Paid out pro rata first: on the surviving subnet 100 gets 166 and 200
    // gets 333 of the 500; on the merged one 100 gets 75 and 300 gets 225 of
    // the 300. The larger stakes are then converted (148_679, 197_368 and
    // 144_230 without pending emission, in `test_execution_converts_holders`).
    assert_eq!(pallet.get_stake(100, alpha), 99_501 + 49_415);
    assert_eq!(pallet.get_stake(200, alpha), 197_692);
    assert_eq!(pallet.get_stake(300, alpha), 144_438);
}

#[test]
fn test_provided_tao_counted_once() {
    let (mut pallet, alpha, beta) = two_pools_with_holders();
    // 9M base TAO plus 1M provided by users: still 10M in the pool.
    pallet.setup_reserves(alpha, 9_000_000, 5_000_000);
    pallet.subnet_tao_provided.insert(alpha, 1_000_000);
    approve(&mut pallet, alpha, beta);
    assert_eq!(pallet.do_execute_merger_extrinsic(alpha, 2), Ok(()));
    let provided = *pallet.subnet_tao_provided.get(&alpha).unwrap();
    assert_eq!(provided, 1_000_000);
    assert_eq!(pallet.get_subnet_tao(alpha), 14_000_000);
    assert_eq!(pallet.get_subnet_tao(alpha) + provided, 15_000_000);
    // The price stays 2: 15M TAO against 7.5M alpha.
    assert_eq!(pallet.get_subnet_alpha_in(alpha), 7_500_000);
}

#[test]
fn test_holders_keep_redeemable_value() {
    let (mut pallet, alpha, beta) = two_pools_with_holders();
    let before_200 = Pallet::calculate_redeemability(fx(200_000), fx(10_000_000), fx(5_000_000)).to_u64();
    let before_300 = Pallet::calculate_redeemability(fx(150_000), fx(5_000_000), fx(2_500_000)).to_u64();
    approve(&mut pallet, alpha, beta);
    assert_eq!(pallet.do_execute_merger_extrinsic(alpha, 2), Ok(()));
    let tao = fx(pallet.get_subnet_tao(alpha));
    let reserve = fx(pallet.get_subnet_alpha_in(alpha));
    let after = |h: u64| Pallet::calculate_redeemability(fx(pallet.get_stake(h, alpha)), tao, reserve).to_u64();
    assert!(after(200) + 100 >= before_200);
    assert!(after(300) + 100 >= before_300);
    // Holder 100's stake is the sum of its two conversions, 99_337 and
    // 49_342; each keeps what its part redeemed for.
    assert_eq!(pallet.get_stake(100, alpha), 99_337 + 49_342);
    let part_alpha = Pallet::calculate_redeemability(fx(99_337), tao, reserve).to_u64();
    let part_beta = Pallet::calculate_redeemability(fx(49_342), tao, reserve).to_u64();
    assert!(part_alpha + 100 >= Pallet::calculate_redeemability(fx(100_000), fx(10_000_000), fx(5_000_000)).to_u64());
    assert!(part_beta + 100 >= Pallet::calculate_redeemability(fx(50_000), fx(5_000_000), fx(2_500_000)).to_u64());
    assert!(after(200) <= before_200 + 100);
}

#[test]
fn test_alpha_out_is_combined() {
    let (mut pallet, alpha, beta) = two_pools_with_holders();
    pallet.set_alpha_out(alpha, 1_000);
    pallet.set_alpha_out(beta, 700);
    approve(&mut pallet, alpha, beta);
    assert_eq!(pallet.do_execute_merger_extrinsic(alpha, 2), Ok(()));
    assert_eq!(*pallet.subnet_alpha_out.get(&alpha).unwrap(), 1_700);
    assert!(!pallet.subnet_alpha_out.contains_key(&beta));
}

#[test]
fn test_merged_subnet_cleaned_up() {
    let (mut pallet, alpha, beta) = two_pools_with_holders();
    pallet.mechanism_count.insert(beta, 2);
    pallet.mechanism_storage = vec![(beta, 0), (beta, 1), (beta, 2), (alpha, 0)];
    assert_eq!(pallet.total_networks, 2);
    approve(&mut pallet, alpha, beta);
    assert_eq!(pallet.do_execute_merger_extrinsic(alpha, 2), Ok(()));
    assert!(!pallet.if_subnet_exist(beta));
    assert!(pallet.if_subnet_exist(alpha));
    assert!(!pallet.subnet_owner.contains_key(&beta));
    assert!(!pallet.subnet_locked.contains_key(&beta));
    assert!(!pallet.mechanism_count.contains_key(&beta));
    assert_eq!(pallet.total_networks, 1);
    let mut left = pallet.mechanism_storage.clone();
    left.sort();
    assert_eq!(left, vec![(alpha, 0), (beta, 2)]);
}

#[test]
fn test_merged_netuid_can_register_and_merge_again() {
    let (mut pallet, alpha, beta) = two_pools_with_holders();
    approve(&mut pallet, alpha, beta);
    assert_eq!(pallet.do_execute_merger_extrinsic(alpha, 2), Ok(()));

    pallet.add_network(beta, 30, 0);
    pallet.setup_reserves(beta, 1_000_000, 500_000);
    assert_eq!(pallet.do_propose_merger(10, alpha, beta, 3), Ok(()));
    assert_eq!(pallet.do_approve_merger(30, alpha, beta), Ok(()));
    assert_eq!(pallet.do_execute_merger_extrinsic(alpha, 4), Ok(()));
    assert_eq!(pallet.get_subnet_tao(alpha), 16_000_000);
    assert_eq!(*pallet.merger_history.get(&beta).unwrap(), (alpha, 4));
}

#[test]
fn test_cancel_restores_proposals() {
    let (mut pallet, alpha, beta) = two_pools_with_holders();
    assert_eq!(pallet.do_propose_merger(10, alpha, beta, 1), Ok(()));
    assert_eq!(pallet.do_cancel_merger(10, alpha), Ok(()));
    assert!(pallet.pending_merger.is_empty());
    assert!(pallet.merger_consent.is_empty());
    assert_eq!(
        pallet.events,
        vec![
            MergerEvent::MergerProposed { alpha, beta, proposer: 10, block: 1 },
            MergerEvent::MergerCancelled { alpha, beta, cancelled_by: 10 },
        ]
    );
    // The pair can be proposed again.
    assert_eq!(pallet.do_propose_merger(10, alpha, beta, 2), Ok(()));
}

#[test]
fn test_cancel_approved_merger() {
    let (mut pallet, alpha, beta) = two_pools_with_holders();
    approve(&mut pallet, alpha, beta);
    assert_eq!(pallet.do_cancel_merger(20, alpha), Ok(()));
    assert!(!pallet.merger_consent(alpha, beta));
    assert_eq!(pallet.do_execute_merger_extrinsic(alpha, 2), Err(Error::NoMergerProposal));
}

#[test]
fn test_approve_twice_is_invalid_status() {
    let (mut pallet, alpha, beta) = two_pools_with_holders();
    approve(&mut pallet, alpha, beta);
    assert_eq!(pallet.do_approve_merger(20, alpha, beta), Err(Error::InvalidMergerStatus));
}

#[test]
fn test_cancel_without_proposal() {
    let (mut pallet, alpha, _) = two_pools_with_holders();
    assert_eq!(pallet.do_cancel_merger(10, alpha), Err(Error::NoMergerProposal));
}

#[test]
fn test_cancel_executing_merger() {
    let (mut pallet, alpha, beta) = two_pools_with_holders();
    pallet.pending_merger.insert(alpha, (beta, 1, MergerStatus::Executing));
    assert_eq!(pallet.do_cancel_merger(10, alpha), Err(Error::MergerAlreadyExecuting));
}

#[test]
fn test_execute_without_consent() {
    let (mut pallet, alpha, beta) = two_pools_with_holders();
    pallet.pending_merger.insert(alpha, (beta, 1, MergerStatus::Approved));
    assert_eq!(pallet.do_execute_merger_extrinsic(alpha, 2), Err(Error::MergerNotApproved));
}

#[test]
fn test_execute_without_proposal() {
    let (mut pallet, alpha, _) = two_pools_with_holders();
    assert_eq!(pallet.do_execute_merger_extrinsic(alpha, 2), Err(Error::NoMergerProposal));
}

#[test]
fn test_zero_price_refused() {
    let mut pallet = Pallet::new();
    pallet.add_network(1, 10, 0);
    pallet.add_network(2, 20, 0);
    // 1 TAO against 2^33 alpha: the price rounds down to zero.
    pallet.setup_reserves(1, 1, 1u64 << 33);
    pallet.setup_reserves(2, 1_000, 1_000);
    assert_eq!(pallet.do_propose_merger(10, 1, 2, 1), Err(Error::ZeroPrice));
}

#[test]
fn test_reserve_overflow_refused() {
    let (mut pallet, alpha, beta) = two_pools_with_holders();
    pallet.subnet_tao_provided.insert(alpha, u64::MAX);
    assert_eq!(pallet.do_propose_merger(10, alpha, beta, 1), Err(Error::ReserveOverflow));
}

#[test]
fn test_larger_merged_pool_refused_and_nothing_changes() {
    let (mut pallet, alpha, beta) = two_pools_with_holders();
    approve(&mut pallet, alpha, beta);
    pallet.setup_reserves(beta, 20_000_000, 10_000_000);
    let events_before = pallet.events.clone();
    assert_eq!(pallet.do_execute_merger_extrinsic(alpha, 2), Err(Error::InvalidMergerDirection));
    assert_eq!(pallet.events, events_before);
    assert_eq!(pallet.pending_merger.get(&alpha).unwrap().2, MergerStatus::Approved);
}

#[test]
fn test_combined_reserve_too_large_refused() {
    let (mut pallet, alpha, beta) = two_pools_with_holders();
    approve(&mut pallet, alpha, beta);
    pallet.setup_reserves(alpha, u64::MAX / 4 + 1, 5_000_000);
    pallet.setup_reserves(beta, u64::MAX / 4 + 1, 2_500_000);
    assert_eq!(pallet.do_execute_merger_extrinsic(alpha, 2), Err(Error::ReserveOverflow));
}

#[test]
fn test_failed_consolidation_changes_nothing() {
    let (mut pallet, alpha, beta) = two_pools_with_holders();
    approve(&mut pallet, alpha, beta);
    // The surviving pool's price drops to zero after approval.
    pallet.setup_reserves(alpha, 10_000_000, u64::MAX);
    let stakes_before = pallet.total_hotkey_alpha.clone();
    assert_eq!(pallet.do_execute_merger_extrinsic(alpha, 2), Err(Error::Overflow));
    assert_eq!(pallet.total_hotkey_alpha, stakes_before);
    assert!(pallet.if_subnet_exist(beta));
    assert_eq!(pallet.get_subnet_tao(beta), 5_000_000);
}

// =============================================================================
// Conversion formulas on exact values
// =============================================================================

#[test]
fn test_alpha_conversion_exact() {
    // ratio 1, factor 1/2: 1000 / 1.5
    let r = Pallet::convert_alpha_holder(fx(1000), fx(1000), fx(1000), fx(1000)).unwrap();
    assert_eq!(r.to_u64(), 666);
    let expected = U64F64::from_num(1000) / (U64F64::from_num(3) / 2);
    assert_eq!(U64F64::from_bits(r.to_bits()), expected);
}

#[test]
fn test_beta_conversion_exact() {
    // ratio 1/10, factor 1/2, denominator 1.05, price ratio 1/2: 100 / 1.05 / 2
    let r = Pallet::convert_beta_holder(fx(100), fx(1000), fx(1000), fx(1000), fx(1), fx(2)).unwrap();
    assert_eq!(r.to_u64(), 47);
}

#[test]
fn test_equal_prices_treat_holders_alike() {
    let b = Pallet::convert_beta_holder(fx(300), fx(1000), fx(4000), fx(1000), fx(3), fx(3)).unwrap();
    let a = Pallet::convert_alpha_holder(fx(300), fx(1000), fx(1000), fx(4000)).unwrap();
    assert_eq!(a, b);
}

#[test]
fn test_beta_conversion_zero_price_refused() {
    let r = Pallet::convert_beta_holder(fx(100), fx(1000), fx(1000), fx(1000), fx(1), fx(0));
    assert_eq!(r, Err(Error::Overflow));
}

#[test]
fn test_alpha_conversion_empty_reserves_refused() {
    let r = Pallet::convert_alpha_holder(fx(100), fx(1000), fx(0), fx(0));
    assert_eq!(r, Err(Error::Overflow));
}

#[test]
fn test_redeemability_exact() {
    // 100 * 1000 / (900 + 100)
    let r = Pallet::calculate_redeemability(fx(100), fx(1000), fx(900));
    assert_eq!(r, fx(100));
}

#[test]
fn test_redeemability_bounded_by_reserve() {
    let r = Pallet::calculate_redeemability(fx(u64::MAX), fx(1000), fx(1));
    assert!(r.to_u64() <= 1000);
    let zero = Pallet::calculate_redeemability(fx(0), fx(1000), fx(0));
    assert_eq!(zero, fx(0));
}

#[test]
fn test_fixed_from_num() {
    assert_eq!(FixedU64F64::from_num(3).to_bits(), 3u128 << 64);
    assert_eq!(FixedU96F32::from_num(3).bits, 3u128 << 32);
    assert_eq!(FixedU64F64::from_bits((5u128 << 64) + 7).to_u64(), 5);
}

#[test]
fn test_redeemability_of_large_stake_does_not_saturate() {
    // 5e9 * 2e10 does not fit in 64 integer bits; the result is
    // 2e10 * (5e9 / 2.5e10) = 4e9, less one unit of rounding.
    let r = Pallet::calculate_redeemability(fx(5_000_000_000), fx(20_000_000_000), fx(20_000_000_000));
    assert_eq!(r.to_u64(), 3_999_999_999);
    assert_eq!(r.to_bits(), 73_786_976_294_838_206_460_000_000_000);
}

#[test]
fn test_empty_merged_pool_keeps_alpha_holder() {
    let r = Pallet::convert_alpha_holder(fx(123), fx(1000), fx(5000), fx(0)).unwrap();
    assert_eq!(r, fx(123));
}

#[test]
fn test_conversions_without_holders_need_no_price() {
    let pallet = Pallet::new();
    let snapshot = |price: u128| PoolSnapshot {
        tao_reserve: 1_000,
        alpha_reserve: 1_000,
        alpha_out: 0,
        price: FixedU96F32::from_bits(price),
        total_stakers: 0,
    };
    // A zero surviving price fails only when there is a holder to convert.
    assert_eq!(pallet.calculate_all_conversions(1, 2, &snapshot(0), &snapshot(1 << 32)), Ok(vec![]));
    let mut held = Pallet::new();
    held.set_stake(5, 2, 10);
    assert_eq!(held.calculate_all_conversions(1, 2, &snapshot(0), &snapshot(1 << 32)), Err(Error::Overflow));
}
