use subnet_merger::state::Pallet;
use subnet_merger::types::{LiquidityPosition, NetUid};

const BLOCK: u64 = 1;

/// Two registered subnets with 10 TAO and 5 alpha each; returns
/// (pallet, alpha netuid, beta netuid, alpha owner coldkey, alpha owner
/// hotkey, beta owner coldkey, beta owner hotkey).
fn setup_two_subnets_for_merger() -> (Pallet, NetUid, NetUid, u64, u64, u64, u64) {
    let mut pallet = Pallet::new();
    let alpha_netuid: NetUid = 1;
    let beta_netuid: NetUid = 2;
    pallet.add_network(alpha_netuid, 1, 0);
    pallet.add_network(beta_netuid, 3, 0);
    let tao_reserve: u64 = 10_000_000_000_000;
    let alpha_reserve: u64 = tao_reserve / 2;
    pallet.setup_reserves(alpha_netuid, tao_reserve, alpha_reserve);
    pallet.setup_reserves(beta_netuid, tao_reserve, alpha_reserve);
    (pallet, alpha_netuid, beta_netuid, 1, 2, 3, 4)
}

/// Two subnets with equal pools of `tao` TAO and `alpha` alpha, owned by
/// coldkeys 1 and 2.
fn two_equal_subnets(tao: u64, alpha: u64) -> (Pallet, NetUid, NetUid, u64, u64) {
    let mut pallet = Pallet::new();
    pallet.add_network(1, 1, 0);
    pallet.add_network(2, 2, 0);
    pallet.setup_reserves(1, tao, alpha);
    pallet.setup_reserves(2, tao, alpha);
    (pallet, 1, 2, 1, 2)
}

fn execute(pallet: &mut Pallet, alpha_owner: u64, beta_owner: u64, alpha_netuid: NetUid, beta_netuid: NetUid) {
    assert_eq!(pallet.do_propose_merger(alpha_owner, alpha_netuid, beta_netuid, BLOCK), Ok(()));
    assert_eq!(pallet.do_approve_merger(beta_owner, alpha_netuid, beta_netuid), Ok(()));
    assert_eq!(pallet.do_execute_merger_extrinsic(alpha_netuid, BLOCK), Ok(()));
}

#[test]
fn test_pending_emissions_drained_before_merger() {
    let (mut pallet, alpha_netuid, beta_netuid, alpha_owner, _, beta_owner, _) = setup_two_subnets_for_merger();

    let pending_emission_amount: u64 = 1000;
    let pending_root_divs_amount: u64 = 500;
    let pending_owner_cut_amount: u64 = 250;
    pallet.set_pending_emission(beta_netuid, pending_emission_amount);
    pallet.set_pending_root_alpha_divs(beta_netuid, pending_root_divs_amount);
    pallet.set_pending_owner_cut(beta_netuid, pending_owner_cut_amount);

    assert_eq!(pallet.get_pending_emission(beta_netuid), pending_emission_amount);
    assert_eq!(pallet.get_pending_root_alpha_divs(beta_netuid), pending_root_divs_amount);
    assert_eq!(pallet.get_pending_owner_cut(beta_netuid), pending_owner_cut_amount);

    execute(&mut pallet, alpha_owner, beta_owner, alpha_netuid, beta_netuid);

    assert_eq!(pallet.get_pending_emission(beta_netuid), 0, "Beta PendingEmission should be cleared after merger");
    assert_eq!(
        pallet.get_pending_root_alpha_divs(beta_netuid),
        0,
        "Beta PendingRootAlphaDivs should be cleared after merger"
    );
    assert_eq!(pallet.get_pending_owner_cut(beta_netuid), 0, "Beta PendingOwnerCut should be cleared after merger");
    assert!(!pallet.if_subnet_exist(beta_netuid));
}

#[test]
fn test_pending_emissions_not_lost() {
    let (mut pallet, alpha_netuid, beta_netuid, alpha_owner, _, beta_owner, _) = setup_two_subnets_for_merger();

    pallet.set_pending_emission(beta_netuid, 10_000);
    pallet.set_pending_root_alpha_divs(beta_netuid, 5_000);
    pallet.set_pending_owner_cut(beta_netuid, 2_500);

    execute(&mut pallet, alpha_owner, beta_owner, alpha_netuid, beta_netuid);

    assert_eq!(pallet.get_pending_emission(beta_netuid), 0, "PendingEmission not cleared");
    assert_eq!(pallet.get_pending_root_alpha_divs(beta_netuid), 0, "PendingRootAlphaDivs not cleared");
    assert_eq!(pallet.get_pending_owner_cut(beta_netuid), 0, "PendingOwnerCut not cleared");
    assert!(!pallet.if_subnet_exist(beta_netuid), "Beta subnet still exists after merger");
}

#[test]
fn test_merger_dissolves_lp_positions_before_snapshots() {
    let (mut pallet, alpha_netuid, beta_netuid, alpha_owner, beta_owner) =
        two_equal_subnets(10_000_000_000, 10_000_000_000);
    let lp_provider: u64 = 100;
    let lp_hotkey_alpha: u64 = 101;
    let lp_hotkey_beta: u64 = 102;

    pallet.add_balance_to_coldkey_account(lp_provider, u64::MAX);
    let stake_amount: u64 = 5_000_000_000;
    pallet.set_stake(lp_hotkey_alpha, alpha_netuid, stake_amount);
    pallet.set_stake(lp_hotkey_beta, beta_netuid, stake_amount);

    let liquidity_amount: u64 = 1_000_000_000;
    for (netuid, hotkey) in [(alpha_netuid, lp_hotkey_alpha), (beta_netuid, lp_hotkey_beta)] {
        pallet.add_liquidity_position(LiquidityPosition {
            coldkey: lp_provider,
            hotkey,
            netuid,
            tao: liquidity_amount,
            alpha: liquidity_amount,
        });
    }

    let lp_balance_before = pallet.get_coldkey_balance(lp_provider);
    let lp_alpha_stake_before = pallet.get_stake(lp_hotkey_alpha, alpha_netuid);
    let lp_beta_stake_before = pallet.get_stake(lp_hotkey_beta, beta_netuid);
    assert!(lp_alpha_stake_before > 0, "LP should have alpha stake before merger");
    assert!(lp_beta_stake_before > 0, "LP should have beta stake before merger");

    execute(&mut pallet, alpha_owner, beta_owner, alpha_netuid, beta_netuid);

    let lp_balance_after = pallet.get_coldkey_balance(lp_provider);
    let lp_alpha_stake_after = pallet.get_stake(lp_hotkey_alpha, alpha_netuid);
    assert!(
        lp_balance_after > lp_balance_before,
        "LP should have received TAO back from dissolved positions. Before: {}, After: {}",
        lp_balance_before,
        lp_balance_after
    );
    let tao_returned = lp_balance_after.saturating_sub(lp_balance_before);
    assert!(tao_returned > 0, "TAO returned should be positive, got {}", tao_returned);
    assert_eq!(tao_returned, 2 * liquidity_amount);
    assert!(lp_alpha_stake_after > 0, "LP should have alpha stake after merger (from dissolved position)");
    assert!(pallet.positions.is_empty());
    assert!(!pallet.if_subnet_exist(beta_netuid), "Beta subnet should be deleted after merger");
}

#[test]
fn test_merger_prepares_pools_before_snapshots() {
    let (mut pallet, alpha_netuid, beta_netuid, alpha_owner, beta_owner) =
        two_equal_subnets(10_000_000_000, 10_000_000_000);

    let pending_alpha: u64 = 500_000_000;
    let pending_beta: u64 = 300_000_000;
    pallet.set_pending_emission(alpha_netuid, pending_alpha);
    pallet.set_pending_emission(beta_netuid, pending_beta);
    assert_eq!(pallet.get_pending_emission(alpha_netuid), pending_alpha);
    assert_eq!(pallet.get_pending_emission(beta_netuid), pending_beta);

    execute(&mut pallet, alpha_owner, beta_owner, alpha_netuid, beta_netuid);

    assert_eq!(pallet.get_pending_emission(alpha_netuid), 0, "Alpha emissions should be drained");
    assert!(!pallet.if_subnet_exist(beta_netuid), "Beta subnet should be deleted after merger");
    assert!(
        !pallet.pending_merger.contains_key(&alpha_netuid),
        "Merger proposal should be removed after successful execution"
    );
}

#[test]
fn test_merger_drains_emissions_before_snapshots() {
    let (mut pallet, alpha_netuid, beta_netuid, alpha_owner, beta_owner) =
        two_equal_subnets(10_000_000_000, 10_000_000_000);
    let alpha_hotkey: u64 = 200;
    let beta_hotkey: u64 = 201;
    let stake_amount: u64 = 1_000_000_000;
    pallet.set_stake(alpha_hotkey, alpha_netuid, stake_amount);
    pallet.set_stake(beta_hotkey, beta_netuid, stake_amount);

    pallet.set_pending_emission(alpha_netuid, 500_000_000);
    pallet.set_pending_emission(beta_netuid, 300_000_000);
    pallet.set_pending_root_alpha_divs(alpha_netuid, 100_000_000);
    pallet.set_pending_root_alpha_divs(beta_netuid, 50_000_000);
    assert_eq!(pallet.get_pending_emission(alpha_netuid), 500_000_000);
    assert_eq!(pallet.get_pending_emission(beta_netuid), 300_000_000);
    assert_eq!(pallet.get_pending_root_alpha_divs(alpha_netuid), 100_000_000);
    assert_eq!(pallet.get_pending_root_alpha_divs(beta_netuid), 50_000_000);

    let alpha_stake_before = pallet.get_stake(alpha_hotkey, alpha_netuid);
    let beta_stake_before = pallet.get_stake(beta_hotkey, beta_netuid);
    assert!(alpha_stake_before > 0, "Alpha staker should have stake before merger");
    assert!(beta_stake_before > 0, "Beta staker should have stake before merger");

    execute(&mut pallet, alpha_owner, beta_owner, alpha_netuid, beta_netuid);

    assert_eq!(pallet.get_pending_emission(alpha_netuid), 0, "Alpha pending emissions should be drained");
    assert_eq!(pallet.get_pending_root_alpha_divs(alpha_netuid), 0, "Alpha root dividends should be drained");
    let alpha_stake_after = pallet.get_stake(alpha_hotkey, alpha_netuid);
    assert!(alpha_stake_after > alpha_stake_before, "Alpha staker should have received emissions before conversion");
    assert!(!pallet.if_subnet_exist(beta_netuid), "Beta subnet should be deleted after merger");
    assert!(
        !pallet.pending_merger.contains_key(&alpha_netuid),
        "Merger proposal should be removed after successful execution"
    );
}

#[test]
fn test_merger_conversion_rates_use_clean_state() {
    let (mut pallet, alpha_netuid, beta_netuid, alpha_owner, beta_owner) =
        two_equal_subnets(5_000_000_000, 5_000_000_000);
    let staker: u64 = 100;
    let hotkey: u64 = 200;
    let lp_provider: u64 = 300;
    let lp_hotkey: u64 = 301;

    let staker_tao: u64 = 5_000_000_000;
    pallet.add_balance_to_coldkey_account(staker, staker_tao);
    pallet.set_stake(hotkey, alpha_netuid, staker_tao);

    pallet.add_balance_to_coldkey_account(lp_provider, u64::MAX);
    let lp_stake_amount: u64 = 5_000_000_000;
    pallet.set_stake(lp_hotkey, alpha_netuid, lp_stake_amount);

    // The position adds 5 TAO (and as much alpha) to the pool.
    let lp_liquidity: u64 = 5_000_000_000;
    pallet.add_liquidity_position(LiquidityPosition {
        coldkey: lp_provider,
        hotkey: lp_hotkey,
        netuid: alpha_netuid,
        tao: lp_liquidity,
        alpha: lp_liquidity,
    });

    let pending_emission: u64 = 1_000_000_000;
    pallet.set_pending_emission(alpha_netuid, pending_emission);
    assert_eq!(pallet.get_pending_emission(alpha_netuid), pending_emission, "Pending emission should be set before merger");

    let staker_alpha_before = pallet.get_stake(hotkey, alpha_netuid);
    assert!(staker_alpha_before > 0, "Staker should have initial alpha stake");
    let lp_balance_before = pallet.get_coldkey_balance(lp_provider);

    execute(&mut pallet, alpha_owner, beta_owner, alpha_netuid, beta_netuid);

    let lp_balance_after = pallet.get_coldkey_balance(lp_provider);
    assert!(
        lp_balance_after > lp_balance_before,
        "LP should have received TAO back from dissolved position. Before: {}, After: {}",
        lp_balance_before,
        lp_balance_after
    );
    let tao_returned = lp_balance_after.saturating_sub(lp_balance_before);
    assert!(tao_returned > 0, "TAO returned should be positive (proves LP was dissolved BEFORE snapshot), got {}", tao_returned);

    assert_eq!(pallet.get_pending_emission(alpha_netuid), 0, "Pending emissions should be drained before snapshot");

    // The pools were read without the position: 5 + 5 TAO, not 10 + 5.
    assert_eq!(pallet.get_subnet_tao(alpha_netuid), 10_000_000_000);
    assert_eq!(*pallet.subnet_tao_provided.get(&alpha_netuid).unwrap(), 0);

    assert!(!pallet.if_subnet_exist(beta_netuid), "Beta subnet should be deleted after merger");
    assert!(
        !pallet.pending_merger.contains_key(&alpha_netuid),
        "Merger proposal should be removed after successful execution"
    );
}

#[test]
fn test_merger_beta_owner_refund_logic() {
    let mut pallet = Pallet::new();
    let alpha_owner: u64 = 1;
    let beta_owner: u64 = 2;
    let alpha_netuid: NetUid = 1;
    let beta_netuid: NetUid = 2;
    pallet.add_network(alpha_netuid, alpha_owner, 100_000_000_000);
    pallet.add_network(beta_netuid, beta_owner, 100_000_000_000);
    pallet.set_network_registered_at(alpha_netuid, 1);
    pallet.set_network_registered_at(beta_netuid, 1);

    // Beta is a legacy subnet: registered before the start block.
    let beta_registered_at = pallet.get_network_registered_at(beta_netuid);
    pallet.set_network_registration_start_block(beta_registered_at + 1000);

    let beta_lock_cost = pallet.get_subnet_locked_balance(beta_netuid);

    let tao_reserve: u64 = 10_000_000_000_000;
    let alpha_reserve: u64 = tao_reserve / 2;
    pallet.setup_reserves(alpha_netuid, tao_reserve, alpha_reserve);
    pallet.setup_reserves(beta_netuid, tao_reserve, alpha_reserve);

    let beta_owner_balance_before = pallet.get_coldkey_balance(beta_owner);

    execute(&mut pallet, alpha_owner, beta_owner, alpha_netuid, beta_netuid);

    assert!(!pallet.pending_merger.contains_key(&alpha_netuid), "Merger proposal should be removed after execution");
    assert!(!pallet.if_subnet_exist(beta_netuid), "Beta subnet should no longer exist");
    assert!(pallet.merger_history.contains_key(&beta_netuid), "Merger history should be recorded");
    let (merged_into, _) = *pallet.merger_history.get(&beta_netuid).unwrap();
    assert_eq!(merged_into, alpha_netuid, "History should show beta merged into alpha");

    let beta_owner_balance_after = pallet.get_coldkey_balance(beta_owner);
    let balance_change = beta_owner_balance_after.saturating_sub(beta_owner_balance_before);
    assert!(balance_change > 0, "Beta owner should have received a refund. Balance change: {}", balance_change);
    assert!(
        balance_change <= beta_lock_cost,
        "Refund should not exceed lock cost. Refund: {}, Lock cost: {}",
        balance_change,
        beta_lock_cost
    );
    assert_eq!(balance_change, beta_lock_cost, "Legacy subnet with no emissions should receive full lock cost refund");
}

#[test]
fn test_refund_less_owner_emission() {
    let (mut pallet, alpha_netuid, beta_netuid, alpha_owner, beta_owner) =
        two_equal_subnets(10_000_000_000, 10_000_000_000);
    pallet.add_network(beta_netuid, beta_owner, 1_000);
    pallet.set_network_registration_start_block(10);
    pallet.set_owner_received_tao(beta_netuid, 300);
    execute(&mut pallet, alpha_owner, beta_owner, alpha_netuid, beta_netuid);
    assert_eq!(pallet.get_coldkey_balance(beta_owner), 700);
    assert_eq!(pallet.get_coldkey_balance(alpha_owner), 0);
}

#[test]
fn test_no_refund_for_new_subnet() {
    let (mut pallet, alpha_netuid, beta_netuid, alpha_owner, beta_owner) =
        two_equal_subnets(10_000_000_000, 10_000_000_000);
    pallet.add_network(beta_netuid, beta_owner, 1_000);
    pallet.set_network_registered_at(beta_netuid, 50);
    pallet.set_network_registration_start_block(10);
    execute(&mut pallet, alpha_owner, beta_owner, alpha_netuid, beta_netuid);
    assert_eq!(pallet.get_coldkey_balance(beta_owner), 0);
    assert!(!pallet.subnet_locked.contains_key(&beta_netuid));
}

#[test]
fn test_position_of_other_subnet_stays() {
    let (mut pallet, alpha_netuid, beta_netuid, alpha_owner, beta_owner) =
        two_equal_subnets(10_000_000_000, 10_000_000_000);
    pallet.add_network(3, 9, 0);
    pallet.setup_reserves(3, 1_000, 1_000);
    let other = LiquidityPosition { coldkey: 7, hotkey: 8, netuid: 3, tao: 100, alpha: 100 };
    pallet.add_balance_to_coldkey_account(7, 500);
    pallet.set_stake(8, 3, 500);
    pallet.add_liquidity_position(other);
    assert_eq!(pallet.get_coldkey_balance(7), 400);
    assert_eq!(pallet.get_stake(8, 3), 400);
    execute(&mut pallet, alpha_owner, beta_owner, alpha_netuid, beta_netuid);
    assert_eq!(pallet.positions, vec![other]);
    assert_eq!(pallet.get_coldkey_balance(7), 400);
}
