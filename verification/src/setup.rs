//! Building a state: an empty pallet, registered subnets, reserves, stakes
//! and pending emission; and reading it back.

use vstd::prelude::*;
use std::collections::HashMap;
use crate::stakes::{lemma_set_stake, read_stake, set_stake, stake_of, write_stake};
use crate::execution::registered_at;
use crate::liquidity::{sat_add_u64, sat_sub_u64};
use crate::state::{Pallet, PalletModel, balance_of, get_u64, pair_set_contains, read_balance, read_u64};
use crate::types::{AccountId, BlockNumber, LiquidityPosition, NetUid};

verus! {

broadcast use vstd::std_specs::hash::group_hash_axioms;

/// The empty state.
pub open spec fn empty_model() -> PalletModel {
    PalletModel {
        networks_added: Map::empty(),
        total_networks: 0,
        subnet_owner: Map::empty(),
        subnet_locked: Map::empty(),
        mechanism_count: Map::empty(),
        mechanism_storage: Set::empty(),
        subnet_params: Map::empty(),
        subnet_tao: Map::empty(),
        subnet_tao_provided: Map::empty(),
        subnet_alpha_in: Map::empty(),
        subnet_alpha_in_provided: Map::empty(),
        subnet_alpha_out: Map::empty(),
        pending_emission: Map::empty(),
        pending_root_alpha_divs: Map::empty(),
        pending_owner_cut: Map::empty(),
        stakes: Seq::empty(),
        balances: Map::empty(),
        positions: Seq::empty(),
        network_registered_at: Map::empty(),
        network_registration_start_block: 0,
        owner_received_tao: Map::empty(),
        pending_merger: Map::empty(),
        merger_consent: Set::empty(),
        merger_history: Map::empty(),
        events: Seq::empty(),
    }
}

impl Pallet {
    /// A pallet with no subnets, stakes or mergers.
    pub fn new() -> (r: Pallet)
        ensures
            r@ == empty_model(),
            r.wf(),
    {
        let r = Pallet {
            networks_added: HashMap::new(),
            total_networks: 0,
            subnet_owner: HashMap::new(),
            subnet_locked: HashMap::new(),
            mechanism_count: HashMap::new(),
            mechanism_storage: Vec::new(),
            subnet_params: HashMap::new(),
            subnet_tao: HashMap::new(),
            subnet_tao_provided: HashMap::new(),
            subnet_alpha_in: HashMap::new(),
            subnet_alpha_in_provided: HashMap::new(),
            subnet_alpha_out: HashMap::new(),
            pending_emission: HashMap::new(),
            pending_root_alpha_divs: HashMap::new(),
            pending_owner_cut: HashMap::new(),
            total_hotkey_alpha: Vec::new(),
            balances: HashMap::new(),
            positions: Vec::new(),
            network_registered_at: HashMap::new(),
            network_registration_start_block: 0,
            owner_received_tao: HashMap::new(),
            pending_merger: HashMap::new(),
            merger_consent: Vec::new(),
            merger_history: HashMap::new(),
            events: Vec::new(),
        };
        assert(r@ =~= empty_model());
        r
    }

    /// Registers `netuid`, owned by `owner`, with `lock` TAO locked; counts
    /// one more network when it was not registered yet.
    pub fn add_network(&mut self, netuid: NetUid, owner: AccountId, lock: u64)
        ensures
            final(self)@ == (PalletModel {
                networks_added: old(self)@.networks_added.insert(netuid, true),
                subnet_owner: old(self)@.subnet_owner.insert(netuid, owner),
                subnet_locked: old(self)@.subnet_locked.insert(netuid, lock),
                total_networks: if old(self)@.networks_added.contains_key(netuid)
                    && old(self)@.networks_added[netuid] {
                    old(self)@.total_networks
                } else if old(self)@.total_networks < u16::MAX {
                    (old(self)@.total_networks + 1) as u16
                } else {
                    u16::MAX
                },
                ..old(self)@
            }),
    {
        let existed = self.if_subnet_exist(netuid);
        self.networks_added.insert(netuid, true);
        self.subnet_owner.insert(netuid, owner);
        self.subnet_locked.insert(netuid, lock);
        if !existed {
            self.total_networks = self.total_networks.saturating_add(1);
        }
        proof {
            assert(self@ =~= (PalletModel {
                networks_added: old(self)@.networks_added.insert(netuid, true),
                subnet_owner: old(self)@.subnet_owner.insert(netuid, owner),
                subnet_locked: old(self)@.subnet_locked.insert(netuid, lock),
                total_networks: self.total_networks,
                ..old(self)@
            }));
        }
    }

    /// Sets the TAO and alpha of `netuid`'s pool (liquidity provided by
    /// users is left as it is).
    pub fn setup_reserves(&mut self, netuid: NetUid, tao: u64, alpha: u64)
        ensures
            final(self)@ == (PalletModel {
                subnet_tao: old(self)@.subnet_tao.insert(netuid, tao),
                subnet_alpha_in: old(self)@.subnet_alpha_in.insert(netuid, alpha),
                ..old(self)@
            }),
    {
        self.subnet_tao.insert(netuid, tao);
        self.subnet_alpha_in.insert(netuid, alpha);
        assert(self@ =~= (PalletModel {
            subnet_tao: old(self)@.subnet_tao.insert(netuid, tao),
            subnet_alpha_in: old(self)@.subnet_alpha_in.insert(netuid, alpha),
            ..old(self)@
        }));
    }

    /// Sets the alpha held outside `netuid`'s pool.
    pub fn set_alpha_out(&mut self, netuid: NetUid, amount: u64)
        ensures
            final(self)@ == (PalletModel {
                subnet_alpha_out: old(self)@.subnet_alpha_out.insert(netuid, amount),
                ..old(self)@
            }),
    {
        self.subnet_alpha_out.insert(netuid, amount);
        assert(self@ =~= (PalletModel {
            subnet_alpha_out: old(self)@.subnet_alpha_out.insert(netuid, amount),
            ..old(self)@
        }));
    }

    /// Sets the pending emission of `netuid`.
    pub fn set_pending_emission(&mut self, netuid: NetUid, amount: u64)
        ensures
            final(self)@ == (PalletModel {
                pending_emission: old(self)@.pending_emission.insert(netuid, amount),
                ..old(self)@
            }),
    {
        self.pending_emission.insert(netuid, amount);
        assert(self@ =~= (PalletModel {
            pending_emission: old(self)@.pending_emission.insert(netuid, amount),
            ..old(self)@
        }));
    }

    /// Sets the stake of `hotkey` on `netuid`.
    pub fn set_stake(&mut self, hotkey: AccountId, netuid: NetUid, amount: u64)
        requires
            old(self).wf(),
        ensures
            final(self).wf(),
            final(self)@ == (PalletModel {
                stakes: set_stake(old(self)@.stakes, hotkey, netuid, amount),
                ..old(self)@
            }),
    {
        proof {
            lemma_set_stake(self.total_hotkey_alpha@, hotkey, netuid, amount);
        }
        write_stake(&mut self.total_hotkey_alpha, hotkey, netuid, amount);
        assert(self@ =~= (PalletModel {
            stakes: set_stake(old(self)@.stakes, hotkey, netuid, amount),
            ..old(self)@
        }));
    }

    /// Stake of `hotkey` on `netuid`.
    pub fn get_stake(&self, hotkey: AccountId, netuid: NetUid) -> (r: u64)
        ensures
            r == stake_of(self@.stakes, hotkey, netuid),
    {
        read_stake(&self.total_hotkey_alpha, hotkey, netuid)
    }

    /// TAO in `netuid`'s pool (without provided liquidity).
    pub fn get_subnet_tao(&self, netuid: NetUid) -> (r: u64)
        ensures
            r == get_u64(self@.subnet_tao, netuid),
    {
        read_u64(&self.subnet_tao, netuid)
    }

    /// Alpha in `netuid`'s pool (without provided liquidity).
    pub fn get_subnet_alpha_in(&self, netuid: NetUid) -> (r: u64)
        ensures
            r == get_u64(self@.subnet_alpha_in, netuid),
    {
        read_u64(&self.subnet_alpha_in, netuid)
    }

    /// Pending emission of `netuid`.
    pub fn get_pending_emission(&self, netuid: NetUid) -> (r: u64)
        ensures
            r == get_u64(self@.pending_emission, netuid),
    {
        read_u64(&self.pending_emission, netuid)
    }

    /// Sets the pending root dividends of `netuid`.
    pub fn set_pending_root_alpha_divs(&mut self, netuid: NetUid, amount: u64)
        ensures
            final(self)@ == (PalletModel {
                pending_root_alpha_divs: old(self)@.pending_root_alpha_divs.insert(netuid, amount),
                ..old(self)@
            }),
    {
        self.pending_root_alpha_divs.insert(netuid, amount);
        assert(self@ =~= (PalletModel {
            pending_root_alpha_divs: old(self)@.pending_root_alpha_divs.insert(netuid, amount),
            ..old(self)@
        }));
    }

    /// Sets the pending owner cut of `netuid`.
    pub fn set_pending_owner_cut(&mut self, netuid: NetUid, amount: u64)
        ensures
            final(self)@ == (PalletModel {
                pending_owner_cut: old(self)@.pending_owner_cut.insert(netuid, amount),
                ..old(self)@
            }),
    {
        self.pending_owner_cut.insert(netuid, amount);
        assert(self@ =~= (PalletModel {
            pending_owner_cut: old(self)@.pending_owner_cut.insert(netuid, amount),
            ..old(self)@
        }));
    }

    /// Pending root dividends of `netuid`.
    pub fn get_pending_root_alpha_divs(&self, netuid: NetUid) -> (r: u64)
        ensures
            r == get_u64(self@.pending_root_alpha_divs, netuid),
    {
        read_u64(&self.pending_root_alpha_divs, netuid)
    }

    /// Pending owner cut of `netuid`.
    pub fn get_pending_owner_cut(&self, netuid: NetUid) -> (r: u64)
        ensures
            r == get_u64(self@.pending_owner_cut, netuid),
    {
        read_u64(&self.pending_owner_cut, netuid)
    }

    /// Whether the merger of `beta` into `alpha` has consent.
    pub fn merger_consent(&self, alpha: NetUid, beta: NetUid) -> (r: bool)
        ensures
            r == self@.merger_consent.contains((alpha, beta)),
    {
        pair_set_contains(&self.merger_consent, alpha, beta)
    }
    /// Adds `amount` to the free balance of `coldkey` (saturating).
    pub fn add_balance_to_coldkey_account(&mut self, coldkey: AccountId, amount: u64)
        ensures
            final(self)@ == (PalletModel {
                balances: old(self)@.balances.insert(
                    coldkey,
                    sat_add_u64(balance_of(old(self)@.balances, coldkey), amount),
                ),
                ..old(self)@
            }),
    {
        let balance = read_balance(&self.balances, coldkey);
        self.balances.insert(coldkey, balance.saturating_add(amount));
        assert(self@ =~= (PalletModel {
            balances: old(self)@.balances.insert(coldkey, sat_add_u64(balance_of(old(self)@.balances, coldkey), amount)),
            ..old(self)@
        }));
    }

    /// Free balance of `coldkey`.
    pub fn get_coldkey_balance(&self, coldkey: AccountId) -> (r: u64)
        ensures
            r == balance_of(self@.balances, coldkey),
    {
        read_balance(&self.balances, coldkey)
    }

    /// Opens a liquidity position: its TAO leaves the coldkey's balance and
    /// its alpha the hotkey's stake on the subnet (both saturating at zero),
    /// and both join the pool's provided reserves (saturating).
    pub fn add_liquidity_position(&mut self, position: LiquidityPosition)
        requires
            old(self).wf(),
        ensures
            final(self).wf(),
            final(self)@ == (PalletModel {
                positions: old(self)@.positions.push(position),
                balances: old(self)@.balances.insert(
                    position.coldkey,
                    sat_sub_u64(balance_of(old(self)@.balances, position.coldkey), position.tao),
                ),
                stakes: set_stake(
                    old(self)@.stakes,
                    position.hotkey,
                    position.netuid,
                    sat_sub_u64(stake_of(old(self)@.stakes, position.hotkey, position.netuid), position.alpha),
                ),
                subnet_tao_provided: old(self)@.subnet_tao_provided.insert(
                    position.netuid,
                    sat_add_u64(get_u64(old(self)@.subnet_tao_provided, position.netuid), position.tao),
                ),
                subnet_alpha_in_provided: old(self)@.subnet_alpha_in_provided.insert(
                    position.netuid,
                    sat_add_u64(get_u64(old(self)@.subnet_alpha_in_provided, position.netuid), position.alpha),
                ),
                ..old(self)@
            }),
    {
        let ghost s0 = self@;
        let balance = read_balance(&self.balances, position.coldkey);
        self.balances.insert(position.coldkey, balance.saturating_sub(position.tao));
        let stake = read_stake(&self.total_hotkey_alpha, position.hotkey, position.netuid);
        proof {
            lemma_set_stake(self.total_hotkey_alpha@, position.hotkey, position.netuid, stake.saturating_sub(position.alpha));
        }
        write_stake(&mut self.total_hotkey_alpha, position.hotkey, position.netuid, stake.saturating_sub(position.alpha));
        let tao = read_u64(&self.subnet_tao_provided, position.netuid);
        self.subnet_tao_provided.insert(position.netuid, tao.saturating_add(position.tao));
        let alpha = read_u64(&self.subnet_alpha_in_provided, position.netuid);
        self.subnet_alpha_in_provided.insert(position.netuid, alpha.saturating_add(position.alpha));
        self.positions.push(position);
        assert(self@ =~= (PalletModel {
            positions: s0.positions.push(position),
            balances: s0.balances.insert(position.coldkey, sat_sub_u64(balance_of(s0.balances, position.coldkey), position.tao)),
            stakes: set_stake(
                s0.stakes,
                position.hotkey,
                position.netuid,
                sat_sub_u64(stake_of(s0.stakes, position.hotkey, position.netuid), position.alpha),
            ),
            subnet_tao_provided: s0.subnet_tao_provided.insert(
                position.netuid,
                sat_add_u64(get_u64(s0.subnet_tao_provided, position.netuid), position.tao),
            ),
            subnet_alpha_in_provided: s0.subnet_alpha_in_provided.insert(
                position.netuid,
                sat_add_u64(get_u64(s0.subnet_alpha_in_provided, position.netuid), position.alpha),
            ),
            ..s0
        }));
    }

    /// Records the block at which `netuid` was registered.
    pub fn set_network_registered_at(&mut self, netuid: NetUid, block: BlockNumber)
        ensures
            final(self)@ == (PalletModel {
                network_registered_at: old(self)@.network_registered_at.insert(netuid, block),
                ..old(self)@
            }),
    {
        self.network_registered_at.insert(netuid, block);
        assert(self@ =~= (PalletModel {
            network_registered_at: old(self)@.network_registered_at.insert(netuid, block),
            ..old(self)@
        }));
    }

    /// Block at which `netuid` was registered, zero when not recorded.
    pub fn get_network_registered_at(&self, netuid: NetUid) -> (r: BlockNumber)
        ensures
            r == registered_at(self@, netuid),
    {
        match self.network_registered_at.get(&netuid) {
            Some(b) => *b,
            None => 0,
        }
    }

    /// Sets the block before which registered subnets get their lock back.
    pub fn set_network_registration_start_block(&mut self, block: BlockNumber)
        ensures
            final(self)@ == (PalletModel { network_registration_start_block: block, ..old(self)@ }),
    {
        self.network_registration_start_block = block;
        assert(self@ =~= (PalletModel { network_registration_start_block: block, ..old(self)@ }));
    }

    /// Records the TAO value of the emission that the owner of `netuid` has
    /// received.
    pub fn set_owner_received_tao(&mut self, netuid: NetUid, amount: u64)
        ensures
            final(self)@ == (PalletModel {
                owner_received_tao: old(self)@.owner_received_tao.insert(netuid, amount),
                ..old(self)@
            }),
    {
        self.owner_received_tao.insert(netuid, amount);
        assert(self@ =~= (PalletModel {
            owner_received_tao: old(self)@.owner_received_tao.insert(netuid, amount),
            ..old(self)@
        }));
    }

    /// Locked TAO of `netuid`.
    pub fn get_subnet_locked_balance(&self, netuid: NetUid) -> (r: u64)
        ensures
            r == get_u64(self@.subnet_locked, netuid),
    {
        read_u64(&self.subnet_locked, netuid)
    }
}

} // verus!
