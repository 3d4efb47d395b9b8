//! The storage that the merger reads and writes, and its mathematical model.

use vstd::prelude::*;
use std::collections::HashMap;
use crate::stakes::{StakeEntry, stakes_unique};
use crate::types::{AccountId, BlockNumber, LiquidityPosition, MergerEvent, MergerStatus, NetUid};

verus! {

broadcast use vstd::std_specs::hash::group_hash_axioms;

/// Per-subnet settings that the merger removes with the merged subnet:
/// its active flag, mechanism kind, UID cap and registration settings.
/// (The split of emission between mechanisms is removed with them; its
/// content is not represented.)
#[derive(Clone, Copy, Debug, PartialEq, Eq, Structural)]
pub struct SubnetParams {
    pub active: bool,
    pub mechanism: u16,
    pub max_allowed_uids: u16,
    pub registration_allowed: bool,
    pub target_registrations_per_interval: u16,
}

/// The chain storage that the merger reads and writes.
///
/// A map with a missing key reads as zero (`false` for flags), as the
/// corresponding storage items do. `total_hotkey_alpha` lists the stakes in
/// the order in which storage iteration visits them.
pub struct Pallet {
    pub networks_added: HashMap<NetUid, bool>,
    pub total_networks: u16,
    pub subnet_owner: HashMap<NetUid, AccountId>,
    pub subnet_locked: HashMap<NetUid, u64>,
    pub mechanism_count: HashMap<NetUid, u8>,
    /// Mechanisms of each subnet that hold weights, bonds, incentives,
    /// last-update times or weight commits.
    pub mechanism_storage: Vec<(NetUid, u8)>,
    pub subnet_params: HashMap<NetUid, SubnetParams>,
    pub subnet_tao: HashMap<NetUid, u64>,
    pub subnet_tao_provided: HashMap<NetUid, u64>,
    pub subnet_alpha_in: HashMap<NetUid, u64>,
    pub subnet_alpha_in_provided: HashMap<NetUid, u64>,
    pub subnet_alpha_out: HashMap<NetUid, u64>,
    pub pending_emission: HashMap<NetUid, u64>,
    /// Alpha dividends owed to root validators, not yet paid out.
    pub pending_root_alpha_divs: HashMap<NetUid, u64>,
    /// The subnet owner's cut of emission, not yet paid out.
    pub pending_owner_cut: HashMap<NetUid, u64>,
    pub total_hotkey_alpha: Vec<StakeEntry>,
    /// Free TAO balance of each coldkey.
    pub balances: HashMap<AccountId, u64>,
    /// Users' liquidity positions, in the order in which they were added.
    pub positions: Vec<LiquidityPosition>,
    /// Block at which each subnet was registered.
    pub network_registered_at: HashMap<NetUid, BlockNumber>,
    /// Subnets registered before this block get their lock back when they
    /// are removed.
    pub network_registration_start_block: BlockNumber,
    /// TAO value of the emission that each subnet's owner has received.
    pub owner_received_tao: HashMap<NetUid, u64>,
    /// Proposals keyed by the surviving subnet: the subnet to merge in, the
    /// block of the proposal and its status.
    pub pending_merger: HashMap<NetUid, (NetUid, BlockNumber, MergerStatus)>,
    /// Pairs (surviving subnet, merged subnet) whose merger has consent.
    pub merger_consent: Vec<(NetUid, NetUid)>,
    /// For each merged subnet: the subnet it went into and the block.
    pub merger_history: HashMap<NetUid, (NetUid, BlockNumber)>,
    /// Events deposited so far, oldest first.
    pub events: Vec<MergerEvent>,
}

/// Mathematical model of `Pallet`.
#[verifier::ext_equal]
pub struct PalletModel {
    pub networks_added: Map<NetUid, bool>,
    pub total_networks: u16,
    pub subnet_owner: Map<NetUid, AccountId>,
    pub subnet_locked: Map<NetUid, u64>,
    pub mechanism_count: Map<NetUid, u8>,
    pub mechanism_storage: Set<(NetUid, u8)>,
    pub subnet_params: Map<NetUid, SubnetParams>,
    pub subnet_tao: Map<NetUid, u64>,
    pub subnet_tao_provided: Map<NetUid, u64>,
    pub subnet_alpha_in: Map<NetUid, u64>,
    pub subnet_alpha_in_provided: Map<NetUid, u64>,
    pub subnet_alpha_out: Map<NetUid, u64>,
    pub pending_emission: Map<NetUid, u64>,
    pub pending_root_alpha_divs: Map<NetUid, u64>,
    pub pending_owner_cut: Map<NetUid, u64>,
    pub stakes: Seq<StakeEntry>,
    pub balances: Map<AccountId, u64>,
    pub positions: Seq<LiquidityPosition>,
    pub network_registered_at: Map<NetUid, BlockNumber>,
    pub network_registration_start_block: BlockNumber,
    pub owner_received_tao: Map<NetUid, u64>,
    pub pending_merger: Map<NetUid, (NetUid, BlockNumber, MergerStatus)>,
    pub merger_consent: Set<(NetUid, NetUid)>,
    pub merger_history: Map<NetUid, (NetUid, BlockNumber)>,
    pub events: Seq<MergerEvent>,
}

impl View for Pallet {
    type V = PalletModel;

    open spec fn view(&self) -> PalletModel {
        PalletModel {
            networks_added: self.networks_added@,
            total_networks: self.total_networks,
            subnet_owner: self.subnet_owner@,
            subnet_locked: self.subnet_locked@,
            mechanism_count: self.mechanism_count@,
            mechanism_storage: self.mechanism_storage@.to_set(),
            subnet_params: self.subnet_params@,
            subnet_tao: self.subnet_tao@,
            subnet_tao_provided: self.subnet_tao_provided@,
            subnet_alpha_in: self.subnet_alpha_in@,
            subnet_alpha_in_provided: self.subnet_alpha_in_provided@,
            subnet_alpha_out: self.subnet_alpha_out@,
            pending_emission: self.pending_emission@,
            pending_root_alpha_divs: self.pending_root_alpha_divs@,
            pending_owner_cut: self.pending_owner_cut@,
            stakes: self.total_hotkey_alpha@,
            balances: self.balances@,
            positions: self.positions@,
            network_registered_at: self.network_registered_at@,
            network_registration_start_block: self.network_registration_start_block,
            owner_received_tao: self.owner_received_tao@,
            pending_merger: self.pending_merger@,
            merger_consent: self.merger_consent@.to_set(),
            merger_history: self.merger_history@,
            events: self.events@,
        }
    }
}

/// Value of `k` in `m`, zero when absent.
pub open spec fn get_u64(m: Map<NetUid, u64>, k: NetUid) -> u64 {
    if m.contains_key(k) {
        m[k]
    } else {
        0
    }
}

/// Whether `netuid` is a registered subnet.
pub open spec fn subnet_exists(s: PalletModel, netuid: NetUid) -> bool {
    s.networks_added.contains_key(netuid) && s.networks_added[netuid]
}

impl PalletModel {
    /// The internal invariant: no two stake entries share a key.
    pub open spec fn wf(self) -> bool {
        stakes_unique(self.stakes)
    }
}

impl Pallet {
    pub open spec fn wf(&self) -> bool {
        self@.wf()
    }
}

/// Balance of `k` in `m`, zero when absent.
pub open spec fn balance_of(m: Map<AccountId, u64>, k: AccountId) -> u64 {
    if m.contains_key(k) {
        m[k]
    } else {
        0
    }
}

/// Reads the balance of `k` from `m`, zero when absent.
pub fn read_balance(m: &HashMap<AccountId, u64>, k: AccountId) -> (r: u64)
    ensures
        r == balance_of(m@, k),
{
    match m.get(&k) {
        Some(v) => *v,
        None => 0,
    }
}

/// Reads `k` from `m`, zero when absent.
pub fn read_u64(m: &HashMap<NetUid, u64>, k: NetUid) -> (r: u64)
    ensures
        r == get_u64(m@, k),
{
    match m.get(&k) {
        Some(v) => *v,
        None => 0,
    }
}

/// Whether `pairs` holds `(a, b)`.
pub fn pair_set_contains(pairs: &Vec<(NetUid, NetUid)>, a: NetUid, b: NetUid) -> (r: bool)
    ensures
        r == pairs@.to_set().contains((a, b)),
{
    let mut i: usize = 0;
    while i < pairs.len()
        invariant
            0 <= i <= pairs.len(),
            forall|k: int| 0 <= k < i ==> pairs@[k] != (a, b),
        decreases pairs.len() - i,
    {
        let (x, y) = pairs[i];
        if x == a && y == b {
            assert(pairs@.contains((a, b)));
            return true;
        }
        i = i + 1;
    }
    assert(!pairs@.contains((a, b)));
    false
}

/// Adds `(a, b)` to `pairs`.
pub fn pair_set_insert(pairs: &mut Vec<(NetUid, NetUid)>, a: NetUid, b: NetUid)
    ensures
        final(pairs)@.to_set() == old(pairs)@.to_set().insert((a, b)),
{
    if !pair_set_contains(pairs, a, b) {
        pairs.push((a, b));
        assert(pairs@.to_set() =~= old(pairs)@.to_set().insert((a, b))) by {
            assert forall|p: (NetUid, NetUid)| pairs@.contains(p) <==> (old(pairs)@.contains(p) || p == (a, b)) by {
                if pairs@.contains(p) {
                    let k = choose|k: int| 0 <= k < pairs@.len() && pairs@[k] == p;
                    if k < old(pairs)@.len() {
                        assert(old(pairs)@[k] == p);
                    }
                }
                if old(pairs)@.contains(p) {
                    let k = choose|k: int| 0 <= k < old(pairs)@.len() && old(pairs)@[k] == p;
                    assert(pairs@[k] == p);
                }
                if p == (a, b) {
                    assert(pairs@[old(pairs)@.len() as int] == p);
                }
            }
        }
    } else {
        assert(pairs@.to_set() =~= old(pairs)@.to_set().insert((a, b)));
    }
}

/// One step of copying the elements of `v` other than `x`: when `before`
/// holds exactly those among the first `i`, then `kept`, which is `before`
/// with `v[i]` added unless it is `x`, holds exactly those among the first
/// `i + 1`.
pub proof fn lemma_filter_step<T>(before: Seq<T>, kept: Seq<T>, v: Seq<T>, i: int, x: T)
    requires
        0 <= i < v.len(),
        forall|p: T| #[trigger] before.contains(p) <==> (p != x && exists|k: int| 0 <= k < i && v[k] == p),
        kept == if v[i] != x {
            before.push(v[i])
        } else {
            before
        },
    ensures
        forall|q: T| #[trigger] kept.contains(q) <==> (q != x && exists|k: int| 0 <= k < i + 1 && v[k] == q),
{
    assert forall|q: T| #[trigger] kept.contains(q) <==> (q != x && exists|k: int| 0 <= k < i + 1 && v[k] == q) by {
        if kept.contains(q) {
            let k = choose|k: int| 0 <= k < kept.len() && kept[k] == q;
            if k < before.len() {
                assert(before[k] == q);
                assert(before.contains(q));
            } else {
                assert(v[i] == q);
            }
        }
        if q != x && (exists|k: int| 0 <= k < i + 1 && v[k] == q) {
            let k = choose|k: int| 0 <= k < i + 1 && v[k] == q;
            if k == i {
                assert(kept[kept.len() - 1] == q);
            } else {
                assert(before.contains(q));
                let m = choose|m: int| 0 <= m < before.len() && before[m] == q;
                assert(kept[m] == q);
            }
        }
    }
}

/// Removes `(a, b)` from `pairs`.
pub fn pair_set_remove(pairs: &mut Vec<(NetUid, NetUid)>, a: NetUid, b: NetUid)
    ensures
        final(pairs)@.to_set() == old(pairs)@.to_set().remove((a, b)),
{
    let mut kept: Vec<(NetUid, NetUid)> = Vec::new();
    let mut i: usize = 0;
    while i < pairs.len()
        invariant
            0 <= i <= pairs.len(),
            forall|p: (NetUid, NetUid)| #[trigger] kept@.contains(p) <==> (p != (a, b) && exists|k: int|
                0 <= k < i && pairs@[k] == p),
        decreases pairs.len() - i,
    {
        let p = pairs[i];
        let ghost before = kept@;
        if !(p.0 == a && p.1 == b) {
            kept.push(p);
        }
        proof {
            lemma_filter_step(before, kept@, pairs@, i as int, (a, b));
        }
        i = i + 1;
    }
    *pairs = kept;
    assert(pairs@.to_set() =~= old(pairs)@.to_set().remove((a, b)));
}

} // verus!
