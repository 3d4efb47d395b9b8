//! Stake of each hotkey on each subnet, kept in the order in which the
//! subnet's storage hands its entries out.

use vstd::prelude::*;
use crate::types::{AccountId, NetUid};

verus! {

/// Alpha that a hotkey holds on a subnet.
#[derive(Clone, Copy, Debug, PartialEq, Eq, Structural)]
pub struct StakeEntry {
    pub hotkey: AccountId,
    pub netuid: NetUid,
    pub amount: u64,
}

pub open spec fn entry_has_key(e: StakeEntry, hotkey: AccountId, netuid: NetUid) -> bool {
    e.hotkey == hotkey && e.netuid == netuid
}

/// No two entries share a hotkey and a subnet.
pub open spec fn stakes_unique(s: Seq<StakeEntry>) -> bool {
    forall|i: int, j: int|
        0 <= i < s.len() && 0 <= j < s.len() && i != j
            ==> !entry_has_key(#[trigger] s[i], s[j].hotkey, #[trigger] s[j].netuid)
}

/// Index of the first entry for `(hotkey, netuid)` at or after `start`, or -1.
pub open spec fn index_from(s: Seq<StakeEntry>, hotkey: AccountId, netuid: NetUid, start: int) -> int
    decreases s.len() - start,
{
    if start < 0 || start >= s.len() {
        -1
    } else if entry_has_key(s[start], hotkey, netuid) {
        start
    } else {
        index_from(s, hotkey, netuid, start + 1)
    }
}

pub open spec fn stake_index(s: Seq<StakeEntry>, hotkey: AccountId, netuid: NetUid) -> int {
    index_from(s, hotkey, netuid, 0)
}

/// Stake of `hotkey` on `netuid`; zero when there is no entry.
pub open spec fn stake_of(s: Seq<StakeEntry>, hotkey: AccountId, netuid: NetUid) -> u64 {
    let i = stake_index(s, hotkey, netuid);
    if i < 0 {
        0
    } else {
        s[i].amount
    }
}

/// The table after the stake of `hotkey` on `netuid` is set to `amount`.
pub open spec fn set_stake(s: Seq<StakeEntry>, hotkey: AccountId, netuid: NetUid, amount: u64) -> Seq<StakeEntry> {
    let i = stake_index(s, hotkey, netuid);
    let e = StakeEntry { hotkey, netuid, amount };
    if i < 0 {
        s.push(e)
    } else {
        s.update(i, e)
    }
}

/// The table after the entry of `hotkey` on `netuid` is taken out.
pub open spec fn remove_stake(s: Seq<StakeEntry>, hotkey: AccountId, netuid: NetUid) -> Seq<StakeEntry> {
    let i = stake_index(s, hotkey, netuid);
    if i < 0 {
        s
    } else {
        s.remove(i)
    }
}

/// Number of entries of `netuid` with a non-zero stake.
pub open spec fn count_stakers(s: Seq<StakeEntry>, netuid: NetUid) -> nat
    decreases s.len(),
{
    if s.len() == 0 {
        0
    } else {
        count_stakers(s.drop_last(), netuid) + if s.last().netuid == netuid && s.last().amount != 0 {
            1nat
        } else {
            0nat
        }
    }
}

pub proof fn lemma_index_from_bounds(s: Seq<StakeEntry>, hotkey: AccountId, netuid: NetUid, start: int)
    ensures
        ({
            let i = index_from(s, hotkey, netuid, start);
            (i == -1 || (start <= i < s.len() && 0 <= i && entry_has_key(s[i], hotkey, netuid)))
        }),
        index_from(s, hotkey, netuid, start) == -1 ==> forall|k: int|
            start <= k < s.len() && 0 <= start ==> !entry_has_key(#[trigger] s[k], hotkey, netuid),
        index_from(s, hotkey, netuid, start) >= 0 ==> forall|k: int|
            start <= k < index_from(s, hotkey, netuid, start) ==> !entry_has_key(
                #[trigger] s[k],
                hotkey,
                netuid,
            ),
    decreases s.len() - start,
{
    if start < 0 || start >= s.len() {
    } else if entry_has_key(s[start], hotkey, netuid) {
    } else {
        lemma_index_from_bounds(s, hotkey, netuid, start + 1);
    }
}

/// The index of a key is the unique position that holds it.
pub proof fn lemma_stake_index(s: Seq<StakeEntry>, hotkey: AccountId, netuid: NetUid)
    ensures
        ({
            let i = stake_index(s, hotkey, netuid);
            &&& -1 <= i < s.len()
            &&& i >= 0 ==> entry_has_key(s[i], hotkey, netuid)
            &&& i == -1 <==> forall|k: int| 0 <= k < s.len() ==> !entry_has_key(#[trigger] s[k], hotkey, netuid)
            &&& stakes_unique(s) && i >= 0 ==> forall|k: int|
                0 <= k < s.len() && k != i ==> !entry_has_key(#[trigger] s[k], hotkey, netuid)
        }),
{
    lemma_index_from_bounds(s, hotkey, netuid, 0);
}

/// When `k` is the only position holding a key, it is the key's index.
pub proof fn lemma_stake_index_at(s: Seq<StakeEntry>, k: int)
    requires
        stakes_unique(s),
        0 <= k < s.len(),
    ensures
        stake_index(s, s[k].hotkey, s[k].netuid) == k,
        stake_of(s, s[k].hotkey, s[k].netuid) == s[k].amount,
{
    lemma_stake_index(s, s[k].hotkey, s[k].netuid);
}

/// Setting a stake keeps keys unique and changes exactly that one stake.
pub proof fn lemma_set_stake(s: Seq<StakeEntry>, hotkey: AccountId, netuid: NetUid, amount: u64)
    requires
        stakes_unique(s),
    ensures
        stakes_unique(set_stake(s, hotkey, netuid, amount)),
        stake_of(set_stake(s, hotkey, netuid, amount), hotkey, netuid) == amount,
        forall|h: AccountId, n: NetUid|
            !(h == hotkey && n == netuid) ==> #[trigger] stake_of(set_stake(s, hotkey, netuid, amount), h, n)
                == stake_of(s, h, n),
{
    let t = set_stake(s, hotkey, netuid, amount);
    lemma_stake_index(s, hotkey, netuid);
    let i = stake_index(s, hotkey, netuid);
    assert(stakes_unique(t));
    lemma_stake_index(t, hotkey, netuid);
    if i < 0 {
        lemma_stake_index_at(t, s.len() as int);
    } else {
        lemma_stake_index_at(t, i);
    }
    assert forall|h: AccountId, n: NetUid|
        !(h == hotkey && n == netuid) implies #[trigger] stake_of(t, h, n) == stake_of(s, h, n) by {
        lemma_stake_index(s, h, n);
        lemma_stake_index(t, h, n);
        let j = stake_index(s, h, n);
        if j >= 0 {
            lemma_stake_index_at(t, j);
        } else {
            assert forall|k: int| 0 <= k < t.len() implies !entry_has_key(#[trigger] t[k], h, n) by {
                if k < s.len() && k != i {
                    assert(!entry_has_key(s[k], h, n));
                }
            }
        }
    }
}

/// Taking a stake out keeps keys unique and zeroes exactly that one stake.
pub proof fn lemma_remove_stake(s: Seq<StakeEntry>, hotkey: AccountId, netuid: NetUid)
    requires
        stakes_unique(s),
    ensures
        stakes_unique(remove_stake(s, hotkey, netuid)),
        stake_of(remove_stake(s, hotkey, netuid), hotkey, netuid) == 0,
        forall|h: AccountId, n: NetUid|
            !(h == hotkey && n == netuid) ==> #[trigger] stake_of(remove_stake(s, hotkey, netuid), h, n)
                == stake_of(s, h, n),
{
    let t = remove_stake(s, hotkey, netuid);
    lemma_stake_index(s, hotkey, netuid);
    let i = stake_index(s, hotkey, netuid);
    if i >= 0 {
        assert forall|a: int, b: int|
            0 <= a < t.len() && 0 <= b < t.len() && a != b implies !entry_has_key(
            #[trigger] t[a],
            t[b].hotkey,
            #[trigger] t[b].netuid,
        ) by {
            let a2 = if a < i { a } else { a + 1 };
            let b2 = if b < i { b } else { b + 1 };
            assert(t[a] == s[a2]);
            assert(t[b] == s[b2]);
        }
    }
    lemma_stake_index(t, hotkey, netuid);
    if i >= 0 {
        assert forall|k: int| 0 <= k < t.len() implies !entry_has_key(#[trigger] t[k], hotkey, netuid) by {
            let k2 = if k < i { k } else { k + 1 };
            assert(t[k] == s[k2]);
        }
    }
    assert forall|h: AccountId, n: NetUid|
        !(h == hotkey && n == netuid) implies #[trigger] stake_of(t, h, n) == stake_of(s, h, n) by {
        lemma_stake_index(s, h, n);
        lemma_stake_index(t, h, n);
        let j = stake_index(s, h, n);
        if i < 0 {
        } else if j >= 0 {
            let j2 = if j < i { j } else { j - 1 };
            assert(t[j2] == s[j]);
            lemma_stake_index_at(t, j2);
        } else {
            assert forall|k: int| 0 <= k < t.len() implies !entry_has_key(#[trigger] t[k], h, n) by {
                let k2 = if k < i { k } else { k + 1 };
                assert(t[k] == s[k2]);
            }
        }
    }
}

/// Position of the entry for `(hotkey, netuid)`, if there is one.
pub fn find_stake(s: &Vec<StakeEntry>, hotkey: AccountId, netuid: NetUid) -> (r: Option<usize>)
    ensures
        match r {
            Some(i) => i < s.len() && i as int == stake_index(s@, hotkey, netuid),
            None => stake_index(s@, hotkey, netuid) == -1,
        },
{
    let mut i: usize = 0;
    while i < s.len()
        invariant
            0 <= i <= s.len(),
            index_from(s@, hotkey, netuid, 0) == index_from(s@, hotkey, netuid, i as int),
        decreases s.len() - i,
    {
        if s[i].hotkey == hotkey && s[i].netuid == netuid {
            return Some(i);
        }
        i = i + 1;
    }
    None
}

/// Stake of `hotkey` on `netuid`, zero when there is no entry.
pub fn read_stake(s: &Vec<StakeEntry>, hotkey: AccountId, netuid: NetUid) -> (r: u64)
    ensures
        r == stake_of(s@, hotkey, netuid),
{
    match find_stake(s, hotkey, netuid) {
        Some(i) => s[i].amount,
        None => 0,
    }
}

/// Sets the stake of `hotkey` on `netuid` to `amount`.
pub fn write_stake(s: &mut Vec<StakeEntry>, hotkey: AccountId, netuid: NetUid, amount: u64)
    ensures
        final(s)@ == set_stake(old(s)@, hotkey, netuid, amount),
{
    let e = StakeEntry { hotkey, netuid, amount };
    match find_stake(s, hotkey, netuid) {
        Some(i) => {
            s.set(i, e);
        },
        None => {
            s.push(e);
        },
    }
}

/// Takes the entry of `hotkey` on `netuid` out and returns its stake.
pub fn take_stake(s: &mut Vec<StakeEntry>, hotkey: AccountId, netuid: NetUid) -> (r: u64)
    ensures
        r == stake_of(old(s)@, hotkey, netuid),
        final(s)@ == remove_stake(old(s)@, hotkey, netuid),
{
    match find_stake(s, hotkey, netuid) {
        Some(i) => {
            let e = s.remove(i);
            e.amount
        },
        None => 0,
    }
}

} // verus!
