//! Proposal, approval and cancellation of a merger.

use vstd::prelude::*;
use crate::snapshot::liquidity_check;
use crate::state::{Pallet, PalletModel, pair_set_insert, pair_set_remove, subnet_exists};
use crate::types::{AccountId, BlockNumber, Error, MergerEvent, MergerStatus, NetUid};

verus! {

broadcast use vstd::std_specs::hash::group_hash_axioms;

/// Outcome of proposing to merge `beta` into `alpha`.
pub open spec fn propose_result(s: PalletModel, alpha: NetUid, beta: NetUid) -> Result<(), Error> {
    if alpha == beta {
        Err(Error::CannotMergeWithSelf)
    } else if !subnet_exists(s, alpha) || !subnet_exists(s, beta) {
        Err(Error::SubnetNotExists)
    } else if s.pending_merger.contains_key(alpha) {
        Err(Error::MergerAlreadyPending)
    } else {
        liquidity_check(s, alpha, beta)
    }
}

/// State after an accepted proposal.
pub open spec fn after_propose(
    s: PalletModel,
    proposer: AccountId,
    alpha: NetUid,
    beta: NetUid,
    block: BlockNumber,
) -> PalletModel {
    PalletModel {
        pending_merger: s.pending_merger.insert(alpha, (beta, block, MergerStatus::Proposed)),
        events: s.events.push(MergerEvent::MergerProposed { alpha, beta, proposer, block }),
        ..s
    }
}

/// Outcome of approving the merger of `beta` into `alpha`.
pub open spec fn approve_result(s: PalletModel, alpha: NetUid, beta: NetUid) -> Result<(), Error> {
    if !s.pending_merger.contains_key(alpha) {
        Err(Error::NoMergerProposal)
    } else if s.pending_merger[alpha].0 != beta {
        Err(Error::MergerMismatch)
    } else if s.pending_merger[alpha].2 != MergerStatus::Proposed {
        Err(Error::InvalidMergerStatus)
    } else {
        Ok(())
    }
}

/// State after an accepted approval: the proposal is approved and the pair
/// has consent.
pub open spec fn after_approve(s: PalletModel, approver: AccountId, alpha: NetUid, beta: NetUid) -> PalletModel {
    PalletModel {
        pending_merger: s.pending_merger.insert(
            alpha,
            (beta, s.pending_merger[alpha].1, MergerStatus::Approved),
        ),
        merger_consent: s.merger_consent.insert((alpha, beta)),
        events: s.events.push(MergerEvent::MergerApproved { alpha, beta, approver }),
        ..s
    }
}

/// Outcome of cancelling the merger proposed for `alpha`.
pub open spec fn cancel_result(s: PalletModel, alpha: NetUid) -> Result<(), Error> {
    if !s.pending_merger.contains_key(alpha) {
        Err(Error::NoMergerProposal)
    } else if s.pending_merger[alpha].2 == MergerStatus::Executing {
        Err(Error::MergerAlreadyExecuting)
    } else {
        Ok(())
    }
}

/// State after an accepted cancellation: the proposal and its consent are gone.
pub open spec fn after_cancel(s: PalletModel, cancelled_by: AccountId, alpha: NetUid) -> PalletModel {
    let beta = s.pending_merger[alpha].0;
    PalletModel {
        pending_merger: s.pending_merger.remove(alpha),
        merger_consent: s.merger_consent.remove((alpha, beta)),
        events: s.events.push(MergerEvent::MergerCancelled { alpha, beta, cancelled_by }),
        ..s
    }
}

impl Pallet {
    /// Proposes to merge `beta_netuid` into `alpha_netuid` at block
    /// `current_block`. Who may propose is decided by the caller.
    pub fn do_propose_merger(
        &mut self,
        proposer: AccountId,
        alpha_netuid: NetUid,
        beta_netuid: NetUid,
        current_block: BlockNumber,
    ) -> (r: Result<(), Error>)
        ensures
            r == propose_result(old(self)@, alpha_netuid, beta_netuid),
            r is Ok ==> final(self)@ == after_propose(
                old(self)@,
                proposer,
                alpha_netuid,
                beta_netuid,
                current_block,
            ),
            r is Err ==> final(self)@ == old(self)@,
    {
        if alpha_netuid == beta_netuid {
            return Err(Error::CannotMergeWithSelf);
        }
        if !self.if_subnet_exist(alpha_netuid) || !self.if_subnet_exist(beta_netuid) {
            return Err(Error::SubnetNotExists);
        }
        if self.pending_merger.contains_key(&alpha_netuid) {
            return Err(Error::MergerAlreadyPending);
        }
        self.validate_merger_liquidity(alpha_netuid, beta_netuid)?;
        self.pending_merger.insert(alpha_netuid, (beta_netuid, current_block, MergerStatus::Proposed));
        self.events.push(
            MergerEvent::MergerProposed {
                alpha: alpha_netuid,
                beta: beta_netuid,
                proposer,
                block: current_block,
            },
        );
        Ok(())
    }

    /// Approves the proposed merger of `beta_netuid` into `alpha_netuid`.
    /// Who may approve is decided by the caller.
    pub fn do_approve_merger(&mut self, approver: AccountId, alpha_netuid: NetUid, beta_netuid: NetUid) -> (r:
        Result<(), Error>)
        ensures
            r == approve_result(old(self)@, alpha_netuid, beta_netuid),
            r is Ok ==> final(self)@ == after_approve(old(self)@, approver, alpha_netuid, beta_netuid),
            r is Err ==> final(self)@ == old(self)@,
    {
        let (proposed_beta, block, status) = match self.pending_merger.get(&alpha_netuid) {
            Some(p) => *p,
            None => return Err(Error::NoMergerProposal),
        };
        if proposed_beta != beta_netuid {
            return Err(Error::MergerMismatch);
        }
        if status != MergerStatus::Proposed {
            return Err(Error::InvalidMergerStatus);
        }
        self.pending_merger.insert(alpha_netuid, (beta_netuid, block, MergerStatus::Approved));
        pair_set_insert(&mut self.merger_consent, alpha_netuid, beta_netuid);
        self.events.push(
            MergerEvent::MergerApproved { alpha: alpha_netuid, beta: beta_netuid, approver },
        );
        Ok(())
    }

    /// Cancels the merger proposed for `alpha_netuid`, unless it is executing.
    pub fn do_cancel_merger(&mut self, cancelled_by: AccountId, alpha_netuid: NetUid) -> (r: Result<(), Error>)
        ensures
            r == cancel_result(old(self)@, alpha_netuid),
            r is Ok ==> final(self)@ == after_cancel(old(self)@, cancelled_by, alpha_netuid),
            r is Err ==> final(self)@ == old(self)@,
    {
        let (beta_netuid, _block, status) = match self.pending_merger.get(&alpha_netuid) {
            Some(p) => *p,
            None => return Err(Error::NoMergerProposal),
        };
        if status == MergerStatus::Executing {
            return Err(Error::MergerAlreadyExecuting);
        }
        self.pending_merger.remove(&alpha_netuid);
        pair_set_remove(&mut self.merger_consent, alpha_netuid, beta_netuid);
        self.events.push(
            MergerEvent::MergerCancelled { alpha: alpha_netuid, beta: beta_netuid, cancelled_by },
        );
        Ok(())
    }

    /// Whether `netuid` is a registered subnet.
    pub fn if_subnet_exist(&self, netuid: NetUid) -> (r: bool)
        ensures
            r == subnet_exists(self@, netuid),
    {
        match self.networks_added.get(&netuid) {
            Some(b) => *b,
            None => false,
        }
    }
}

} // verus!

verus! {

/// The proposals and consents are consistent: no proposal merges a subnet
/// into itself or is left executing, and a pair has consent exactly while
/// its proposal stands approved.
pub open spec fn merger_wf(s: PalletModel) -> bool {
    &&& forall|a: NetUid| #[trigger]
        s.pending_merger.contains_key(a) ==> s.pending_merger[a].0 != a && s.pending_merger[a].2
            != MergerStatus::Executing
    &&& forall|p: (NetUid, NetUid)| #[trigger]
        s.merger_consent.contains(p) ==> s.pending_merger.contains_key(p.0) && s.pending_merger[p.0].0
            == p.1 && s.pending_merger[p.0].2 == MergerStatus::Approved
    &&& forall|a: NetUid| #[trigger]
        s.pending_merger.contains_key(a) && s.pending_merger[a].2 == MergerStatus::Approved
            ==> s.merger_consent.contains((a, s.pending_merger[a].0))
}

} // verus!
