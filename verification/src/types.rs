//! Identifiers, statuses, events and errors of the merger.

use vstd::prelude::*;
use crate::fixed::{FixedU64F64, FixedU96F32};

verus! {

/// Identifier of a subnet.
pub type NetUid = u16;

/// Identifier of an account (a hotkey or a coldkey).
pub type AccountId = u64;

/// Height of a block.
pub type BlockNumber = u64;

/// Rounding tolerance of the redeemability checks, in rao.
pub const REDEEMABILITY_ROUNDING_TOLERANCE: i128 = 100;

/// Stage of a pending merger.
#[derive(Clone, Copy, Debug, PartialEq, Eq, Structural)]
pub enum MergerStatus {
    Proposed,
    Approved,
    Executing,
}

/// What the merger reports as it goes.
#[derive(Clone, Copy, Debug, PartialEq, Eq, Structural)]
pub enum MergerEvent {
    MergerProposed { alpha: NetUid, beta: NetUid, proposer: AccountId, block: BlockNumber },
    MergerApproved { alpha: NetUid, beta: NetUid, approver: AccountId },
    MergerCancelled { alpha: NetUid, beta: NetUid, cancelled_by: AccountId },
    MergerExecuted { alpha: NetUid, beta: NetUid, block: BlockNumber },
    TokensConverted {
        account: AccountId,
        source_netuid: NetUid,
        target_netuid: NetUid,
        old_amount: u64,
        new_amount: u64,
    },
    PoolsConsolidated {
        alpha: NetUid,
        beta: NetUid,
        new_tao_reserve: u64,
        new_alpha_reserve: u64,
        delta_alpha_minted: u64,
    },
    SubnetCleaned { netuid: NetUid },
}

/// Why a merger request is refused.
#[derive(Clone, Copy, Debug, PartialEq, Eq, Structural)]
pub enum Error {
    CannotMergeWithSelf,
    SubnetNotExists,
    MergerAlreadyPending,
    NoMergerProposal,
    MergerMismatch,
    InvalidMergerStatus,
    MergerAlreadyExecuting,
    MergerNotApproved,
    InsufficientLiquidity,
    ZeroPrice,
    InvalidMergerDirection,
    ReserveOverflow,
    Overflow,
    RedeemabilityViolation,
}

/// Liquidity that a coldkey provides to a subnet's pool through one of its
/// hotkeys: TAO counted in the pool's provided TAO and alpha counted in its
/// provided alpha.
#[derive(Clone, Copy, Debug, PartialEq, Eq, Structural)]
pub struct LiquidityPosition {
    pub coldkey: AccountId,
    pub hotkey: AccountId,
    pub netuid: NetUid,
    pub tao: u64,
    pub alpha: u64,
}

/// State of one subnet's pool at the moment the merger looks at it.
#[derive(Clone, Copy, Debug, PartialEq, Eq, Structural)]
pub struct PoolSnapshot {
    /// TAO in the pool, provided liquidity included.
    pub tao_reserve: u64,
    /// Alpha in the pool, provided liquidity included.
    pub alpha_reserve: u64,
    /// Alpha held outside the pool.
    pub alpha_out: u64,
    /// TAO per alpha.
    pub price: FixedU96F32,
    /// Number of hotkeys with a stake on the subnet (saturating).
    pub total_stakers: u32,
}

/// The new stake of one holder and how much their redeemable TAO changes.
#[derive(Clone, Copy, Debug, PartialEq, Eq, Structural)]
pub struct ConversionResult {
    pub new_alpha_amount: FixedU64F64,
    pub redeemability_delta: i128,
}

/// One holder's conversion, keyed by hotkey and the subnet it held stake on.
#[derive(Clone, Copy, Debug, PartialEq, Eq, Structural)]
pub struct Conversion {
    pub hotkey: AccountId,
    pub netuid: NetUid,
    pub result: ConversionResult,
}

} // verus!
