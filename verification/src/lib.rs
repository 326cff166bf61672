//! Custodial lending pool ledger for Bitcoin-settled markets.
//!
//! The crate keeps one append-only state chain per pool, tracks the
//! lifecycle of every settlement transaction (unconfirmed, confirmed,
//! finalized), and reconciles the locally retained block history with
//! newly reported blocks, recovering from chain reorganizations where
//! that is possible.

use vstd::prelude::*;

pub mod exchange;
pub mod pool;
pub mod reorg;
pub mod types;

verus! {

/// Errors surfaced by pool validation and by the transaction lifecycle
/// bookkeeping.  Every rejected request maps to exactly one variant.
#[derive(Clone, Copy, Debug, PartialEq, Eq, Structural)]
pub enum ExchangeError {
    /// Checked arithmetic failed; no balance is ever silently wrapped
    /// or saturated.
    Overflow,
    /// The addressed pool does not exist, or a borrow quote was
    /// requested for a coin the pool does not lend.
    InvalidPool,
    /// The amount falls below the configured economic minimum.
    TooSmallFunds,
    /// A rollback or finalize signal referenced a transaction the
    /// ledger does not know.
    InvalidTxid,
    /// The pool holds no liquidity yet (no state, or an empty reserve).
    EmptyPool,
    /// The ledger reached a state the caller contract rules out.
    InvalidState,
    /// The supplied settlement parameters do not match the pool ledger:
    /// wrong coin structure, a stale basis outpoint, a missing pool
    /// output, or amounts that deviate from the quoted offer.
    InvalidSignPsbtArgs,
    /// The supplied nonce is not the pool's current nonce; the payload
    /// carries the expected value so the caller can refetch and retry.
    PoolStateExpired(u64),
}

impl ExchangeError {
    /// Human-readable description of the error.
    pub fn message(&self) -> (r: &'static str)
        ensures
            *self is Overflow ==> r@ == "overflow"@,
            *self is InvalidPool ==> r@ == "invalid pool"@,
            *self is TooSmallFunds ==> r@ == "too small funds"@,
            *self is InvalidTxid ==> r@ == "invalid txid"@,
            *self is EmptyPool ==> r@ == "the pool has not been initialized or has been removed"@,
            *self is InvalidState ==> r@ == "invalid pool state"@,
            *self is InvalidSignPsbtArgs ==> r@ == "invalid sign_psbt args"@,
            *self is PoolStateExpired ==> r@ == "pool state expired"@,
    {
        match self {
            ExchangeError::Overflow => "overflow",
            ExchangeError::InvalidPool => "invalid pool",
            ExchangeError::TooSmallFunds => "too small funds",
            ExchangeError::InvalidTxid => "invalid txid",
            ExchangeError::EmptyPool => "the pool has not been initialized or has been removed",
            ExchangeError::InvalidState => "invalid pool state",
            ExchangeError::InvalidSignPsbtArgs => "invalid sign_psbt args",
            ExchangeError::PoolStateExpired(_) => "pool state expired",
        }
    }
}

} // verus!
