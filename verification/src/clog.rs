//! Commit-status (CLOG) access.
//!
//! The commit log records the final state of each transaction.

use vstd::prelude::*;

use crate::types::TxnId;

verus! {

/// Transaction commit status.
///
/// The numbers of [`TxnState::to_u8`] are part of the on-disk format.
#[derive(Debug, Clone, Copy, PartialEq, Eq, Structural)]
pub enum TxnState {
    /// Transaction is still in progress.
    InProgress,
    /// Transaction committed.
    Committed,
    /// Transaction aborted.
    Aborted,
    /// Reserved for subtransactions.
    SubCommitted,
}

/// The number of a state on disk.
pub open spec fn state_number(state: TxnState) -> u8 {
    match state {
        TxnState::InProgress => 0,
        TxnState::Committed => 1,
        TxnState::Aborted => 2,
        TxnState::SubCommitted => 3,
    }
}

impl TxnState {
    /// The number on disk.
    pub fn to_u8(self) -> (number: u8)
        ensures
            number == state_number(self),
            number <= 3,
    {
        match self {
            TxnState::InProgress => 0,
            TxnState::Committed => 1,
            TxnState::Aborted => 2,
            TxnState::SubCommitted => 3,
        }
    }
}

/// Read and write access to the commit log.
pub trait ClogAccessor {
    /// The commit status of `xid`.
    spec fn state_of(&self, xid: TxnId) -> TxnState;

    /// `after` is `before` with the commit status of `xid` recorded.
    spec fn recorded(before: &Self, xid: TxnId, state: TxnState, after: &Self) -> bool;

    /// The commit status of `xid`.
    fn get_state(&self, xid: TxnId) -> (state: TxnState)
        ensures
            state == self.state_of(xid),
    ;

    /// Records the commit status of `xid`.
    fn set_state(&mut self, xid: TxnId, state: TxnState)
        ensures
            Self::recorded(old(self), xid, state, final(self)),
    ;
}

/// A commit log for an engine without transactions: every XID reads as
/// committed, and writes are ignored.
#[derive(Debug, Default, Clone, Copy, PartialEq, Eq, Structural)]
pub struct NoOpClogAccessor;

impl ClogAccessor for NoOpClogAccessor {
    open spec fn state_of(&self, xid: TxnId) -> TxnState {
        TxnState::Committed
    }

    open spec fn recorded(before: &Self, xid: TxnId, state: TxnState, after: &Self) -> bool {
        after == before
    }

    fn get_state(&self, _xid: TxnId) -> (state: TxnState) {
        TxnState::Committed
    }

    fn set_state(&mut self, _xid: TxnId, _state: TxnState) {
    }
}

} // verus!
