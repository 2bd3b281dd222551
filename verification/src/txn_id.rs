//! Transaction-ID clock.

use vstd::prelude::*;

use crate::types::TxnId;

verus! {

/// A monotonically increasing 64-bit transaction-ID clock.
///
/// 0 is reserved for [`TxnId::invalid`]; a fresh clock starts at
/// [`TxnId::first`].
#[derive(Debug)]
pub struct TxnIdClock {
    next: u64,
}

impl TxnIdClock {
    /// The XID that comes next.
    pub closed spec fn now(&self) -> TxnId {
        TxnId(self.next)
    }

    /// A clock whose next [`allocate`](Self::allocate) returns `start`, normally the
    /// superblock's `next_txn_id`.
    pub fn new(start: TxnId) -> (clock: Self)
        ensures
            clock.now() == start,
    {
        TxnIdClock { next: start.0 }
    }

    /// Allocates the next transaction ID. The clock wraps around at the end of
    /// the 64-bit range.
    pub fn allocate(&mut self) -> (xid: TxnId)
        ensures
            xid == old(self).now(),
            final(self).now().0 == old(self).now().0.wrapping_add(1),
    {
        let xid: u64 = self.next;
        self.next = xid.wrapping_add(1);
        TxnId(xid)
    }

    /// The XID that the next [`allocate`](Self::allocate) returns; checkpoints persist
    /// it.
    pub fn current(&self) -> (xid: TxnId)
        ensures
            xid == self.now(),
    {
        TxnId(self.next)
    }
}

} // verus!
