//! OID counter.

use vstd::prelude::*;

use crate::types::Oid;

verus! {

/// A monotonically increasing 64-bit OID counter.
#[derive(Debug)]
pub struct OidCounter {
    next: u64,
}

impl OidCounter {
    /// The OID that comes next.
    pub closed spec fn now(&self) -> Oid {
        Oid(self.next)
    }

    /// A counter whose next [`allocate`](Self::allocate) returns `start`.
    pub fn new(start: Oid) -> (counter: Self)
        ensures
            counter.now() == start,
    {
        OidCounter { next: start.0 }
    }

    /// Allocates the next OID. The counter wraps around at the end of the 64-bit
    /// range.
    pub fn allocate(&mut self) -> (oid: Oid)
        ensures
            oid == old(self).now(),
            final(self).now().0 == old(self).now().0.wrapping_add(1),
    {
        let oid: u64 = self.next;
        self.next = oid.wrapping_add(1);
        Oid(oid)
    }

    /// The OID that the next [`allocate`](Self::allocate) returns; checkpoints persist
    /// it.
    pub fn current(&self) -> (oid: Oid)
        ensures
            oid == self.now(),
    {
        Oid(self.next)
    }
}

} // verus!
