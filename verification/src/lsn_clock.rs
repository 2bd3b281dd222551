//! Monotonic LSN allocator.
//!
//! LSNs are byte offsets into the WAL stream. The clock hands out contiguous,
//! aligned ranges of the stream, each of them once.

use vstd::prelude::*;

use crate::types::{Lsn, LSN_ALIGNMENT};

verus! {

/// Hands out [`Lsn`] values.
#[derive(Debug)]
pub struct LsnClock {
    next: u64,
}

impl LsnClock {
    /// The LSN that comes next.
    pub closed spec fn now(&self) -> Lsn {
        Lsn(self.next)
    }

    /// A clock that hands out LSNs from `start` on.
    pub fn new(start: Lsn) -> (clock: Self)
        requires
            start.is_valid(),
            start.0 % LSN_ALIGNMENT == 0,
        ensures
            clock.now() == start,
    {
        LsnClock { next: start.0 }
    }

    /// Allocates the next `record_size` bytes of the stream and returns the LSN
    /// at which the record goes.
    ///
    /// The counter wraps around at the end of the 64-bit range.
    pub fn next(&mut self, record_size: u64) -> (lsn: Lsn)
        requires
            record_size > 0,
            record_size % LSN_ALIGNMENT == 0,
        ensures
            lsn == old(self).now(),
            final(self).now().0 == old(self).now().0.wrapping_add(record_size),
    {
        let lsn: u64 = self.next;
        self.next = lsn.wrapping_add(record_size);
        Lsn(lsn)
    }

    /// Reserves the next `record_size` bytes of the stream without a record.
    ///
    /// The range belongs to the caller, who writes a record that covers it
    /// exactly; what is allocated in the meantime lies behind it.
    pub fn reserve(&mut self, record_size: u64) -> (lsn: Lsn)
        requires
            record_size > 0,
            record_size % LSN_ALIGNMENT == 0,
        ensures
            lsn == old(self).now(),
            final(self).now().0 == old(self).now().0.wrapping_add(record_size),
    {
        self.next(record_size)
    }

    /// The LSN that the next allocation returns.
    pub fn current(&self) -> (lsn: Lsn)
        ensures
            lsn == self.now(),
    {
        Lsn(self.next)
    }
}

impl Default for LsnClock {
    fn default() -> (clock: Self)
        ensures
            clock.now() == Lsn::first(),
    {
        Self::new(Lsn::first())
    }
}

/// The LSN that allocation number `k` returns when the clock starts at `start`
/// and `sizes` are allocated in turn, as long as the stream stays within the
/// 64-bit range.
pub open spec fn nth_lsn(start: int, sizes: Seq<u64>, k: int) -> int
    decreases k,
{
    if k <= 0 {
        start
    } else {
        nth_lsn(start, sizes, k - 1) + sizes[k - 1]
    }
}

/// The ranges that a clock hands out do not overlap, stay in order, and stay
/// aligned: whatever is allocated later starts at or behind the end of what was
/// allocated before.
pub proof fn allocations_are_disjoint(start: int, sizes: Seq<u64>, i: int, j: int)
    requires
        0 <= i < j <= sizes.len(),
        start % (LSN_ALIGNMENT as int) == 0,
        forall|k: int|
            0 <= k < sizes.len() ==> #[trigger] sizes[k] > 0 && sizes[k] % LSN_ALIGNMENT == 0,
    ensures
        nth_lsn(start, sizes, i) + sizes[i] <= nth_lsn(start, sizes, j),
        nth_lsn(start, sizes, i) < nth_lsn(start, sizes, j),
        nth_lsn(start, sizes, j) % (LSN_ALIGNMENT as int) == 0,
    decreases j,
{
    if j > i + 1 {
        allocations_are_disjoint(start, sizes, i, j - 1);
    } else {
        nth_lsn_aligned(start, sizes, i);
    }
}

proof fn nth_lsn_aligned(start: int, sizes: Seq<u64>, k: int)
    requires
        0 <= k <= sizes.len(),
        start % (LSN_ALIGNMENT as int) == 0,
        forall|k: int|
            0 <= k < sizes.len() ==> #[trigger] sizes[k] > 0 && sizes[k] % LSN_ALIGNMENT == 0,
    ensures
        nth_lsn(start, sizes, k) % (LSN_ALIGNMENT as int) == 0,
    decreases k,
{
    if k > 0 {
        nth_lsn_aligned(start, sizes, k - 1);
    }
}

} // verus!
