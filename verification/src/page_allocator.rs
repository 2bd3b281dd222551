//! The page allocator.
//!
//! Hands out page IDs: the page freed last, or else the next one that was never
//! handed out. Every allocation and every release is logged, so that replaying the
//! log rebuilds the allocator. Both are append-only: the flush at the commit of the
//! transaction makes them durable.
//!
//! An allocation goes in steps: [`PageAllocator::alloc_page`] says which page it
//! will be, how far the data file has to grow first, and what to log; once the file
//! has grown and the record is logged, [`PageAllocator::alloc_logged`] takes note.
//! A failure in between leaves the allocator as it was: space at the end of the file
//! that no record mentions is used by a later allocation. A release is
//! [`PageAllocator::free_page`], the log, and [`PageAllocator::free_logged`].

use vstd::prelude::*;
use vstd::string::*;

use crate::config::StorageConfig;
use crate::error::{Result, StorageError};
use crate::freelist_meta::FreelistMeta;
use crate::text::{decimal, push_decimal, tagged};
use crate::types::{Lsn, PageId};
use crate::wal::record::{
    is_serialize_error, unplaced, PageAllocRecord, PageFreeRecord, RecordView, WalRecord,
    WalRecordType,
};
use crate::wire::{take_varint, varint, varint_reads_back};

verus! {

/// The data file grows by multiples of this many bytes.
pub const DATA_FILE_GROWTH_BYTES: u64 = 1_048_576;

/// The length that a data file of `len` bytes has to have to hold page `page_id`.
pub open spec fn grown(len: nat, page_id: PageId, page_size: nat) -> nat {
    let required = page_id.0 as nat * page_size;
    if required <= len {
        len
    } else {
        (required + DATA_FILE_GROWTH_BYTES - 1) as nat / DATA_FILE_GROWTH_BYTES as nat
            * DATA_FILE_GROWTH_BYTES as nat
    }
}

/// Grown files hold the page, never shrink, and grow to whole megabytes.
pub proof fn growth_is_enough(len: nat, page_id: PageId, page_size: nat)
    ensures
        grown(len, page_id, page_size) >= page_id.0 * page_size,
        grown(len, page_id, page_size) >= len,
        grown(len, page_id, page_size) == len || grown(len, page_id, page_size)
            % DATA_FILE_GROWTH_BYTES as nat == 0,
        grown(len, page_id, page_size) == len || grown(len, page_id, page_size) < page_id.0
            * page_size + DATA_FILE_GROWTH_BYTES,
        page_id.0 * page_size <= len ==> grown(len, page_id, page_size) == len,
        page_id.0 * page_size > len ==> grown(len, page_id, page_size) % 1_048_576 == 0
            && grown(len, page_id, page_size) - page_id.0 * page_size < 1_048_576,
{
}

/// The state of an allocator.
#[verifier::ext_equal]
pub struct AllocatorView {
    /// The first page that was never handed out.
    pub next_page_id: PageId,
    /// The pages that were freed; the last one is handed out first.
    pub freelist: Seq<PageId>,
    /// The page size.
    pub page_size: nat,
    /// The length of the data file.
    pub file_len: nat,
    /// Whether the log was replayed.
    pub recovered: bool,
}

impl AllocatorView {
    /// The page that is handed out next.
    pub open spec fn candidate(self) -> PageId {
        if self.freelist.len() > 0 {
            self.freelist.last()
        } else {
            self.next_page_id
        }
    }

    /// The data file has pages, yet none was ever handed out: the log has to be
    /// replayed first.
    pub open spec fn needs_recovery(self) -> bool {
        self.file_len >= self.page_size && self.next_page_id.0 == 1 && !self.recovered
    }

    /// The data file can be made long enough for the page.
    pub open spec fn fits(self, page_id: PageId) -> bool {
        page_id.0 < u64::MAX && grown(self.file_len, page_id, self.page_size) <= u64::MAX
    }

    /// The state after handing out the candidate.
    pub open spec fn allocated(self) -> AllocatorView {
        AllocatorView {
            freelist: if self.freelist.len() > 0 {
                self.freelist.drop_last()
            } else {
                self.freelist
            },
            next_page_id: if self.candidate() == self.next_page_id {
                PageId((self.next_page_id.0 + 1) as u64)
            } else {
                self.next_page_id
            },
            file_len: grown(self.file_len, self.candidate(), self.page_size),
            ..self
        }
    }

    /// The page was handed out and not freed since.
    pub open spec fn is_in_use(self, page_id: PageId) -> bool {
        0 < page_id.0 < self.next_page_id.0 && !self.freelist.contains(page_id)
    }

    /// The state after a page is freed.
    pub open spec fn freed(self, page_id: PageId) -> AllocatorView {
        AllocatorView { freelist: self.freelist.push(page_id), ..self }
    }

    /// The state after a logged allocation is replayed.
    pub open spec fn replayed_alloc(self, page_id: PageId) -> AllocatorView {
        AllocatorView {
            next_page_id: if page_id.0 >= self.next_page_id.0 {
                PageId((page_id.0 + 1) as u64)
            } else {
                self.next_page_id
            },
            freelist: without_page(self.freelist, page_id),
            file_len: grown(self.file_len, page_id, self.page_size),
            recovered: true,
            ..self
        }
    }

    /// The state after a logged release is replayed.
    pub open spec fn replayed_free(self, page_id: PageId) -> AllocatorView {
        if self.freelist.contains(page_id) {
            self
        } else {
            AllocatorView { freelist: self.freelist.push(page_id), recovered: true, ..self }
        }
    }

    /// The pages in the freelist were handed out, and each is there once.
    pub open spec fn is_consistent(self) -> bool {
        &&& self.next_page_id.0 > 0
        &&& self.freelist.no_duplicates()
        &&& forall|i: int|
            0 <= i < self.freelist.len() ==> 0 < (#[trigger] self.freelist[i]).0
                < self.next_page_id.0
    }
}

/// The pages but `page_id`.
pub open spec fn without_page(pages: Seq<PageId>, page_id: PageId) -> Seq<PageId>
    decreases pages.len(),
{
    if pages.len() == 0 {
        pages
    } else if pages.last() == page_id {
        without_page(pages.drop_last(), page_id)
    } else {
        without_page(pages.drop_last(), page_id).push(pages.last())
    }
}

proof fn without_absent(pages: Seq<PageId>, page_id: PageId)
    requires
        !pages.contains(page_id),
    ensures
        without_page(pages, page_id) == pages,
    decreases pages.len(),
{
    if pages.len() > 0 {
        assert(pages.last() == pages[pages.len() - 1]);
        assert forall|i: int| 0 <= i < pages.drop_last().len() implies pages.drop_last()[i]
            != page_id by {
            assert(pages.contains(pages[i]));
        }
        without_absent(pages.drop_last(), page_id);
        assert(pages.drop_last().push(pages.last()) =~= pages);
    }
}

proof fn without_members(pages: Seq<PageId>, page_id: PageId)
    ensures
        forall|p: PageId| #[trigger]
            without_page(pages, page_id).contains(p) <==> pages.contains(p) && p != page_id,
        pages.no_duplicates() ==> without_page(pages, page_id).no_duplicates(),
    decreases pages.len(),
{
    if pages.len() > 0 {
        let front = pages.drop_last();
        let rest = without_page(front, page_id);
        let kept = without_page(pages, page_id);
        without_members(front, page_id);
        assert forall|p: PageId| #[trigger] kept.contains(p) <==> pages.contains(p) && p
            != page_id by {
            if pages.contains(p) {
                let i = choose|i: int| 0 <= i < pages.len() && pages[i] == p;
                if i < front.len() {
                    assert(front[i] == p);
                    assert(front.contains(p));
                }
            }
            if front.contains(p) {
                let i = choose|i: int| 0 <= i < front.len() && front[i] == p;
                assert(pages[i] == p);
            }
            if rest.contains(p) {
                let i = choose|i: int| 0 <= i < rest.len() && rest[i] == p;
                assert(kept[i] == p);
            }
            if kept.contains(p) {
                let i = choose|i: int| 0 <= i < kept.len() && kept[i] == p;
                if i < rest.len() {
                    assert(rest[i] == p);
                }
            }
            if pages.last() != page_id {
                assert(kept[kept.len() - 1] == pages.last());
            }
            assert(pages[pages.len() - 1] == pages.last());
        }
        if pages.no_duplicates() {
            assert(front.no_duplicates());
            if front.contains(pages.last()) {
                let i = choose|i: int| 0 <= i < front.len() && front[i] == pages.last();
                assert(pages[i] == pages[pages.len() - 1]);
            }
            assert(!rest.contains(pages.last()));
            assert forall|i: int, j: int| 0 <= i < kept.len() && 0 <= j < kept.len() && i
                != j implies kept[i] != kept[j] by {
                if i < rest.len() && j < rest.len() {
                    assert(kept[i] == rest[i] && kept[j] == rest[j]);
                } else if i < rest.len() {
                    assert(rest.contains(rest[i]));
                } else {
                    assert(rest.contains(rest[j]));
                }
            }
        }
    }
}

/// A page is never handed out while it is in use; then it is, and all other pages
/// are in use or not as before.
pub proof fn allocation_is_exclusive(state: AllocatorView)
    requires
        state.is_consistent(),
        state.fits(state.candidate()),
    ensures
        !state.is_in_use(state.candidate()),
        state.allocated().is_consistent(),
        state.allocated().is_in_use(state.candidate()),
        forall|p: PageId|
            p != state.candidate() ==> #[trigger] state.allocated().is_in_use(p)
                == state.is_in_use(p),
{
    let after = state.allocated();
    let page = state.candidate();
    if state.freelist.len() > 0 {
        assert(state.freelist[state.freelist.len() - 1] == page);
        assert(state.freelist.contains(page));
        if after.freelist.contains(page) {
            let i = choose|i: int| 0 <= i < after.freelist.len() && after.freelist[i] == page;
            assert(state.freelist[i] == state.freelist[state.freelist.len() - 1]);
        }
        assert forall|p: PageId| p != page implies #[trigger] after.is_in_use(p)
            == state.is_in_use(p) by {
            if state.freelist.contains(p) {
                let i = choose|i: int| 0 <= i < state.freelist.len() && state.freelist[i] == p;
                assert(after.freelist[i] == p);
            }
            if after.freelist.contains(p) {
                let i = choose|i: int| 0 <= i < after.freelist.len() && after.freelist[i] == p;
                assert(state.freelist[i] == p);
            }
        }
    }
}

/// A freed page is no longer in use and is the next to be handed out; all other
/// pages are in use or not as before.
pub proof fn freed_page_is_reused(state: AllocatorView, page_id: PageId)
    requires
        state.is_consistent(),
        state.is_in_use(page_id),
    ensures
        state.freed(page_id).is_consistent(),
        !state.freed(page_id).is_in_use(page_id),
        state.freed(page_id).candidate() == page_id,
        forall|p: PageId|
            p != page_id ==> #[trigger] state.freed(page_id).is_in_use(p) == state.is_in_use(p),
{
    let after = state.freed(page_id);
    assert(after.freelist[after.freelist.len() - 1] == page_id);
    assert forall|p: PageId| p != page_id implies #[trigger] after.is_in_use(p)
        == state.is_in_use(p) by {
        if state.freelist.contains(p) {
            let i = choose|i: int| 0 <= i < state.freelist.len() && state.freelist[i] == p;
            assert(after.freelist[i] == p);
        }
        if after.freelist.contains(p) {
            let i = choose|i: int| 0 <= i < after.freelist.len() && after.freelist[i] == p;
            assert(state.freelist[i] == p);
        }
    }
    assert forall|i: int, j: int| 0 <= i < after.freelist.len() && 0 <= j < after.freelist.len()
        && i != j implies after.freelist[i] != after.freelist[j] by {
        if i == state.freelist.len() {
            assert(state.freelist.contains(state.freelist[j]));
        } else if j == state.freelist.len() {
            assert(state.freelist.contains(state.freelist[i]));
        }
    }
}

/// Replaying what was logged rebuilds the allocator: a replay that was at the same
/// pages is at the same pages again after the next logged operation.
pub proof fn replay_follows_log(live: AllocatorView, replay: AllocatorView, page_id: PageId)
    requires
        live.is_consistent(),
        replay.next_page_id == live.next_page_id,
        replay.freelist == live.freelist,
    ensures
        live.fits(live.candidate()) ==> {
            &&& replay.replayed_alloc(live.candidate()).next_page_id
                == live.allocated().next_page_id
            &&& replay.replayed_alloc(live.candidate()).freelist == live.allocated().freelist
        },
        live.is_in_use(page_id) ==> {
            &&& replay.replayed_free(page_id).next_page_id == live.freed(page_id).next_page_id
            &&& replay.replayed_free(page_id).freelist == live.freed(page_id).freelist
        },
{
    if live.freelist.len() > 0 {
        let page = live.freelist.last();
        let front = live.freelist.drop_last();
        if front.contains(page) {
            let i = choose|i: int| 0 <= i < front.len() && front[i] == page;
            assert(live.freelist[i] == live.freelist[live.freelist.len() - 1]);
        }
        assert(live.freelist[live.freelist.len() - 1] == page);
        without_absent(front, page);
    }
}

/// An operation on an allocator.
pub enum AllocOp {
    /// The candidate is handed out.
    Alloc,
    /// A page is freed.
    Free(PageId),
}

/// What an operation leaves in the log.
pub struct LoggedOp {
    /// Whether the page was handed out, or else freed.
    pub alloc: bool,
    /// The page.
    pub page_id: PageId,
}

/// The operation can be done.
pub open spec fn can_do(state: AllocatorView, op: AllocOp) -> bool {
    match op {
        AllocOp::Alloc => state.fits(state.candidate()),
        AllocOp::Free(page_id) => state.is_in_use(page_id),
    }
}

/// The state after an operation.
pub open spec fn done(state: AllocatorView, op: AllocOp) -> AllocatorView {
    match op {
        AllocOp::Alloc => state.allocated(),
        AllocOp::Free(page_id) => state.freed(page_id),
    }
}

/// The state after some operations.
pub open spec fn all_done(state: AllocatorView, ops: Seq<AllocOp>) -> AllocatorView
    decreases ops.len(),
{
    if ops.len() == 0 {
        state
    } else {
        done(all_done(state, ops.drop_last()), ops.last())
    }
}

/// The operations can be done one after the other.
pub open spec fn can_do_all(state: AllocatorView, ops: Seq<AllocOp>) -> bool
    decreases ops.len(),
{
    ops.len() == 0 || (can_do_all(state, ops.drop_last()) && can_do(
        all_done(state, ops.drop_last()),
        ops.last(),
    ))
}

/// What the operations leave in the log.
pub open spec fn log_of(state: AllocatorView, ops: Seq<AllocOp>) -> Seq<LoggedOp>
    decreases ops.len(),
{
    if ops.len() == 0 {
        Seq::empty()
    } else {
        log_of(state, ops.drop_last()).push(
            match ops.last() {
                AllocOp::Alloc => LoggedOp {
                    alloc: true,
                    page_id: all_done(state, ops.drop_last()).candidate(),
                },
                AllocOp::Free(page_id) => LoggedOp { alloc: false, page_id },
            },
        )
    }
}

/// The state after the log is replayed.
pub open spec fn log_replayed(state: AllocatorView, log: Seq<LoggedOp>) -> AllocatorView
    decreases log.len(),
{
    if log.len() == 0 {
        state
    } else if log.last().alloc {
        log_replayed(state, log.drop_last()).replayed_alloc(log.last().page_id)
    } else {
        log_replayed(state, log.drop_last()).replayed_free(log.last().page_id)
    }
}

/// Recovery rebuilds the allocator: from the freelist as it was at a checkpoint, and
/// a next page ID from then or later, replaying what was logged since gives the
/// freelist as it is now, and the next page ID unless it was ahead already.
pub proof fn recovery_rebuilds_allocator(
    checkpoint: AllocatorView,
    start: AllocatorView,
    ops: Seq<AllocOp>,
)
    requires
        checkpoint.is_consistent(),
        can_do_all(checkpoint, ops),
        start.freelist == checkpoint.freelist,
        start.next_page_id.0 >= checkpoint.next_page_id.0,
    ensures
        all_done(checkpoint, ops).is_consistent(),
        ({
            let now = all_done(checkpoint, ops);
            let recovered = log_replayed(start, log_of(checkpoint, ops));
            &&& recovered.freelist == now.freelist
            &&& recovered.next_page_id == if start.next_page_id.0 >= now.next_page_id.0 {
                start.next_page_id
            } else {
                now.next_page_id
            }
        }),
    decreases ops.len(),
{
    if ops.len() > 0 {
        let front = ops.drop_last();
        recovery_rebuilds_allocator(checkpoint, start, front);
        let before = all_done(checkpoint, front);
        let log = log_of(checkpoint, ops);
        assert(log.drop_last() =~= log_of(checkpoint, front));
        let replay = log_replayed(start, log_of(checkpoint, front));
        match ops.last() {
            AllocOp::Alloc => {
                allocation_is_exclusive(before);
                replay_follows_log(
                    before,
                    AllocatorView { next_page_id: before.next_page_id, ..replay },
                    before.candidate(),
                );
            },
            AllocOp::Free(page_id) => {
                freed_page_is_reused(before, page_id);
                replay_follows_log(
                    before,
                    AllocatorView { next_page_id: before.next_page_id, ..replay },
                    page_id,
                );
            },
        }
    }
}

/// What a replay does with an operation on an allocator that it follows.
spec fn step_replayed(live: AllocatorView, replay: AllocatorView, op: AllocOp) -> AllocatorView {
    match op {
        AllocOp::Alloc => replay.replayed_alloc(live.candidate()),
        AllocOp::Free(page_id) => replay.replayed_free(page_id),
    }
}

/// The page that an operation is on.
spec fn page_of(live: AllocatorView, op: AllocOp) -> PageId {
    match op {
        AllocOp::Alloc => live.candidate(),
        AllocOp::Free(page_id) => page_id,
    }
}

proof fn settles_page(live: AllocatorView, replay: AllocatorView, op: AllocOp)
    requires
        live.is_consistent(),
        can_do(live, op),
    ensures
        ({
            let page = page_of(live, op);
            step_replayed(live, replay, op).freelist.contains(page) == done(
                live,
                op,
            ).freelist.contains(page)
        }),
{
    let page = page_of(live, op);
    match op {
        AllocOp::Alloc => {
            allocation_is_exclusive(live);
            without_members(replay.freelist, page);
            assert(live.allocated().is_in_use(page));
        },
        AllocOp::Free(_) => {
            let freed = live.freed(page).freelist;
            assert(freed[freed.len() - 1] == page);
            if !replay.freelist.contains(page) {
                let after = replay.freelist.push(page);
                assert(after[after.len() - 1] == page);
            }
        },
    }
}

proof fn pushed_members(pages: Seq<PageId>, page: PageId, p: PageId)
    requires
        p != page,
    ensures
        pages.push(page).contains(p) == pages.contains(p),
{
    let after = pages.push(page);
    if pages.contains(p) {
        let i = choose|i: int| 0 <= i < pages.len() && pages[i] == p;
        assert(after[i] == p);
    }
    if after.contains(p) {
        let i = choose|i: int| 0 <= i < after.len() && after[i] == p;
        assert(pages[i] == p);
    }
}

proof fn keeps_page(live: AllocatorView, replay: AllocatorView, op: AllocOp, p: PageId)
    requires
        p != page_of(live, op),
    ensures
        done(live, op).freelist.contains(p) == live.freelist.contains(p),
        step_replayed(live, replay, op).freelist.contains(p) == replay.freelist.contains(p),
{
    let page = page_of(live, op);
    match op {
        AllocOp::Alloc => {
            without_members(replay.freelist, page);
            if live.freelist.len() > 0 {
                let front = live.freelist.drop_last();
                assert(live.freelist =~= front.push(page));
                pushed_members(front, page, p);
            }
        },
        AllocOp::Free(_) => {
            pushed_members(live.freelist, page, p);
            pushed_members(replay.freelist, page, p);
        },
    }
}

/// The log tells of the page.
pub open spec fn tells_of(log: Seq<LoggedOp>, page_id: PageId) -> bool {
    exists|i: int| 0 <= i < log.len() && (#[trigger] log[i]).page_id == page_id
}

/// Replaying what was logged since a checkpoint puts each page that the log tells of
/// where it is now, whatever the replay starts from, and leaves the others where they
/// are.
pub proof fn replay_settles_pages(
    checkpoint: AllocatorView,
    start: AllocatorView,
    ops: Seq<AllocOp>,
)
    requires
        checkpoint.is_consistent(),
        can_do_all(checkpoint, ops),
        start.freelist.no_duplicates(),
        start.next_page_id.0 >= checkpoint.next_page_id.0,
    ensures
        ({
            let now = all_done(checkpoint, ops);
            let log = log_of(checkpoint, ops);
            let recovered = log_replayed(start, log);
            &&& recovered.freelist.no_duplicates()
            &&& forall|p: PageId| #[trigger]
                recovered.freelist.contains(p) == if tells_of(log, p) {
                    now.freelist.contains(p)
                } else {
                    start.freelist.contains(p)
                }
            &&& recovered.next_page_id == if start.next_page_id.0 >= now.next_page_id.0 {
                start.next_page_id
            } else {
                now.next_page_id
            }
        }),
    decreases ops.len(),
{
    let log = log_of(checkpoint, ops);
    if ops.len() > 0 {
        let front = ops.drop_last();
        replay_settles_pages(checkpoint, start, front);
        recovery_rebuilds_allocator(checkpoint, checkpoint, front);
        let before = all_done(checkpoint, front);
        let now = all_done(checkpoint, ops);
        let log_before = log_of(checkpoint, front);
        assert(log.drop_last() =~= log_before);
        let replay = log_replayed(start, log_before);
        let recovered = log_replayed(start, log);
        let page = log.last().page_id;
        match ops.last() {
            AllocOp::Alloc => {
                allocation_is_exclusive(before);
                without_members(replay.freelist, page);
            },
            AllocOp::Free(_) => {
                freed_page_is_reused(before, page);
                freelist_stays_free_of_duplicates(replay, page);
            },
        }
        assert forall|p: PageId| #[trigger] recovered.freelist.contains(p) == if tells_of(log, p) {
            now.freelist.contains(p)
        } else {
            start.freelist.contains(p)
        } by {
            assert(replay.freelist.contains(p) == if tells_of(log_before, p) {
                before.freelist.contains(p)
            } else {
                start.freelist.contains(p)
            });
            if p == page {
                assert(log[log.len() - 1].page_id == p);
                assert(tells_of(log, p));
                settles_page(before, replay, ops.last());
            } else {
                if tells_of(log_before, p) {
                    let i = choose|i: int|
                        0 <= i < log_before.len() && (#[trigger] log_before[i]).page_id == p;
                    assert(log[i].page_id == p);
                }
                if tells_of(log, p) {
                    let i = choose|i: int| 0 <= i < log.len() && (#[trigger] log[i]).page_id == p;
                    assert(log_before[i].page_id == p);
                }
                keeps_page(before, replay, ops.last(), p);
            }
        }
    }
}

/// Recovery rebuilds the allocator from a newer freelist too: when the freelist is that
/// of a point behind the checkpoint, replaying what was logged since the checkpoint, some
/// of which the freelist has seen already, gives the same free pages, each once.
pub proof fn newer_freelist_is_rebuilt(
    checkpoint: AllocatorView,
    start: AllocatorView,
    ops: Seq<AllocOp>,
    seen: int,
)
    requires
        checkpoint.is_consistent(),
        can_do_all(checkpoint, ops),
        0 <= seen <= ops.len(),
        start.freelist == all_done(checkpoint, ops.take(seen)).freelist,
        start.next_page_id.0 >= checkpoint.next_page_id.0,
    ensures
        ({
            let now = all_done(checkpoint, ops);
            let recovered = log_replayed(start, log_of(checkpoint, ops));
            &&& recovered.is_consistent()
            &&& forall|p: PageId| #[trigger]
                recovered.freelist.contains(p) == now.freelist.contains(p)
            &&& recovered.next_page_id == if start.next_page_id.0 >= now.next_page_id.0 {
                start.next_page_id
            } else {
                now.next_page_id
            }
        }),
{
    let now = all_done(checkpoint, ops);
    let log = log_of(checkpoint, ops);
    let recovered = log_replayed(start, log);
    prefix_can_be_done(checkpoint, ops, seen);
    let part = ops.take(seen);
    recovery_rebuilds_allocator(checkpoint, checkpoint, ops);
    recovery_rebuilds_allocator(checkpoint, checkpoint, part);
    replay_settles_pages(checkpoint, start, ops);
    replay_settles_pages(checkpoint, checkpoint, ops);
    replay_settles_pages(checkpoint, checkpoint, part);
    let live = log_replayed(checkpoint, log);
    let seen_then = log_replayed(checkpoint, log_of(checkpoint, part));
    assert forall|p: PageId| #[trigger] recovered.freelist.contains(p) == now.freelist.contains(
        p,
    ) by {
        assert(live.freelist.contains(p) == now.freelist.contains(p));
        assert(seen_then.freelist.contains(p) == start.freelist.contains(p));
        if !tells_of(log, p) && tells_of(log_of(checkpoint, part), p) {
            let then = log_of(checkpoint, part);
            let i = choose|i: int| 0 <= i < then.len() && (#[trigger] then[i]).page_id == p;
            assert(log[i].page_id == p);
        }
    }
    assert forall|i: int| 0 <= i < recovered.freelist.len() implies 0 < (
    #[trigger] recovered.freelist[i]).0 < recovered.next_page_id.0 by {
        let p = recovered.freelist[i];
        assert(recovered.freelist.contains(p));
        let j = choose|j: int| 0 <= j < now.freelist.len() && now.freelist[j] == p;
        assert(0 < now.freelist[j].0 < now.next_page_id.0);
    }
}

/// What some operations leave in the log starts with what the first of them leave.
proof fn prefix_can_be_done(state: AllocatorView, ops: Seq<AllocOp>, n: int)
    requires
        can_do_all(state, ops),
        0 <= n <= ops.len(),
    ensures
        can_do_all(state, ops.take(n)),
        log_of(state, ops).len() == ops.len(),
        log_of(state, ops.take(n)) == log_of(state, ops).take(n),
    decreases ops.len(),
{
    if n == ops.len() {
        assert(ops.take(n) =~= ops);
        if ops.len() > 0 {
            prefix_can_be_done(state, ops.drop_last(), 0);
        }
        assert(log_of(state, ops).take(n) =~= log_of(state, ops));
    } else {
        prefix_can_be_done(state, ops.drop_last(), n);
        assert(ops.drop_last().take(n) =~= ops.take(n));
        assert(log_of(state, ops).take(n) =~= log_of(state, ops.drop_last()).take(n));
    }
}

/// Replaying a record twice is replaying it once.
pub proof fn replay_is_idempotent(state: AllocatorView, page_id: PageId)
    requires
        state.fits(page_id),
    ensures
        state.replayed_alloc(page_id).replayed_alloc(page_id) == state.replayed_alloc(page_id),
        state.replayed_free(page_id).replayed_free(page_id) == state.replayed_free(page_id),
{
    let once = state.replayed_alloc(page_id);
    without_members(state.freelist, page_id);
    without_absent(once.freelist, page_id);
    growth_is_enough(state.file_len, page_id, state.page_size);
    assert(once.replayed_alloc(page_id) =~= once);
    let freed = state.replayed_free(page_id);
    if !state.freelist.contains(page_id) {
        assert(freed.freelist[freed.freelist.len() - 1] == page_id);
    }
}

/// Neither allocation, nor release, nor replay puts a page into the freelist twice.
pub proof fn freelist_stays_free_of_duplicates(state: AllocatorView, page_id: PageId)
    requires
        state.freelist.no_duplicates(),
    ensures
        state.allocated().freelist.no_duplicates(),
        !state.freelist.contains(page_id) ==> state.freed(page_id).freelist.no_duplicates(),
        state.replayed_alloc(page_id).freelist.no_duplicates(),
        state.replayed_free(page_id).freelist.no_duplicates(),
{
    without_members(state.freelist, page_id);
    if !state.freelist.contains(page_id) {
        let after = state.freelist.push(page_id);
        assert forall|i: int, j: int| 0 <= i < after.len() && 0 <= j < after.len() && i
            != j implies after[i] != after[j] by {
            if i == state.freelist.len() {
                assert(state.freelist.contains(state.freelist[j]));
            } else if j == state.freelist.len() {
                assert(state.freelist.contains(state.freelist[i]));
            }
        }
    }
}

/// What an allocation takes.
#[derive(Debug, Clone, PartialEq, Eq)]
pub struct AllocPlan {
    /// The page.
    pub page_id: PageId,
    /// The length that the data file has to be given first, if it is too short.
    pub grow_to: Option<u64>,
    /// What to log then.
    pub record: WalRecord,
}

/// The result is an `InvalidOperation` with the message `text`.
pub open spec fn refuses<T>(result: Result<T>, text: Seq<char>) -> bool {
    result matches Err(StorageError::InvalidOperation(message)) && message@ == text
}

/// The message for a page that no file can hold.
pub open spec fn out_of_range_text(page_id: PageId) -> Seq<char> {
    "page "@ + tagged("PageId"@, page_id.0 as nat) + " is out of range"@
}

/// The message for a data file that does not consist of whole pages.
pub open spec fn ragged_file_text(file_len: u64, page_size: usize) -> Seq<char> {
    "data file size "@ + decimal(file_len as nat) + " is not a multiple of page size "@ + decimal(
        page_size as nat,
    )
}

/// What replaying a record does to an allocator; `None` if it cannot be replayed.
pub open spec fn replayed(state: AllocatorView, record: RecordView) -> Option<AllocatorView> {
    match record.record_type {
        WalRecordType::PageAlloc => match take_varint(record.payload) {
            Some((id, _)) if state.fits(PageId(id)) => Some(state.replayed_alloc(PageId(id))),
            _ => None,
        },
        WalRecordType::PageFree => match take_varint(record.payload) {
            Some((id, _)) => Some(state.replayed_free(PageId(id))),
            None => None,
        },
        _ => Some(state),
    }
}

/// How a record that cannot be replayed is refused.
pub open spec fn replay_refused(record: RecordView, result: Result<()>) -> bool {
    match take_varint(record.payload) {
        Some((id, _)) => refuses(result, out_of_range_text(PageId(id))),
        None => is_serialize_error(result),
    }
}

/// Pages are handed out in turn: the page freed last, or else the first that was never handed
/// out. Only that page leaves the freelist or is counted as handed out; the data file grows
/// to hold it, and nothing else changes.
pub proof fn pages_are_handed_out_in_turn(state: AllocatorView)
    requires
        state.fits(state.candidate()),
        state.next_page_id.0 < u64::MAX,
    ensures
        ({
            let after = state.allocated();
            let n = state.freelist.len() as int;
            &&& n > 0 ==> state.candidate() == state.freelist[n - 1] && after.freelist
                == state.freelist.take(n - 1)
            &&& n == 0 ==> state.candidate() == state.next_page_id && after.freelist.len() == 0
                && after.next_page_id.0 == state.next_page_id.0 + 1
            &&& n > 0 && state.freelist[n - 1] != state.next_page_id ==> after.next_page_id
                == state.next_page_id
            &&& after.file_len >= state.candidate().0 * state.page_size
            &&& after.file_len >= state.file_len
            &&& state.candidate().0 * state.page_size <= state.file_len ==> after.file_len
                == state.file_len
            &&& after.page_size == state.page_size
            &&& after.recovered == state.recovered
        }),
{
    growth_is_enough(state.file_len, state.candidate(), state.page_size);
    if state.freelist.len() > 0 {
        assert(state.freelist.drop_last() =~= state.freelist.take(state.freelist.len() - 1));
    }
}

/// Freeing a page puts it at the end of the freelist, and changes nothing else.
pub proof fn freed_page_joins_the_freelist(state: AllocatorView, page_id: PageId)
    ensures
        state.freed(page_id).freelist == state.freelist.push(page_id),
        state.freed(page_id) == (AllocatorView {
            freelist: state.freed(page_id).freelist,
            ..state
        }),
        state.is_in_use(page_id) <==> page_id.0 > 0 && page_id.0 < state.next_page_id.0
            && !state.freelist.contains(page_id),
{
}

/// The log has to be replayed before the first allocation exactly if the data file holds a
/// page, though none was ever handed out, and no replay was noted.
pub proof fn replay_comes_before_allocation(state: AllocatorView)
    ensures
        state.recovered ==> !state.needs_recovery(),
        state.next_page_id.0 != 1 ==> !state.needs_recovery(),
        state.file_len < state.page_size ==> !state.needs_recovery(),
        !state.recovered && state.next_page_id.0 == 1 && state.file_len >= state.page_size
            ==> state.needs_recovery(),
{
}

/// A page can be handed out whenever a data file can be made long enough to hold it.
pub proof fn pages_fit_until_the_file_is_full(state: AllocatorView, page_id: PageId)
    requires
        state.file_len <= u64::MAX,
    ensures
        page_id.0 < u64::MAX && page_id.0 * state.page_size + DATA_FILE_GROWTH_BYTES <= u64::MAX
            ==> state.fits(page_id),
        page_id.0 < u64::MAX && page_id.0 * state.page_size <= state.file_len ==> state.fits(
            page_id,
        ),
        state.fits(page_id) ==> page_id.0 < u64::MAX && page_id.0 * state.page_size <= u64::MAX,
{
    growth_is_enough(state.file_len, page_id, state.page_size);
}

/// Replaying a logged allocation takes the page out of the freelist, if it is there, and
/// counts it as handed out; the data file holds it then. No other page is affected.
pub proof fn replayed_allocation_is_handed_out(
    state: AllocatorView,
    record: RecordView,
    page_id: PageId,
    other: PageId,
)
    requires
        record.record_type is PageAlloc,
        record.payload == varint(page_id.0),
        state.fits(page_id),
        other != page_id,
    ensures
        ({
            &&& replayed(state, record) matches Some(after)
            &&& !after.freelist.contains(page_id)
            &&& after.freelist.contains(other) == state.freelist.contains(other)
            &&& state.freelist.no_duplicates() ==> after.freelist.no_duplicates()
            &&& after.next_page_id.0 == if page_id.0 >= state.next_page_id.0 {
                page_id.0 + 1
            } else {
                state.next_page_id.0 as int
            }
            &&& after.file_len >= page_id.0 * state.page_size
            &&& after.file_len >= state.file_len
            &&& after.page_size == state.page_size
            &&& after.recovered
        }),
{
    varint_reads_back(page_id.0, Seq::empty());
    assert(varint(page_id.0) + Seq::<u8>::empty() =~= varint(page_id.0));
    without_members(state.freelist, page_id);
    growth_is_enough(state.file_len, page_id, state.page_size);
    let after = state.replayed_alloc(page_id);
    assert(after.freelist.contains(other) == state.freelist.contains(other));
    assert(!after.freelist.contains(page_id));
}

/// Replaying a logged release puts the page into the freelist, unless it is there already, and
/// changes nothing else of the pages.
pub proof fn replayed_release_is_free(
    state: AllocatorView,
    record: RecordView,
    page_id: PageId,
    other: PageId,
)
    requires
        record.record_type is PageFree,
        record.payload == varint(page_id.0),
        other != page_id,
    ensures
        ({
            &&& replayed(state, record) matches Some(after)
            &&& after.freelist.contains(page_id)
            &&& after.freelist.contains(other) == state.freelist.contains(other)
            &&& state.freelist.no_duplicates() ==> after.freelist.no_duplicates()
            &&& state.freelist.is_prefix_of(after.freelist)
            &&& after.next_page_id == state.next_page_id
            &&& after.file_len == state.file_len
            &&& after.page_size == state.page_size
            &&& state.freelist.contains(page_id) ==> after == state
            &&& !state.freelist.contains(page_id) ==> after.recovered
        }),
{
    varint_reads_back(page_id.0, Seq::empty());
    assert(varint(page_id.0) + Seq::<u8>::empty() =~= varint(page_id.0));
    if state.freelist.no_duplicates() {
        freelist_stays_free_of_duplicates(state, page_id);
    }
    pushed_members(state.freelist, page_id, other);
    let after = state.replayed_free(page_id);
    if !state.freelist.contains(page_id) {
        assert(after.freelist[after.freelist.len() - 1] == page_id);
    }
    assert(state.freelist.is_prefix_of(after.freelist));
}

/// Hands out and takes back data pages.
#[derive(Debug)]
pub struct PageAllocator {
    next_page_id: PageId,
    freelist: Vec<PageId>,
    page_size: usize,
    file_len: u64,
    recovery_applied: bool,
}

impl View for PageAllocator {
    type V = AllocatorView;

    closed spec fn view(&self) -> AllocatorView {
        AllocatorView {
            next_page_id: self.next_page_id,
            freelist: self.freelist@,
            page_size: self.page_size as nat,
            file_len: self.file_len as nat,
            recovered: self.recovery_applied,
        }
    }
}

impl PageAllocator {
    /// An allocator that never handed out a page, for a data file of `file_len`
    /// bytes. What the log holds has to be replayed before the first allocation.
    pub fn open(config: &StorageConfig, file_len: u64) -> (result: Result<Self>)
        requires
            config.page_size > 0,
        ensures
            result is Ok <==> file_len % (config.page_size as u64) == 0,
            result matches Ok(allocator) ==> allocator@ == (AllocatorView {
                next_page_id: PageId(1),
                freelist: Seq::empty(),
                page_size: config.page_size as nat,
                file_len: file_len as nat,
                recovered: false,
            }),
            result matches Err(e) ==> e matches StorageError::MetadataCorrupted(message)
                && message@ == ragged_file_text(file_len, config.page_size),
    {
        Self::open_at(config, file_len, PageId::first())
    }

    /// An allocator whose first `next_page_id` pages, less one, were handed out.
    pub fn open_at(config: &StorageConfig, file_len: u64, next_page_id: PageId) -> (result: Result<
        Self,
    >)
        requires
            config.page_size > 0,
        ensures
            result is Ok <==> file_len % (config.page_size as u64) == 0,
            result matches Ok(allocator) ==> allocator@ == (AllocatorView {
                next_page_id,
                freelist: Seq::empty(),
                page_size: config.page_size as nat,
                file_len: file_len as nat,
                recovered: false,
            }),
            result matches Err(e) ==> e matches StorageError::MetadataCorrupted(message)
                && message@ == ragged_file_text(file_len, config.page_size),
    {
        let page_size: usize = config.page_size();
        if file_len % (page_size as u64) != 0 {
            let mut message = "data file size ".to_owned();
            push_decimal(&mut message, file_len);
            message.append(" is not a multiple of page size ");
            push_decimal(&mut message, page_size as u64);
            return Err(StorageError::MetadataCorrupted(message));
        }
        Ok(
            PageAllocator {
                next_page_id,
                freelist: Vec::new(),
                page_size,
                file_len,
                recovery_applied: false,
            },
        )
    }

    fn out_of_range(page_id: PageId) -> (error: StorageError)
        ensures
            error matches StorageError::InvalidOperation(message) && message@ == out_of_range_text(
                page_id,
            ),
    {
        let mut message = "page ".to_owned();
        message.append(page_id.to_text().as_str());
        message.append(" is out of range");
        StorageError::InvalidOperation(message)
    }

    /// The length of the data file that holds a page; `None` if none is long enough.
    fn file_len_for(&self, page_id: PageId) -> (len: Option<u64>)
        ensures
            len is Some <==> self@.fits(page_id),
            len matches Some(len) ==> len == grown(self@.file_len, page_id, self@.page_size),
    {
        let page_size: u64 = self.page_size as u64;
        assert(page_id.0 * page_size <= 0xffff_ffff_ffff_fffe_0000_0000_0000_0001) by (nonlinear_arith)
            requires
                page_id.0 <= u64::MAX,
                page_size <= u64::MAX,
        ;
        let required: u128 = page_id.0 as u128 * page_size as u128;
        let chunk: u128 = DATA_FILE_GROWTH_BYTES as u128;
        let len: u128 = if required <= self.file_len as u128 {
            self.file_len as u128
        } else {
            (required + chunk - 1) / chunk * chunk
        };
        assert(len == grown(self@.file_len, page_id, self@.page_size));
        if page_id.0 == u64::MAX || len > u64::MAX as u128 {
            None
        } else {
            Some(len as u64)
        }
    }

    /// Which page is allocated next: the one freed last, or else the first one that
    /// was never handed out. Nothing changes yet.
    pub fn alloc_page(&self) -> (result: Result<AllocPlan>)
        ensures
            self@.needs_recovery() ==> (result matches Err(StorageError::RecoveryRequired(message))
                && message@ == "data file is "@ + decimal(self@.file_len)
                + " bytes but next_page_id is still PageId(1); replay all existing WAL records before alloc_page()"@),
            !self@.needs_recovery() && !self@.fits(self@.candidate()) ==> refuses(
                result,
                out_of_range_text(self@.candidate()),
            ),
            !self@.needs_recovery() && self@.fits(self@.candidate()) ==> {
                &&& result matches Ok(plan)
                &&& plan.page_id == self@.candidate()
                &&& plan.grow_to == if self@.allocated().file_len > self@.file_len {
                    Some(self@.allocated().file_len as u64)
                } else {
                    None
                }
                &&& plan.record@ == unplaced(
                    WalRecordType::PageAlloc,
                    0,
                    varint(self@.candidate().0),
                )
            },
    {
        if self.file_len >= self.page_size as u64 && self.next_page_id.0 == 1
            && !self.recovery_applied {
            let mut message = "data file is ".to_owned();
            push_decimal(&mut message, self.file_len);
            message.append(
                " bytes but next_page_id is still PageId(1); replay all existing WAL records before alloc_page()",
            );
            return Err(StorageError::RecoveryRequired(message));
        }
        let page_id = if self.freelist.len() > 0 {
            self.freelist[self.freelist.len() - 1]
        } else {
            self.next_page_id
        };
        let grow_to = match self.file_len_for(page_id) {
            Some(len) => if len > self.file_len {
                Some(len)
            } else {
                None
            },
            None => {
                return Err(Self::out_of_range(page_id));
            },
        };
        proof {
            growth_is_enough(self@.file_len, page_id, self@.page_size);
        }
        let record = WalRecord::page_alloc(page_id)?;
        Ok(AllocPlan { page_id, grow_to, record })
    }

    /// Takes note that the next page is allocated: the data file holds it, and the
    /// allocation is logged.
    pub fn alloc_logged(&mut self) -> (page_id: PageId)
        requires
            old(self)@.fits(old(self)@.candidate()),
        ensures
            page_id == old(self)@.candidate(),
            final(self)@ == old(self)@.allocated(),
    {
        let ghost before = self@;
        let page_id = match self.freelist.pop() {
            Some(page_id) => page_id,
            None => self.next_page_id,
        };
        assert(before.freelist.len() > 0 ==> self.freelist@ =~= before.freelist.drop_last());
        if let Some(len) = self.file_len_for(page_id) {
            self.file_len = len;
        }
        if page_id == self.next_page_id {
            self.next_page_id = PageId(self.next_page_id.0 + 1);
        }
        assert(self@ =~= before.allocated());
        page_id
    }

    /// What to log to free a page. Nothing changes yet.
    pub fn free_page(&self, page_id: PageId) -> (result: Result<WalRecord>)
        ensures
            result is Ok <==> self@.is_in_use(page_id),
            result matches Ok(record) ==> record@ == unplaced(
                WalRecordType::PageFree,
                0,
                varint(page_id.0),
            ),
            page_id.0 == 0 ==> refuses(result, "cannot free PageId::INVALID"@),
            page_id.0 > 0 && page_id.0 >= self@.next_page_id.0 ==> refuses(
                result,
                "cannot free page "@ + tagged("PageId"@, page_id.0 as nat)
                    + ": it was never allocated (next_page_id="@ + tagged(
                    "PageId"@,
                    self@.next_page_id.0 as nat,
                ) + ")"@,
            ),
            0 < page_id.0 < self@.next_page_id.0 && self@.freelist.contains(page_id) ==> refuses(
                result,
                "double-free: page "@ + tagged("PageId"@, page_id.0 as nat)
                    + " is already on the freelist"@,
            ),
    {
        if page_id == PageId::invalid() {
            return Err(StorageError::InvalidOperation("cannot free PageId::INVALID".to_owned()));
        }
        if page_id.0 >= self.next_page_id.0 {
            let mut message = "cannot free page ".to_owned();
            message.append(page_id.to_text().as_str());
            message.append(": it was never allocated (next_page_id=");
            message.append(self.next_page_id.to_text().as_str());
            message.append(")");
            return Err(StorageError::InvalidOperation(message));
        }
        if self.is_free(page_id) {
            let mut message = "double-free: page ".to_owned();
            message.append(page_id.to_text().as_str());
            message.append(" is already on the freelist");
            return Err(StorageError::InvalidOperation(message));
        }
        WalRecord::page_free(page_id)
    }

    /// Takes note that a page is freed and that this is logged.
    pub fn free_logged(&mut self, page_id: PageId)
        requires
            old(self)@.is_in_use(page_id),
        ensures
            final(self)@ == old(self)@.freed(page_id),
    {
        self.freelist.push(page_id);
    }

    fn is_free(&self, page_id: PageId) -> (yes: bool)
        ensures
            yes <==> self@.freelist.contains(page_id),
    {
        let mut i: usize = 0;
        while i < self.freelist.len()
            invariant
                i <= self.freelist.len(),
                forall|k: int| 0 <= k < i ==> self.freelist@[k] != page_id,
            decreases self.freelist.len() - i,
        {
            if self.freelist[i] == page_id {
                assert(self@.freelist[i as int] == page_id);
                return true;
            }
            i += 1;
        }
        false
    }

    /// Takes note that the log was replayed.
    pub fn mark_recovery_complete(&mut self)
        ensures
            final(self)@ == (AllocatorView { recovered: true, ..old(self)@ }),
    {
        self.recovery_applied = true;
    }

    /// The first page that was never handed out.
    pub fn next_page_id(&self) -> (page_id: PageId)
        ensures
            page_id == self@.next_page_id,
    {
        self.next_page_id
    }

    /// The length of the data file.
    pub fn file_len(&self) -> (len: u64)
        ensures
            len == self@.file_len,
    {
        self.file_len
    }

    /// The freelist as a checkpoint at `checkpoint_lsn` keeps it.
    pub fn snapshot(&self, checkpoint_lsn: Lsn) -> (meta: FreelistMeta)
        ensures
            meta.checkpoint_lsn == checkpoint_lsn,
            meta.page_ids@ == self@.freelist,
    {
        FreelistMeta { checkpoint_lsn, page_ids: Self::copied(&self.freelist) }
    }

    fn copied(pages: &Vec<PageId>) -> (copy: Vec<PageId>)
        ensures
            copy@ == pages@,
    {
        let mut copy: Vec<PageId> = Vec::new();
        let mut i: usize = 0;
        while i < pages.len()
            invariant
                i <= pages.len(),
                copy@ == pages@.take(i as int),
            decreases pages.len() - i,
        {
            copy.push(pages[i]);
            i += 1;
            assert(copy@ =~= pages@.take(i as int));
        }
        assert(pages@.take(i as int) =~= pages@);
        copy
    }

    /// Replays a logged allocation. The result is the length that the data file has
    /// to be given, if it is too short.
    pub fn apply_page_alloc(&mut self, page_id: PageId) -> (result: Result<Option<u64>>)
        ensures
            result is Ok <==> old(self)@.fits(page_id),
            result matches Ok(grow_to) ==> {
                &&& final(self)@ == old(self)@.replayed_alloc(page_id)
                &&& grow_to == if final(self)@.file_len > old(self)@.file_len {
                    Some(final(self)@.file_len as u64)
                } else {
                    None
                }
            },
            result is Err ==> *final(self) == *old(self) && refuses(
                result,
                out_of_range_text(page_id),
            ),
    {
        let ghost before = self@;
        let len: u64 = match self.file_len_for(page_id) {
            Some(len) => len,
            None => {
                return Err(Self::out_of_range(page_id));
            },
        };
        proof {
            growth_is_enough(before.file_len, page_id, before.page_size);
        }
        let grow_to = if len > self.file_len {
            Some(len)
        } else {
            None
        };
        if page_id.0 >= self.next_page_id.0 {
            self.next_page_id = PageId(page_id.0 + 1);
        }
        self.freelist = Self::all_but(&self.freelist, page_id);
        self.file_len = len;
        self.recovery_applied = true;
        assert(self@ =~= before.replayed_alloc(page_id));
        Ok(grow_to)
    }

    fn all_but(pages: &Vec<PageId>, page_id: PageId) -> (kept: Vec<PageId>)
        ensures
            kept@ == without_page(pages@, page_id),
    {
        let mut kept: Vec<PageId> = Vec::new();
        let mut i: usize = 0;
        while i < pages.len()
            invariant
                i <= pages.len(),
                kept@ == without_page(pages@.take(i as int), page_id),
            decreases pages.len() - i,
        {
            assert(pages@.take(i + 1).drop_last() =~= pages@.take(i as int));
            assert(pages@.take(i + 1).last() == pages@[i as int]);
            if pages[i] != page_id {
                kept.push(pages[i]);
            }
            i += 1;
        }
        assert(pages@.take(i as int) =~= pages@);
        kept
    }

    /// Replays a logged release.
    pub fn apply_page_free(&mut self, page_id: PageId)
        ensures
            final(self)@ == old(self)@.replayed_free(page_id),
    {
        if self.is_free(page_id) {
            return;
        }
        self.freelist.push(page_id);
        self.recovery_applied = true;
    }

    /// Starts from the freelist that a checkpoint kept.
    pub fn seed_freelist(&mut self, page_ids: &Vec<PageId>)
        ensures
            final(self)@ == (AllocatorView { freelist: page_ids@, ..old(self)@ }),
    {
        self.freelist = Self::copied(page_ids);
    }

    /// The freelist; the last page is handed out first.
    pub fn freelist(&self) -> (pages: &Vec<PageId>)
        ensures
            pages@ == self@.freelist,
    {
        &self.freelist
    }

    /// Replays a record: an allocation or a release; all others are ignored. The
    /// data file has to be given the length [`PageAllocator::file_len`] afterwards.
    pub fn replay_record(&mut self, record: &WalRecord) -> (result: Result<()>)
        ensures
            result is Ok <==> replayed(old(self)@, record@) is Some,
            result is Ok ==> final(self)@ == replayed(old(self)@, record@)->0,
            result is Err ==> *final(self) == *old(self),
            result is Err ==> replay_refused(record@, result),
    {
        match record.record_type {
            WalRecordType::PageAlloc => match PageAllocRecord::decode(record.payload.as_slice()) {
                Ok(rec) => match self.apply_page_alloc(rec.page_id) {
                    Ok(_) => Ok(()),
                    Err(e) => Err(e),
                },
                Err(e) => Err(e),
            },
            WalRecordType::PageFree => match PageFreeRecord::decode(record.payload.as_slice()) {
                Ok(rec) => {
                    self.apply_page_free(rec.page_id);
                    Ok(())
                },
                Err(e) => Err(e),
            },
            _ => Ok(()),
        }
    }
}

/// What is refused gives no result: a record that cannot be replayed is out of range if it can
/// be read, and else cannot be decoded.
pub proof fn refusal_is_an_error<T>(
    result: Result<T>,
    text: Seq<char>,
    record: RecordView,
    replay: Result<()>,
)
    ensures
        refuses(result, text) ==> (result matches Err(StorageError::InvalidOperation(message))
            && message@ == text),
        replay_refused(record, replay) ==> replay is Err,
        replay_refused(record, replay) && take_varint(record.payload) is Some ==> replay->Err_0
            is InvalidOperation,
        replay_refused(record, replay) && take_varint(record.payload) is None
            ==> is_serialize_error(replay),
{
}

} // verus!
