//! Checkpoints.
//!
//! A checkpoint writes the dirty pages to the data file while others go on working.
//! Recovery then replays the log only from where the checkpoint began. Its steps, in
//! this order:
//!
//! 1. reserve the LSN of the `CheckpointBegin` record, tell it to the buffer pool, so
//!    that pages changed from then on are logged as a whole first, and take a snapshot
//!    of the freelist: all at once, so that a page freed meanwhile is either in the
//!    snapshot or in the log behind that LSN, never both;
//! 2. log `CheckpointBegin`;
//! 3. find out which pages are dirty, and flush them;
//! 4. flush the commit log;
//! 5. write the snapshot files of the active transactions and the dirty pages;
//! 6. log `CheckpointEnd` and make it durable;
//! 7. write the freelist snapshot, which recovery can do without;
//! 8. update the superblock: only here does the checkpoint count;
//! 9. recycle the segments of the log that recovery no longer needs.
//!
//! [`CheckpointRun`] says which step is next; its caller does the I/O and reports how
//! it went.

use vstd::prelude::*;
use vstd::string::*;
use vstd::utf8::*;

use crate::buffer_pool::{BufferPool, PoolView};
use crate::config::StorageConfig;
use crate::error::{Result, StorageError};
use crate::freelist_meta::FreelistMeta;
use crate::oid::OidCounter;
use crate::page_allocator::PageAllocator;
use crate::recovery::{holds_table, unrecorded, ActiveXactTable};
use crate::superblock::Superblock;
use crate::text::{decimal, decimal_is_short, power_of_ten, push_decimal, tagged};
use crate::txn_id::TxnIdClock;
use crate::types::{Lsn, Oid, PageId, TxnId};
use crate::wal::image::SegmentOp;
use crate::wal::record::{
    checkpoint_end_v1_reads_back, regrouped, unplaced, CheckpointEndRecord, WalRecord,
    WalRecordType, CHECKPOINT_END_V2_FLAGS, WAL_RECORD_HEADER_SIZE,
};
use crate::wal::writer::{appended, write_failed, Append, WalWriter, WriterView};
use crate::wire::{
    blob, take_six, text_is_short, text_reads_back, varint, varint_is_short, varint_reads_back,
};

verus! {

/// The step that a checkpoint is at.
#[derive(Debug, Clone, Copy, PartialEq, Eq, Structural)]
pub enum Phase {
    /// Log `CheckpointBegin`.
    Begin,
    /// Take note of the dirty pages.
    Collect,
    /// Flush the dirty page with this number.
    Flush(usize),
    /// Flush the commit log.
    Clog,
    /// Write the snapshot files.
    Snapshots,
    /// Log `CheckpointEnd`.
    End,
    /// Make the log durable.
    Sync,
    /// Write the freelist snapshot.
    Freelist,
    /// Update the superblock.
    Superblock,
    /// Recycle segments of the log.
    Recycle,
    /// Nothing is left to do.
    Finished,
    /// A step failed.
    Failed,
}

/// The next thing to do for a checkpoint.
#[derive(Debug, Clone, Copy, PartialEq, Eq, Structural)]
pub enum CheckpointAction {
    /// Log what [`CheckpointRun::log_begin`] gives.
    LogBegin,
    /// Call [`CheckpointRun::collect_pages`].
    CollectPages,
    /// Flush this page, if it is still in the pool.
    FlushPage(PageId),
    /// Flush the commit log.
    FlushClog,
    /// Write what [`CheckpointRun::snapshot_tables`] gives into the files that
    /// [`CheckpointRun::snapshot_files`] names.
    WriteSnapshots,
    /// Log what [`CheckpointRun::log_end`] gives.
    LogEnd,
    /// Flush the log up to this record.
    SyncWal(Lsn),
    /// Write the freelist snapshot.
    WriteFreelist,
    /// Write what [`CheckpointRun::superblock`] gives.
    WriteSuperblock,
    /// Delete the segments of the log before this LSN.
    RecycleWal(Lsn),
    /// The checkpoint that began at this LSN is complete.
    Finish(Lsn),
    /// The checkpoint has failed.
    GiveUp,
}

/// How a step went.
#[derive(Debug)]
pub enum StepOutcome {
    /// Well.
    Done,
    /// Badly: the error, and how it reads.
    Failed(StorageError, String),
}

/// What a checkpoint records of the counters.
#[derive(Debug, Clone, Copy, PartialEq, Eq, Structural)]
pub struct EndValues {
    /// The next page ID.
    pub next_page_id: PageId,
    /// The next transaction ID.
    pub next_txn_id: TxnId,
    /// The next OID.
    pub next_oid: Oid,
    /// The LSN of the `CheckpointEnd` record.
    pub end_lsn: Lsn,
}

/// The state of a checkpoint.
#[verifier::ext_equal]
pub struct RunView {
    /// The LSN of the `CheckpointBegin` record.
    pub begin_lsn: Lsn,
    /// The pages that were dirty when its first record was logged.
    pub pages: Option<Seq<PageId>>,
    /// The freelist when it began.
    pub freelist: Seq<PageId>,
    /// The step it is at.
    pub phase: Phase,
    /// What was logged at its end.
    pub end: Option<EndValues>,
}

/// A step that is allowed to fail: the page was evicted, and thereby flushed, or the
/// freelist snapshot is missing, which recovery can do without.
pub open spec fn is_harmless(phase: Phase, error: StorageError) -> bool {
    match phase {
        Phase::Flush(_) => error is PageNotFound,
        Phase::Freelist => true,
        _ => false,
    }
}

impl RunView {
    /// Where page `i` is to be flushed next, or the commit log if there is none.
    pub open spec fn flush_phase(self, i: int) -> Phase {
        if i < (self.pages->0).len() {
            Phase::Flush(i as usize)
        } else {
            Phase::Clog
        }
    }

    /// The step after the present one went well.
    pub open spec fn successor(self) -> Phase {
        match self.phase {
            Phase::Begin => Phase::Collect,
            Phase::Collect => if self.pages is Some {
                self.flush_phase(0)
            } else {
                Phase::Failed
            },
            Phase::Flush(i) => self.flush_phase(i + 1),
            Phase::Clog => Phase::Snapshots,
            Phase::Snapshots => Phase::End,
            Phase::End => if self.end is Some {
                Phase::Sync
            } else {
                Phase::Failed
            },
            Phase::Sync => Phase::Freelist,
            Phase::Freelist => Phase::Superblock,
            Phase::Superblock => Phase::Recycle,
            Phase::Recycle => Phase::Finished,
            Phase::Finished => Phase::Finished,
            Phase::Failed => Phase::Failed,
        }
    }

    /// The step after the present one went like `outcome`.
    pub open spec fn next_phase(self, outcome: StepOutcome) -> Phase {
        match outcome {
            StepOutcome::Done => self.successor(),
            StepOutcome::Failed(error, _) => if is_harmless(self.phase, error) {
                self.successor()
            } else {
                Phase::Failed
            },
        }
    }

    /// What the checkpoint does at its present step.
    pub open spec fn action(self) -> CheckpointAction {
        match self.phase {
            Phase::Begin => CheckpointAction::LogBegin,
            Phase::Collect => CheckpointAction::CollectPages,
            Phase::Flush(i) => CheckpointAction::FlushPage((self.pages->0)[i as int]),
            Phase::Clog => CheckpointAction::FlushClog,
            Phase::Snapshots => CheckpointAction::WriteSnapshots,
            Phase::End => CheckpointAction::LogEnd,
            Phase::Sync => CheckpointAction::SyncWal((self.end->0).end_lsn),
            Phase::Freelist => CheckpointAction::WriteFreelist,
            Phase::Superblock => CheckpointAction::WriteSuperblock,
            Phase::Recycle => CheckpointAction::RecycleWal(self.begin_lsn),
            Phase::Finished => CheckpointAction::Finish(self.begin_lsn),
            Phase::Failed => CheckpointAction::GiveUp,
        }
    }

    /// The superblock that the checkpoint leaves in place of `current`.
    pub open spec fn updated(self, current: Superblock) -> Superblock {
        Superblock {
            checkpoint_lsn: self.begin_lsn,
            next_page_id: (self.end->0).next_page_id,
            next_txn_id: (self.end->0).next_txn_id,
            next_oid: (self.end->0).next_oid,
            ..current
        }
    }

    /// The page to flush is one of them, and what comes after the end of the
    /// checkpoint was logged knows what was logged.
    pub open spec fn wf(self) -> bool {
        &&& self.phase matches Phase::Flush(i) ==> self.pages is Some && i < (
        self.pages->0).len()
        &&& self.pages matches Some(pages) ==> pages.len() <= usize::MAX
        &&& (self.phase is Sync || self.phase is Freelist || self.phase is Superblock
            || self.phase is Recycle || self.phase is Finished) ==> self.end is Some
    }
}

/// The step at which a checkpoint with the dirty pages `pages` is after `outcomes`, if
/// `collect_pages` and `log_end` were called when they were due.
pub open spec fn phase_after(
    start: RunView,
    pages: Seq<PageId>,
    outcomes: Seq<StepOutcome>,
) -> Phase
    decreases outcomes.len(),
{
    if outcomes.len() == 0 {
        start.phase
    } else {
        let before = phase_after(start, pages, outcomes.drop_last());
        (RunView {
            phase: before,
            pages: Some(pages),
            end: Some(
                EndValues {
                    next_page_id: PageId(0),
                    next_txn_id: TxnId(0),
                    next_oid: Oid(0),
                    end_lsn: Lsn(0),
                },
            ),
            ..start
        }).next_phase(outcomes.last())
    }
}

/// How many steps come before a phase, with `pages` dirty pages.
pub open spec fn steps_before(phase: Phase, pages: int) -> int {
    match phase {
        Phase::Begin => 0,
        Phase::Collect => 1,
        Phase::Flush(i) => 2 + i,
        Phase::Clog => 2 + pages,
        Phase::Snapshots => 3 + pages,
        Phase::End => 4 + pages,
        Phase::Sync => 5 + pages,
        Phase::Freelist => 6 + pages,
        Phase::Superblock => 7 + pages,
        Phase::Recycle => 8 + pages,
        Phase::Finished => 9 + pages,
        Phase::Failed => -1,
    }
}

/// The superblock is updated only after everything before it went well: the
/// `CheckpointBegin` record, every dirty page (unless it was evicted meanwhile), the
/// commit log, the snapshot files, the `CheckpointEnd` record and its flush.
pub proof fn superblock_comes_last(
    start: RunView,
    pages: Seq<PageId>,
    outcomes: Seq<StepOutcome>,
)
    requires
        start.phase is Begin,
        pages.len() <= usize::MAX,
        phase_after(start, pages, outcomes) is Superblock,
    ensures
        outcomes.len() == pages.len() + 7,
        forall|k: int|
            0 <= k < pages.len() + 6 ==> ((#[trigger] outcomes[k]) is Done || (2 <= k
                <= pages.len() + 1 && outcomes[k]->Failed_0 is PageNotFound)),
{
    steps_go_well(start, pages, outcomes);
}

proof fn steps_go_well(start: RunView, pages: Seq<PageId>, outcomes: Seq<StepOutcome>)
    requires
        start.phase is Begin,
        pages.len() <= usize::MAX,
        !(phase_after(start, pages, outcomes) is Failed),
        !(phase_after(start, pages, outcomes) is Finished),
    ensures
        outcomes.len() == steps_before(phase_after(start, pages, outcomes), pages.len() as int),
        phase_after(start, pages, outcomes) matches Phase::Flush(i) ==> i < pages.len(),
        forall|k: int|
            0 <= k < outcomes.len() && k != pages.len() + 6 ==> ((
            #[trigger] outcomes[k]) is Done || (2 <= k <= pages.len() + 1
                && outcomes[k]->Failed_0 is PageNotFound)),
    decreases outcomes.len(),
{
    if outcomes.len() > 0 {
        let front = outcomes.drop_last();
        steps_go_well(start, pages, front);
        assert forall|k: int|
            0 <= k < outcomes.len() && k != pages.len() + 6 implies ((
        #[trigger] outcomes[k]) is Done || (2 <= k <= pages.len() + 1
            && outcomes[k]->Failed_0 is PageNotFound)) by {
            if k < front.len() {
                assert(front[k] == outcomes[k]);
            }
        }
    }
}

proof fn phase_is_at(start: RunView, pages: Seq<PageId>, outcomes: Seq<StepOutcome>, k: int)
    requires
        start.phase is Begin,
        pages.len() <= usize::MAX,
        0 <= k <= outcomes.len(),
        !(phase_after(start, pages, outcomes) is Failed),
    ensures
        !(phase_after(start, pages, outcomes.take(k)) is Failed),
    decreases outcomes.len(),
{
    if k < outcomes.len() {
        phase_is_at(start, pages, outcomes.drop_last(), k);
        assert(outcomes.drop_last().take(k) =~= outcomes.take(k));
    } else {
        assert(outcomes.take(k) =~= outcomes);
    }
}

/// What a checkpoint does, in this order, before it updates the superblock: it logs its
/// beginning, takes note of the dirty pages, flushes every one of them, flushes the commit
/// log, writes the snapshot files, logs its end, makes the log durable up to that record, and
/// writes the freelist. `run` is the checkpoint after the first `k` steps.
pub proof fn every_step_is_done_in_order(
    start: RunView,
    pages: Seq<PageId>,
    end: EndValues,
    outcomes: Seq<StepOutcome>,
    k: int,
    run: RunView,
)
    requires
        start.phase is Begin,
        pages.len() <= usize::MAX,
        phase_after(start, pages, outcomes) is Superblock,
        0 <= k <= outcomes.len(),
        run == (RunView {
            phase: phase_after(start, pages, outcomes.take(k)),
            pages: Some(pages),
            end: Some(end),
            ..start
        }),
    ensures
        ({
            let n = pages.len() as int;
            let action = run.action();
            &&& outcomes.len() == n + 7
            &&& k == 0 ==> action == CheckpointAction::LogBegin
            &&& k == 1 ==> action == CheckpointAction::CollectPages
            &&& 2 <= k < n + 2 ==> action == CheckpointAction::FlushPage(pages[k - 2])
            &&& k == n + 2 ==> action == CheckpointAction::FlushClog
            &&& k == n + 3 ==> action == CheckpointAction::WriteSnapshots
            &&& k == n + 4 ==> action == CheckpointAction::LogEnd
            &&& k == n + 5 ==> action == CheckpointAction::SyncWal(end.end_lsn)
            &&& k == n + 6 ==> action == CheckpointAction::WriteFreelist
            &&& k == n + 7 ==> action == CheckpointAction::WriteSuperblock
        }),
{
    superblock_comes_last(start, pages, outcomes);
    phase_is_at(start, pages, outcomes, k);
    let done = outcomes.take(k);
    not_finished_before(start, pages, outcomes, k);
    steps_go_well(start, pages, done);
}

proof fn not_finished_before(
    start: RunView,
    pages: Seq<PageId>,
    outcomes: Seq<StepOutcome>,
    k: int,
)
    requires
        start.phase is Begin,
        0 <= k <= outcomes.len(),
        !(phase_after(start, pages, outcomes) is Finished),
        !(phase_after(start, pages, outcomes) is Failed),
    ensures
        !(phase_after(start, pages, outcomes.take(k)) is Finished),
    decreases outcomes.len(),
{
    if k < outcomes.len() {
        assert(outcomes.drop_last().take(k) =~= outcomes.take(k));
        let before = phase_after(start, pages, outcomes.drop_last());
        if before is Finished {
            assert(phase_after(start, pages, outcomes) is Finished || phase_after(
                start,
                pages,
                outcomes,
            ) is Failed);
        }
        not_finished_before(start, pages, outcomes.drop_last(), k);
    } else {
        assert(outcomes.take(k) =~= outcomes);
    }
}

/// A checkpoint of which every step goes well comes to its end: after one step for each
/// dirty page and nine others it is finished.
pub proof fn checkpoint_comes_to_its_end(
    start: RunView,
    pages: Seq<PageId>,
    outcomes: Seq<StepOutcome>,
)
    requires
        start.phase is Begin,
        pages.len() <= usize::MAX,
        outcomes.len() <= pages.len() + 9,
        forall|k: int| 0 <= k < outcomes.len() ==> (#[trigger] outcomes[k]) is Done,
    ensures
        outcomes.len() == steps_before(phase_after(start, pages, outcomes), pages.len() as int),
        outcomes.len() == pages.len() + 9 ==> phase_after(start, pages, outcomes) is Finished,
        phase_after(start, pages, outcomes) matches Phase::Flush(i) ==> i < pages.len(),
    decreases outcomes.len(),
{
    if outcomes.len() > 0 {
        let front = outcomes.drop_last();
        assert forall|k: int| 0 <= k < front.len() implies (#[trigger] front[k]) is Done by {
            assert(front[k] == outcomes[k]);
        }
        checkpoint_comes_to_its_end(start, pages, front);
        assert(outcomes[outcomes.len() - 1] is Done);
    }
}

/// A failed step ends the checkpoint before the superblock is updated, unless the page was no
/// longer in the pool, or the freelist could not be written; a checkpoint that has failed
/// stays so and does nothing more.
pub proof fn failure_ends_the_checkpoint(
    run: RunView,
    error: StorageError,
    text: String,
    outcome: StepOutcome,
)
    ensures
        ({
            let next = run.next_phase(StepOutcome::Failed(error, text));
            &&& !(run.phase is Flush) && !(run.phase is Freelist) ==> next is Failed
            &&& run.phase is Flush && !(error is PageNotFound) ==> next is Failed
            &&& run.phase is Flush && error is PageNotFound ==> next == run.next_phase(
                StepOutcome::Done,
            )
            &&& run.phase is Freelist ==> next is Superblock
        }),
        run.phase is Failed ==> run.next_phase(outcome) is Failed && run.action() is GiveUp,
{
}

/// What the superblock says after a checkpoint: where the checkpoint began, and what the
/// counters were at when its end was logged; the rest is as it was. The log is recycled up
/// to where the checkpoint began, and no further.
pub proof fn superblock_tells_of_the_checkpoint(run: RunView, current: Superblock)
    requires
        run.end is Some,
    ensures
        ({
            let sb = run.updated(current);
            let end = run.end->0;
            &&& sb.checkpoint_lsn == run.begin_lsn
            &&& sb.next_page_id == end.next_page_id
            &&& sb.next_txn_id == end.next_txn_id
            &&& sb.next_oid == end.next_oid
            &&& sb.version == current.version
            &&& sb.page_size == current.page_size
            &&& sb.created_at == current.created_at
        }),
        run.phase is Recycle ==> run.action() == CheckpointAction::RecycleWal(run.begin_lsn),
        run.phase is Finished ==> run.action() == CheckpointAction::Finish(run.begin_lsn),
{
}

/// A checkpoint under way.
#[derive(Debug)]
pub struct CheckpointRun {
    begin_lsn: Lsn,
    pages: Option<Vec<PageId>>,
    freelist: FreelistMeta,
    phase: Phase,
    end: Option<EndValues>,
}

impl View for CheckpointRun {
    type V = RunView;

    closed spec fn view(&self) -> RunView {
        RunView {
            begin_lsn: self.begin_lsn,
            pages: match self.pages {
                Some(pages) => Some(pages@),
                None => None,
            },
            freelist: self.freelist.page_ids@,
            phase: self.phase,
            end: self.end,
        }
    }
}

/// The name of a snapshot file inside the data directory.
pub open spec fn snapshot_name(kind: Seq<char>, begin_lsn: Lsn) -> Seq<char> {
    "meta/"@ + kind + "-"@ + decimal(begin_lsn.0 as nat) + ".snap"@
}

fn snapshot_text(kind: &str, begin_lsn: Lsn) -> (name: String)
    ensures
        name@ == snapshot_name(kind@, begin_lsn),
{
    let mut name = "meta/".to_owned();
    name.append(kind);
    name.append("-");
    push_decimal(&mut name, begin_lsn.0);
    name.append(".snap");
    name
}

/// The names of the snapshot files of the checkpoint that began at `begin_lsn`, inside the
/// data directory: of the active transactions and of the dirty pages.
pub fn snapshot_file_names(begin_lsn: Lsn) -> (names: (String, String))
    ensures
        names.0@ == snapshot_name("att"@, begin_lsn),
        names.1@ == snapshot_name("dpt"@, begin_lsn),
{
    (snapshot_text("att", begin_lsn), snapshot_text("dpt", begin_lsn))
}

/// The payload of the `CheckpointEnd` record.
pub open spec fn end_payload(
    begin_lsn: Lsn,
    next_page_id: PageId,
    next_txn_id: TxnId,
    next_oid: Oid,
) -> Seq<u8> {
    varint(begin_lsn.0) + varint(next_page_id.0) + varint(next_txn_id.0) + varint(next_oid.0)
        + blob(encode_utf8(snapshot_name("att"@, begin_lsn))) + blob(
        encode_utf8(snapshot_name("dpt"@, begin_lsn)),
    )
}

/// The `CheckpointEnd` record is short.
proof fn end_payload_is_short(
    begin_lsn: Lsn,
    next_page_id: PageId,
    next_txn_id: TxnId,
    next_oid: Oid,
)
    ensures
        end_payload(begin_lsn, next_page_id, next_txn_id, next_oid).len() <= 512,
{
    reveal_strlit("meta/");
    reveal_strlit("att");
    reveal_strlit("dpt");
    reveal_strlit("-");
    reveal_strlit(".snap");
    assert(u64::MAX < power_of_ten(20)) by {
        reveal_with_fuel(power_of_ten, 21);
    }
    decimal_is_short(begin_lsn.0 as nat, 20);
    varint_is_short(begin_lsn.0);
    varint_is_short(next_page_id.0);
    varint_is_short(next_txn_id.0);
    varint_is_short(next_oid.0);
    let att = snapshot_name("att"@, begin_lsn);
    let dpt = snapshot_name("dpt"@, begin_lsn);
    text_is_short(att);
    text_is_short(dpt);
    varint_is_short(encode_utf8(att).len() as u64);
    varint_is_short(encode_utf8(dpt).len() as u64);
}

/// The `CheckpointEnd` record tells where the checkpoint began, what the counters were at,
/// and the names of the snapshot files, and reads back.
pub proof fn checkpoint_end_reads_back(
    begin_lsn: Lsn,
    next_page_id: PageId,
    next_txn_id: TxnId,
    next_oid: Oid,
)
    ensures
        take_six(end_payload(begin_lsn, next_page_id, next_txn_id, next_oid)) == Some(
            (
                begin_lsn.0,
                next_page_id.0,
                next_txn_id.0,
                next_oid.0,
                "meta/att-"@ + decimal(begin_lsn.0 as nat) + ".snap"@,
                "meta/dpt-"@ + decimal(begin_lsn.0 as nat) + ".snap"@,
            ),
        ),
{
    let att = snapshot_name("att"@, begin_lsn);
    let dpt = snapshot_name("dpt"@, begin_lsn);
    end_payload_is_short(begin_lsn, next_page_id, next_txn_id, next_oid);
    text_is_short(att);
    text_is_short(dpt);
    let a = varint(begin_lsn.0);
    let b = varint(next_page_id.0);
    let c = varint(next_txn_id.0);
    let d = varint(next_oid.0);
    let e = blob(encode_utf8(att));
    let f = blob(encode_utf8(dpt));
    regrouped(a, b, c, d, e, f);
    checkpoint_end_v1_reads_back(begin_lsn.0, next_page_id.0, next_txn_id.0, d + (e + f));
    varint_reads_back(next_oid.0, e + f);
    text_reads_back(att, f);
    text_reads_back(dpt, Seq::empty());
    assert(f + Seq::<u8>::empty() =~= f);
    reveal_strlit("meta/");
    reveal_strlit("att");
    reveal_strlit("dpt");
    reveal_strlit("-");
    reveal_strlit("meta/att-");
    reveal_strlit("meta/dpt-");
    assert("meta/"@ + "att"@ + "-"@ =~= "meta/att-"@);
    assert("meta/"@ + "dpt"@ + "-"@ =~= "meta/dpt-"@);
}

impl CheckpointRun {
    /// The state is in order.
    pub closed spec fn wf(&self) -> bool {
        self@.wf() && self.freelist.checkpoint_lsn == self.begin_lsn
    }

    /// What to do next.
    pub fn action(&self) -> (action: CheckpointAction)
        requires
            self.wf(),
        ensures
            action == self@.action(),
    {
        match self.phase {
            Phase::Begin => CheckpointAction::LogBegin,
            Phase::Collect => CheckpointAction::CollectPages,
            Phase::Flush(i) => match &self.pages {
                Some(pages) => CheckpointAction::FlushPage(pages[i]),
                None => CheckpointAction::GiveUp,
            },
            Phase::Clog => CheckpointAction::FlushClog,
            Phase::Snapshots => CheckpointAction::WriteSnapshots,
            Phase::End => CheckpointAction::LogEnd,
            Phase::Sync => match self.end {
                Some(end) => CheckpointAction::SyncWal(end.end_lsn),
                None => CheckpointAction::GiveUp,
            },
            Phase::Freelist => CheckpointAction::WriteFreelist,
            Phase::Superblock => CheckpointAction::WriteSuperblock,
            Phase::Recycle => CheckpointAction::RecycleWal(self.begin_lsn),
            Phase::Finished => CheckpointAction::Finish(self.begin_lsn),
            Phase::Failed => CheckpointAction::GiveUp,
        }
    }

    /// The step that the checkpoint is at.
    pub fn phase(&self) -> (phase: Phase)
        ensures
            phase == self@.phase,
    {
        self.phase
    }

    fn flush_phase(pages: &Vec<PageId>, i: usize) -> (phase: Phase)
        ensures
            phase == if i < pages@.len() {
                Phase::Flush(i)
            } else {
                Phase::Clog
            },
    {
        if i < pages.len() {
            Phase::Flush(i)
        } else {
            Phase::Clog
        }
    }

    fn successor(&self) -> (phase: Phase)
        requires
            self.wf(),
        ensures
            phase == self@.successor(),
    {
        match self.phase {
            Phase::Begin => Phase::Collect,
            Phase::Collect => match &self.pages {
                Some(pages) => Self::flush_phase(pages, 0),
                None => Phase::Failed,
            },
            Phase::Flush(i) => match &self.pages {
                Some(pages) => Self::flush_phase(pages, i + 1),
                None => Phase::Failed,
            },
            Phase::Clog => Phase::Snapshots,
            Phase::Snapshots => Phase::End,
            Phase::End => if self.end.is_some() {
                Phase::Sync
            } else {
                Phase::Failed
            },
            Phase::Sync => Phase::Freelist,
            Phase::Freelist => Phase::Superblock,
            Phase::Superblock => Phase::Recycle,
            Phase::Recycle => Phase::Finished,
            Phase::Finished => Phase::Finished,
            Phase::Failed => Phase::Failed,
        }
    }

    /// Takes note of how the present step went, and goes on to the next one.
    ///
    /// A page that is no longer in the pool was flushed when it was evicted, and the
    /// freelist snapshot can be done without. Any other failure is the end of the
    /// checkpoint, and returned: as `CheckpointFailed` where a page could not be
    /// flushed.
    pub fn report(&mut self, outcome: StepOutcome) -> (result: Result<()>)
        requires
            old(self).wf(),
        ensures
            final(self).wf(),
            final(self)@ == (RunView { phase: old(self)@.next_phase(outcome), ..old(self)@ }),
            match outcome {
                StepOutcome::Done => result is Ok,
                StepOutcome::Failed(error, text) => if is_harmless(old(self)@.phase, error) {
                    result is Ok
                } else {
                    match old(self)@.phase {
                        Phase::Flush(i) => result matches Err(
                            StorageError::CheckpointFailed(message),
                        ) && message@ == "failed to flush page "@ + tagged(
                            "PageId"@,
                            (old(self)@.pages->0)[i as int].0 as nat,
                        ) + " during checkpoint: "@ + text@,
                        _ => result == Err::<(), StorageError>(error),
                    }
                },
            },
    {
        match outcome {
            StepOutcome::Done => {
                self.phase = self.successor();
                Ok(())
            },
            StepOutcome::Failed(error, text) => match (self.phase, error) {
                (Phase::Flush(_), StorageError::PageNotFound(_)) => {
                    self.phase = self.successor();
                    Ok(())
                },
                (Phase::Freelist, _) => {
                    self.phase = self.successor();
                    Ok(())
                },
                (Phase::Flush(i), _) => {
                    let mut message = "failed to flush page ".to_owned();
                    if let Some(pages) = &self.pages {
                        message.append(pages[i].to_text().as_str());
                    }
                    message.append(" during checkpoint: ");
                    message.append(text.as_str());
                    self.phase = Phase::Failed;
                    Err(StorageError::CheckpointFailed(message))
                },
                (_, error) => {
                    self.phase = Phase::Failed;
                    Err(error)
                },
            },
        }
    }

    /// How to write the `CheckpointBegin` record into its reserved place.
    pub fn log_begin(&self, wal: &WalWriter) -> (result: Result<Vec<SegmentOp>>)
        requires
            wal.wf(),
            self@.begin_lsn.0 + 32 <= wal@.now.0,
        ensures
            match wal@.error {
                Some(text) => write_failed(result, text),
                None => wal@.lays_out(
                    unplaced(WalRecordType::CheckpointBegin, 0, Seq::empty()).at(self@.begin_lsn),
                    true,
                    result,
                ),
            },
    {
        wal.append_at(WalRecord::checkpoint_begin(), self.begin_lsn)
    }

    /// Takes note of the pages that are dirty now: those that the checkpoint flushes.
    pub fn collect_pages(&mut self, pool: &BufferPool)
        requires
            old(self).wf(),
            old(self)@.phase is Collect,
        ensures
            final(self).wf(),
            final(self)@ == (RunView {
                pages: Some(pool@.dirty_pages(pool@.frames.len())),
                ..old(self)@
            }),
    {
        let pages = pool.dirty_page_ids();
        assert(pages.len() <= usize::MAX);
        self.pages = Some(pages);
    }

    /// The names of the snapshot files of the active transactions and the dirty pages,
    /// inside the data directory.
    pub fn snapshot_files(&self) -> (names: (String, String))
        ensures
            names.0@ == snapshot_name("att"@, self@.begin_lsn),
            names.1@ == snapshot_name("dpt"@, self@.begin_lsn),
    {
        snapshot_file_names(self.begin_lsn)
    }

    /// The contents of the snapshot files: the transactions in progress, and the dirty
    /// pages.
    pub fn snapshot_tables(active: &Vec<TxnId>, pool: &BufferPool) -> (tables: (
        Vec<u8>,
        Vec<u8>,
    ))
        ensures
            holds_table(tables.0@, unrecorded(active@)),
            holds_table(tables.1@, pool@.dirty_table(pool@.frames.len())),
    {
        (ActiveXactTable::of_xids(active).encode(), pool.dirty_page_table().encode())
    }

    /// Appends the `CheckpointEnd` record, with what the counters are at now: the page
    /// allocator, the clock that gives out transaction IDs and the counter that gives
    /// out OIDs.
    pub fn log_end(
        &mut self,
        wal: &mut WalWriter,
        allocator: &PageAllocator,
        xids: &TxnIdClock,
        oids: &OidCounter,
    ) -> (result: Result<Append>)
        requires
            old(self).wf(),
            old(self)@.phase is End,
            old(wal).wf(),
            old(wal)@.now.0 + 1024 <= u64::MAX,
        ensures
            final(self).wf(),
            final(wal).wf(),
            result matches Ok(append) ==> final(self)@ == (RunView {
                end: Some(
                    EndValues {
                        next_page_id: allocator@.next_page_id,
                        next_txn_id: xids.now(),
                        next_oid: oids.now(),
                        end_lsn: append.lsn,
                    },
                ),
                ..old(self)@
            }),
            result is Err ==> *final(self) == *old(self),
            appended(
                old(wal)@,
                unplaced(
                    WalRecordType::CheckpointEnd,
                    CHECKPOINT_END_V2_FLAGS,
                    end_payload(
                        old(self)@.begin_lsn,
                        allocator@.next_page_id,
                        xids.now(),
                        oids.now(),
                    ),
                ),
                final(wal)@,
                result,
            ),
    {
        let next_page_id = allocator.next_page_id();
        let next_txn_id = xids.current();
        let next_oid = oids.current();
        let end = CheckpointEndRecord {
            checkpoint_lsn: self.begin_lsn,
            next_page_id,
            next_txn_id,
            next_oid: next_oid.0,
            att_file: snapshot_text("att", self.begin_lsn),
            dpt_file: snapshot_text("dpt", self.begin_lsn),
        };
        let record = WalRecord::checkpoint_end_v2(&end)?;
        proof {
            end_payload_is_short(self.begin_lsn, next_page_id, next_txn_id, next_oid);
            assert(record@.payload =~= end_payload(
                self.begin_lsn,
                next_page_id,
                next_txn_id,
                next_oid,
            ));
        }
        let append = wal.append(record)?;
        self.end = Some(EndValues { next_page_id, next_txn_id, next_oid, end_lsn: append.lsn });
        Ok(append)
    }

    /// The contents of the freelist snapshot file.
    pub fn freelist_bytes(&self) -> (bytes: Vec<u8>)
        requires
            self.wf(),
        ensures
            bytes@ == crate::freelist_meta::freelist_bytes(self@.begin_lsn, self@.freelist),
    {
        self.freelist.encode()
    }

    /// The superblock to write, once everything before it is done.
    pub fn superblock(&self, current: &Superblock) -> (updated: Option<Superblock>)
        requires
            self.wf(),
        ensures
            updated is Some <==> self@.phase is Superblock,
            updated matches Some(sb) ==> sb == self@.updated(*current),
    {
        match (self.phase, self.end) {
            (Phase::Superblock, Some(end)) => Some(
                Superblock {
                    checkpoint_lsn: self.begin_lsn,
                    next_page_id: end.next_page_id,
                    next_txn_id: end.next_txn_id,
                    next_oid: end.next_oid,
                    ..*current
                },
            ),
            _ => None,
        }
    }
}

/// The longest nap between two looks at whether to stop, in milliseconds.
pub const TICK_MS: u64 = 100;

/// What the background checkpointer does next.
#[derive(Debug, Clone, Copy, PartialEq, Eq, Structural)]
pub enum BackgroundStep {
    /// Stop.
    Stop,
    /// Sleep for this many milliseconds.
    Sleep(u64),
    /// Make a checkpoint. If it fails, that is logged, and the next one may succeed.
    Checkpoint,
}

/// The clock of the background checkpointer.
#[derive(Debug)]
pub struct BackgroundTimer {
    interval_ms: u64,
    elapsed_ms: u64,
}

impl BackgroundTimer {
    /// Milliseconds between two checkpoints.
    pub closed spec fn interval(&self) -> u64 {
        self.interval_ms
    }

    /// Milliseconds slept since the last checkpoint.
    pub closed spec fn elapsed(&self) -> u64 {
        self.elapsed_ms
    }

    /// No more was slept than the interval.
    pub open spec fn wf(&self) -> bool {
        self.elapsed() <= self.interval()
    }

    /// Looks whether to stop, then either sleeps on, in naps, or makes a checkpoint
    /// once the interval is over.
    pub fn tick(&mut self, shutdown: bool) -> (step: BackgroundStep)
        requires
            old(self).wf(),
        ensures
            final(self).wf(),
            final(self).interval() == old(self).interval(),
            step is Stop <==> shutdown,
            step is Checkpoint <==> !shutdown && old(self).elapsed() == old(self).interval(),
            step matches BackgroundStep::Sleep(ms) ==> ms > 0 && ms == if old(self).interval()
                - old(self).elapsed() < TICK_MS {
                (old(self).interval() - old(self).elapsed()) as u64
            } else {
                TICK_MS
            },
            final(self).elapsed() == match step {
                BackgroundStep::Stop => old(self).elapsed() as int,
                BackgroundStep::Sleep(ms) => old(self).elapsed() + ms,
                BackgroundStep::Checkpoint => 0,
            },
    {
        if shutdown {
            return BackgroundStep::Stop;
        }
        if self.elapsed_ms < self.interval_ms {
            let left: u64 = self.interval_ms - self.elapsed_ms;
            let ms: u64 = if left < TICK_MS {
                left
            } else {
                TICK_MS
            };
            self.elapsed_ms = self.elapsed_ms + ms;
            return BackgroundStep::Sleep(ms);
        }
        self.elapsed_ms = 0;
        BackgroundStep::Checkpoint
    }
}

/// The state of a coordinator.
pub struct CoordinatorView {
    /// Milliseconds between two automatic checkpoints; 0 for none.
    pub interval_ms: u64,
    /// The next OID.
    pub next_oid: Oid,
    /// The next transaction ID.
    pub next_txn_id: TxnId,
    /// Whether the background checkpointer runs.
    pub background: bool,
    /// Whether it is to stop.
    pub shutdown: bool,
}

/// Makes checkpoints, on demand and from time to time.
#[derive(Debug)]
pub struct CheckpointCoordinator {
    interval_ms: u64,
    next_oid_source: OidCounter,
    next_txn_id_source: TxnIdClock,
    background: bool,
    shutdown: bool,
}

impl View for CheckpointCoordinator {
    type V = CoordinatorView;

    closed spec fn view(&self) -> CoordinatorView {
        CoordinatorView {
            interval_ms: self.interval_ms,
            next_oid: self.next_oid_source.now(),
            next_txn_id: self.next_txn_id_source.now(),
            background: self.background,
            shutdown: self.shutdown,
        }
    }
}

impl CheckpointCoordinator {
    /// A coordinator whose counters start where the superblock has them, so that no
    /// checkpoint sets them back.
    pub fn new(config: &StorageConfig, superblock: &Superblock) -> (coordinator: Self)
        ensures
            coordinator@ == (CoordinatorView {
                interval_ms: config.checkpoint_interval_ms,
                next_oid: superblock.next_oid,
                next_txn_id: superblock.next_txn_id,
                background: false,
                shutdown: false,
            }),
    {
        CheckpointCoordinator {
            interval_ms: config.checkpoint_interval_ms,
            next_oid_source: OidCounter::new(superblock.next_oid),
            next_txn_id_source: TxnIdClock::new(superblock.next_txn_id),
            background: false,
            shutdown: false,
        }
    }

    /// Where later checkpoints take the next OID from.
    pub fn set_next_oid_source(&mut self, source: OidCounter)
        ensures
            final(self)@ == (CoordinatorView { next_oid: source.now(), ..old(self)@ }),
    {
        self.next_oid_source = source;
    }

    /// Where later checkpoints take the next transaction ID from.
    pub fn set_next_txn_id_source(&mut self, source: TxnIdClock)
        ensures
            final(self)@ == (CoordinatorView { next_txn_id: source.now(), ..old(self)@ }),
    {
        self.next_txn_id_source = source;
    }

    /// The counter that OIDs are given out from, for the end of a checkpoint.
    pub fn next_oid_source(&self) -> (source: &OidCounter)
        ensures
            source.now() == self@.next_oid,
    {
        &self.next_oid_source
    }

    /// The counter that OIDs are given out from. What is taken from it is what later
    /// checkpoints go by.
    pub fn next_oid_source_mut(&mut self) -> (source: &mut OidCounter)
        ensures
            source.now() == old(self)@.next_oid,
            final(self)@ == (CoordinatorView { next_oid: final(source).now(), ..old(self)@ }),
    {
        &mut self.next_oid_source
    }

    /// The clock that transaction IDs are given out from, for the end of a checkpoint.
    pub fn next_txn_id_source(&self) -> (source: &TxnIdClock)
        ensures
            source.now() == self@.next_txn_id,
    {
        &self.next_txn_id_source
    }

    /// The clock that transaction IDs are given out from. What is taken from it is what
    /// later checkpoints go by.
    pub fn next_txn_id_source_mut(&mut self) -> (source: &mut TxnIdClock)
        ensures
            source.now() == old(self)@.next_txn_id,
            final(self)@ == (CoordinatorView {
                next_txn_id: final(source).now(),
                ..old(self)@
            }),
    {
        &mut self.next_txn_id_source
    }

    /// Starts automatic checkpoints: the clock of the background checkpointer, or
    /// `None` if they are switched off. `InvalidConfig` if it runs already.
    pub fn start_background_checkpointing(&mut self) -> (result: Result<Option<BackgroundTimer>>)
        ensures
            old(self)@.interval_ms == 0 ==> final(self)@ == old(self)@ && result == Ok::<
                Option<BackgroundTimer>,
                StorageError,
            >(None),
            old(self)@.interval_ms > 0 && old(self)@.background ==> final(self)@ == old(self)@ && (
            result matches Err(StorageError::InvalidConfig(message)) && message@
                == "background checkpointing already started"@),
            old(self)@.interval_ms > 0 && !old(self)@.background ==> final(self)@ == (
            CoordinatorView { background: true, ..old(self)@ }) && (result matches Ok(Some(timer))
                && timer.wf() && timer.interval() == old(self)@.interval_ms && timer.elapsed()
                == 0),
    {
        if self.interval_ms == 0 {
            return Ok(None);
        }
        if self.background {
            return Err(
                StorageError::InvalidConfig("background checkpointing already started".to_owned()),
            );
        }
        self.background = true;
        Ok(Some(BackgroundTimer { interval_ms: self.interval_ms, elapsed_ms: 0 }))
    }

    /// Begins a checkpoint: reserves the LSN of its first record, tells it to the
    /// buffer pool, and takes note of the freelist.
    pub fn trigger_checkpoint(
        &self,
        wal: &mut WalWriter,
        pool: &mut BufferPool,
        allocator: &PageAllocator,
    ) -> (run: CheckpointRun)
        requires
            old(wal).wf(),
            old(wal)@.now.0 + 32 <= u64::MAX,
            old(pool).wf(),
        ensures
            final(wal).wf(),
            final(wal)@ == (WriterView {
                now: Lsn((old(wal)@.now.0 + 32) as u64),
                ..old(wal)@
            }),
            final(pool).wf(),
            final(pool).shards() == old(pool).shards(),
            final(pool)@ == (PoolView { checkpoint_lsn: old(wal)@.now, ..old(pool)@ }),
            run.wf(),
            run@ == (RunView {
                begin_lsn: old(wal)@.now,
                pages: None,
                freelist: allocator@.freelist,
                phase: Phase::Begin,
                end: None,
            }),
    {
        let begin_lsn = wal.reserve_lsn(WAL_RECORD_HEADER_SIZE as u64);
        pool.set_checkpoint_lsn(begin_lsn);
        let freelist = allocator.snapshot(begin_lsn);
        CheckpointRun { begin_lsn, pages: None, freelist, phase: Phase::Begin, end: None }
    }

    /// Stops automatic checkpoints. Whether there is a background checkpointer to wait
    /// for.
    pub fn shutdown(&mut self) -> (wait: bool)
        ensures
            wait <==> !old(self)@.shutdown && old(self)@.background,
            final(self)@ == (CoordinatorView {
                shutdown: true,
                background: old(self)@.background && old(self)@.shutdown,
                ..old(self)@
            }),
    {
        if self.shutdown {
            return false;
        }
        self.shutdown = true;
        let wait: bool = self.background;
        self.background = false;
        wait
    }

    /// Whether automatic checkpoints are to stop.
    pub fn is_shutdown(&self) -> (yes: bool)
        ensures
            yes == self@.shutdown,
    {
        self.shutdown
    }
}

/// Only two failures are put up with: a page to flush that is no longer in the pool, and any
/// failure to write the freelist snapshot.
pub proof fn few_failures_are_harmless(phase: Phase, error: StorageError)
    ensures
        is_harmless(phase, error) <==> (phase is Flush && error is PageNotFound) || phase
            is Freelist,
{
}

} // verus!
