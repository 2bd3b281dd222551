//! The storage engine: creating a database, and recovering one.
//!
//! Recovery reads the superblock, starts from the page allocator as it was at the last
//! checkpoint, and replays the log from there:
//!
//! - allocations and releases rebuild the page allocator;
//! - page images go to the data file, and repair pages that were torn;
//! - the transactions that were in progress at the checkpoint, or that records tell of,
//!   are unfinished unless a record ends them;
//! - the transaction IDs on record are never given out again.
//!
//! A record at the end of the log that is not all there, or is damaged, was being
//! written when the crash came, and ends the log.

use vstd::prelude::*;

use crate::buffer_pool::{empty_frame, BufferPool, PoolView};
use crate::checkpoint::{
    BackgroundTimer, CheckpointCoordinator, CheckpointRun, CoordinatorView, Phase, RunView,
};
use crate::clog::ClogAccessor;
use crate::codec::{le_u64, patched};
use crate::config::{rejects_config, StorageConfig};
use crate::error::{Result, StorageError};
use crate::freelist_meta::{
    freelist_bytes, freelist_fault, freelist_reads_back, stored_ids, FreelistMeta,
};
use crate::oid::OidCounter;
use crate::page_allocator::{
    all_done, can_do_all, growth_is_enough, log_of, log_replayed, ragged_file_text,
    newer_freelist_is_rebuilt, recovery_rebuilds_allocator, replay_refused, replayed, AllocOp, AllocatorView, LoggedOp,
    PageAllocator, DATA_FILE_GROWTH_BYTES,
};
use crate::recovery::{
    has_offset, lists_xids, offset_of, page_offset, snapshot_table, write_views, ActiveXactTable,
    DirtyPageTable, PageWrite, RedoContext, RedoHandler, RedoRegistry,
};
use crate::superblock::{
    copy_a, copy_b, file_needs_migration, file_value, is_readable, is_v1_copy, unreadable_text,
    Superblock,
};
use crate::txn_id::TxnIdClock;
use crate::types::{Lsn, Oid, PageId, TxnId, PAGE_SIZE};
use crate::wal::durable::{append_ops, opened_log, opened_log_goes_on};
use crate::wal::image::{op_views, WalImage};
use crate::wal::log::{clear_log_ends, log_ready, reading_reaches_end};
use crate::wal::reader::{
    can_open, is_fault, is_open_fault, log_end, log_records, log_stops, outcome_at, read_tail,
    record_views, LogTail,
};
use crate::wal::record::{
    id_payload_reads_back, image_payload_reads_back, is_serialize_error, stored_image,
    FullPageImageRecord, RecordView,
    TxnAbortRecord, TxnCommitRecord, WalRecord, WalRecordType,
};
use crate::wal::segment::{
    denotes, is_latest_up_to, misaligned_size_text, texts,
};
use crate::wal::writer::{
    is_resume_fault, opened_at, resumes, LogRepair, WalWriter, WriterView,
};
use crate::wire::{blob, take_varint, varint};

verus! {

/// What replaying the log has come to.
#[verifier::ext_equal]
pub struct ReplayView {
    /// The page allocator.
    pub allocator: AllocatorView,
    /// The writes to the data file, in order: where, and which bytes.
    pub writes: Seq<(u64, Seq<u8>)>,
}

/// What replaying a record does; `None` if it cannot be replayed. Only allocations,
/// releases and page images do anything.
pub open spec fn record_redone(state: ReplayView, record: RecordView) -> Option<ReplayView> {
    match record.record_type {
        WalRecordType::PageAlloc | WalRecordType::PageFree => match replayed(
            state.allocator,
            record,
        ) {
            Some(allocator) => Some(ReplayView { allocator, ..state }),
            None => None,
        },
        WalRecordType::FullPageImage => match stored_image(record.payload) {
            Some((page_id, image)) => if has_offset(page_id) {
                Some(
                    ReplayView {
                        writes: state.writes.push((page_offset(page_id) as u64, image)),
                        ..state
                    },
                )
            } else {
                None
            },
            None => None,
        },
        _ => Some(state),
    }
}

/// How a record that cannot be replayed is refused.
pub open spec fn record_refused<T>(record: RecordView, result: Result<T>) -> bool {
    match record.record_type {
        WalRecordType::FullPageImage => match stored_image(record.payload) {
            Some(_) => result matches Err(e) && e == StorageError::WalCorrupted(record.lsn),
            None => is_serialize_error(result),
        },
        _ => result matches Err(e) && replay_refused(record, Err(e)),
    }
}

/// What replaying some records does; `None` if one of them cannot be replayed.
pub open spec fn all_redone(state: ReplayView, records: Seq<RecordView>) -> Option<ReplayView>
    decreases records.len(),
{
    if records.len() == 0 {
        Some(state)
    } else {
        match all_redone(state, records.drop_last()) {
            Some(before) => record_redone(before, records.last()),
            None => None,
        }
    }
}

/// Once a record cannot be replayed, that is the end.
proof fn failure_is_final(state: ReplayView, records: Seq<RecordView>, k: int)
    requires
        0 <= k <= records.len(),
        all_redone(state, records.take(k)) is None,
    ensures
        all_redone(state, records) is None,
    decreases records.len() - k,
{
    if k == records.len() {
        assert(records.take(k) =~= records);
    } else {
        assert(records.take(k + 1).drop_last() =~= records.take(k));
        failure_is_final(state, records, k + 1);
    }
}

/// The first record that cannot be replayed is refused.
pub open spec fn replay_fails<T>(
    state: ReplayView,
    records: Seq<RecordView>,
    result: Result<T>,
) -> bool {
    exists|k: int|
        0 <= k < records.len() && (#[trigger] all_redone(state, records.take(k))) is Some
            && record_redone(all_redone(state, records.take(k))->0, records[k]) is None
            && record_refused(records[k], result)
}

/// What records say of pages that were handed out and freed.
pub open spec fn alloc_log(records: Seq<RecordView>) -> Seq<LoggedOp>
    decreases records.len(),
{
    if records.len() == 0 {
        Seq::empty()
    } else {
        let before = alloc_log(records.drop_last());
        let record = records.last();
        match take_varint(record.payload) {
            Some((id, _)) if record.record_type is PageAlloc => before.push(
                LoggedOp { alloc: true, page_id: PageId(id) },
            ),
            Some((id, _)) if record.record_type is PageFree => before.push(
                LoggedOp { alloc: false, page_id: PageId(id) },
            ),
            _ => before,
        }
    }
}

/// A record that recovery can replay: it decodes, and its page has a place in a data
/// file.
pub open spec fn is_replayable(record: RecordView, page_size: nat) -> bool {
    match record.record_type {
        WalRecordType::PageAlloc => take_varint(record.payload) matches Some((id, _)) && id
            < u64::MAX && id * page_size + DATA_FILE_GROWTH_BYTES <= u64::MAX,
        WalRecordType::PageFree => take_varint(record.payload) is Some,
        WalRecordType::FullPageImage => stored_image(record.payload) matches Some((page_id, _))
            && has_offset(page_id),
        _ => true,
    }
}

proof fn replay_follows_alloc_log(state: ReplayView, records: Seq<RecordView>)
    requires
        state.allocator.file_len <= u64::MAX,
        forall|k: int|
            0 <= k < records.len() ==> is_replayable(
                #[trigger] records[k],
                state.allocator.page_size,
            ),
    ensures
        all_redone(state, records) matches Some(redone) && redone.allocator == log_replayed(
            state.allocator,
            alloc_log(records),
        ) && redone.allocator.page_size == state.allocator.page_size && redone.allocator.file_len
            <= u64::MAX,
    decreases records.len(),
{
    if records.len() > 0 {
        let front = records.drop_last();
        assert forall|k: int| 0 <= k < front.len() implies is_replayable(
            #[trigger] front[k],
            state.allocator.page_size,
        ) by {
            assert(records[k] == front[k]);
        }
        replay_follows_alloc_log(state, front);
        let before = all_redone(state, front)->0;
        let record = records.last();
        assert(is_replayable(records[records.len() - 1], state.allocator.page_size));
        match take_varint(record.payload) {
            Some((id, _)) => {
                growth_is_enough(
                    before.allocator.file_len,
                    PageId(id),
                    before.allocator.page_size,
                );
                let log = alloc_log(records);
                if record.record_type is PageAlloc || record.record_type is PageFree {
                    assert(log.drop_last() =~= alloc_log(front));
                }
            },
            None => {},
        }
    }
}

/// Recovery rebuilds the page allocator. It starts from a next page ID as of a checkpoint
/// or later, and from the freelist as it was after the first `seen` operations since the
/// checkpoint: that of the checkpoint itself, or a newer one, which a crash between the
/// writes of a freelist and of its superblock leaves. Replaying what the log holds of the
/// operations since the checkpoint gives the free pages as they were when the log ended,
/// each once, in the same order if the freelist is that of the checkpoint, and a next page
/// ID that is no smaller than it was then.
pub proof fn allocator_is_recovered(
    checkpoint: AllocatorView,
    ops: Seq<AllocOp>,
    seen: int,
    start: ReplayView,
    records: Seq<RecordView>,
)
    requires
        checkpoint.is_consistent(),
        can_do_all(checkpoint, ops),
        alloc_log(records) == log_of(checkpoint, ops),
        0 <= seen <= ops.len(),
        start.allocator.freelist == all_done(checkpoint, ops.take(seen)).freelist,
        start.allocator.next_page_id.0 >= checkpoint.next_page_id.0,
        start.allocator.file_len <= u64::MAX,
        forall|k: int|
            0 <= k < records.len() ==> is_replayable(
                #[trigger] records[k],
                start.allocator.page_size,
            ),
    ensures
        ({
            let now = all_done(checkpoint, ops);
            &&& all_redone(start, records) matches Some(redone)
            &&& redone.allocator.is_consistent()
            &&& forall|p: PageId| #[trigger]
                redone.allocator.freelist.contains(p) == now.freelist.contains(p)
            &&& seen == 0 ==> redone.allocator.freelist == now.freelist
            &&& redone.allocator.next_page_id == if start.allocator.next_page_id.0
                >= now.next_page_id.0 {
                start.allocator.next_page_id
            } else {
                now.next_page_id
            }
        }),
{
    replay_follows_alloc_log(start, records);
    newer_freelist_is_rebuilt(checkpoint, start.allocator, ops, seen);
    if seen == 0 {
        assert(ops.take(0) =~= Seq::empty());
        recovery_rebuilds_allocator(checkpoint, start.allocator, ops);
    }
}

/// Logging an operation on the page allocator adds it to what the log holds of such
/// operations; no other record does.
pub proof fn alloc_log_grows(records: Seq<RecordView>, record: RecordView, page_id: PageId)
    ensures
        record.record_type is PageAlloc && record.payload == varint(page_id.0) ==> alloc_log(
            records.push(record),
        ) == alloc_log(records).push(LoggedOp { alloc: true, page_id }),
        record.record_type is PageFree && record.payload == varint(page_id.0) ==> alloc_log(
            records.push(record),
        ) == alloc_log(records).push(LoggedOp { alloc: false, page_id }),
        !(record.record_type is PageAlloc) && !(record.record_type is PageFree) ==> alloc_log(
            records.push(record),
        ) == alloc_log(records),
{
    assert(records.push(record).drop_last() =~= records);
    if record.payload == varint(page_id.0) {
        id_payload_reads_back(page_id.0);
    }
}

/// The transaction whose end a record tells.
pub open spec fn ended_xid(record: RecordView) -> Option<u64> {
    if record.record_type is TxnCommit || record.record_type is TxnAbort {
        match take_varint(record.payload) {
            Some((xid, _)) => Some(xid),
            None => None,
        }
    } else {
        None
    }
}

/// The transactions that were in progress, or that records tell of, and that did not
/// end, each with its last record.
pub open spec fn unfinished(active: Map<u64, Lsn>, records: Seq<RecordView>) -> Map<u64, Lsn>
    decreases records.len(),
{
    if records.len() == 0 {
        active
    } else {
        let before = unfinished(active, records.drop_last());
        match ended_xid(records.last()) {
            Some(xid) => before.remove(xid),
            None => if records.last().txn_id.0 != 0 {
                before.insert(records.last().txn_id.0, records.last().lsn)
            } else {
                before
            },
        }
    }
}

/// No unfinished transaction is missed: one that was in progress at the last checkpoint,
/// or that a record tells of, is found unless a record behind that ends it.
pub proof fn unfinished_transactions_are_found(
    active: Map<u64, Lsn>,
    records: Seq<RecordView>,
    xid: u64,
    k: int,
)
    requires
        xid != 0,
        -1 <= k < records.len(),
        k < 0 ==> active.contains_key(xid),
        k >= 0 ==> records[k].txn_id.0 == xid && ended_xid(records[k]) is None,
        forall|j: int|
            k < j < records.len() ==> ended_xid(#[trigger] records[j]) != Some(xid),
    ensures
        unfinished(active, records).contains_key(xid),
    decreases records.len(),
{
    if records.len() > 0 && k < records.len() - 1 {
        let front = records.drop_last();
        assert forall|j: int| k < j < front.len() implies ended_xid(#[trigger] front[j]) != Some(
            xid,
        ) by {
            assert(records[j] == front[j]);
        }
        unfinished_transactions_are_found(active, front, xid, k);
        assert(ended_xid(records[records.len() - 1]) != Some(xid));
    }
}

/// The smallest next ID from `next` on that lies past `xid`.
pub open spec fn past(next: u64, xid: u64) -> u64 {
    if xid < next {
        next
    } else if xid == u64::MAX {
        u64::MAX
    } else {
        (xid + 1) as u64
    }
}

/// The smallest next ID from `next` on that lies past a record.
pub open spec fn past_record(next: u64, record: RecordView) -> u64 {
    match ended_xid(record) {
        Some(xid) => past(past(next, record.txn_id.0), xid),
        None => past(next, record.txn_id.0),
    }
}

/// The smallest next ID from `next` on that lies past all records.
pub open spec fn past_all(next: u64, records: Seq<RecordView>) -> u64
    decreases records.len(),
{
    if records.len() == 0 {
        next
    } else {
        past_record(past_all(next, records.drop_last()), records.last())
    }
}

/// No transaction ID on record is given out again, unless they are used up.
pub proof fn recorded_xids_are_past(next: u64, records: Seq<RecordView>, i: int)
    requires
        0 <= i < records.len(),
    ensures
        past_all(next, records) >= next,
        past_all(next, records) == u64::MAX || records[i].txn_id.0 < past_all(next, records),
        past_all(next, records) == u64::MAX || (ended_xid(records[i]) matches Some(xid) ==> xid
            < past_all(next, records)),
    decreases records.len(),
{
    let front = records.drop_last();
    if front.len() > 0 {
        let j = if i < front.len() {
            i
        } else {
            0
        };
        recorded_xids_are_past(next, front, j);
    } else {
        assert(past_all(next, front) == next);
    }
}

/// Where replaying starts: at the last checkpoint, or at the beginning of the log if
/// there was none.
pub open spec fn replay_start(superblock: Superblock) -> Lsn {
    if superblock.checkpoint_lsn.0 != 0 {
        superblock.checkpoint_lsn
    } else {
        Lsn(8)
    }
}

/// The freelist that replaying starts from: that of the snapshot file, if it is good
/// and no older than the last checkpoint.
pub open spec fn seeded_freelist(file: Option<Vec<u8>>, superblock: Superblock) -> Seq<PageId> {
    match file {
        Some(bytes) => if freelist_fault(bytes@) is None && le_u64(bytes@, 4)
            >= superblock.checkpoint_lsn.0 {
            stored_ids(bytes@)
        } else {
            Seq::empty()
        },
        None => Seq::empty(),
    }
}

/// A checkpoint's freelist snapshot is what replaying starts from, whether the superblock
/// is that of the checkpoint or an older one.
pub proof fn checkpointed_freelist_is_seeded(
    file: Vec<u8>,
    lsn: Lsn,
    ids: Seq<PageId>,
    superblock: Superblock,
)
    requires
        file@ == freelist_bytes(lsn, ids),
        lsn.0 >= superblock.checkpoint_lsn.0,
        ids.len() <= u64::MAX,
    ensures
        seeded_freelist(Some(file), superblock) == ids,
{
    freelist_reads_back(lsn, ids);
}

/// The data file after some writes, in order.
pub open spec fn file_after(file: Seq<u8>, writes: Seq<(u64, Seq<u8>)>) -> Seq<u8>
    decreases writes.len(),
{
    if writes.len() == 0 {
        file
    } else {
        patched(file_after(file, writes.drop_last()), writes.last().0 as int, writes.last().1)
    }
}

/// The writes are whole pages inside the file.
pub open spec fn writes_pages(writes: Seq<(u64, Seq<u8>)>, len: nat) -> bool {
    forall|i: int|
        0 <= i < writes.len() ==> (#[trigger] writes[i]).0 % (PAGE_SIZE as u64) == 0
            && writes[i].1.len() == PAGE_SIZE && writes[i].0 + PAGE_SIZE <= len
}

/// Page images repair torn pages: whatever the data file held, after the writes each
/// page that was written is its last image, and all other pages are as they were.
pub proof fn last_image_wins(
    file: Seq<u8>,
    writes: Seq<(u64, Seq<u8>)>,
    offset: u64,
    k: int,
)
    requires
        writes_pages(writes, file.len()),
        offset % (PAGE_SIZE as u64) == 0,
        offset + PAGE_SIZE <= file.len(),
        -1 <= k < writes.len(),
        k >= 0 ==> writes[k].0 == offset,
        forall|j: int| k < j < writes.len() ==> (#[trigger] writes[j]).0 != offset,
    ensures
        file_after(file, writes).len() == file.len(),
        file_after(file, writes).subrange(offset as int, offset + PAGE_SIZE) == if k >= 0 {
            writes[k].1
        } else {
            file.subrange(offset as int, offset + PAGE_SIZE)
        },
    decreases writes.len(),
{
    if writes.len() > 0 {
        let front = writes.drop_last();
        let n = writes.len() - 1;
        assert(writes[n] == writes.last());
        assert forall|i: int| 0 <= i < front.len() implies (#[trigger] front[i]).0 % (
        PAGE_SIZE as u64) == 0 && front[i].1.len() == PAGE_SIZE && front[i].0 + PAGE_SIZE
            <= file.len() by {
            assert(writes[i] == front[i]);
        }
        let before = file_after(file, front);
        if k == n {
            pages_keep_len(file, front);
            assert(file_after(file, writes).subrange(offset as int, offset + PAGE_SIZE)
                =~= writes[k].1);
        } else {
            assert forall|j: int| k < j < front.len() implies (#[trigger] front[j]).0
                != offset by {
                assert(writes[j] == front[j]);
            }
            last_image_wins(file, front, offset, k);
            let at = writes[n].0;
            assert(at != offset);
            assert(at % 8192 == 0 && offset % 8192 == 0);
            assert(at + PAGE_SIZE <= offset || offset + PAGE_SIZE <= at);
            assert(file_after(file, writes).subrange(offset as int, offset + PAGE_SIZE)
                =~= before.subrange(offset as int, offset + PAGE_SIZE));
        }
    }
}

proof fn pages_keep_len(file: Seq<u8>, writes: Seq<(u64, Seq<u8>)>)
    requires
        writes_pages(writes, file.len()),
    ensures
        file_after(file, writes).len() == file.len(),
    decreases writes.len(),
{
    if writes.len() > 0 {
        let front = writes.drop_last();
        assert(writes[writes.len() - 1] == writes.last());
        assert forall|i: int| 0 <= i < front.len() implies (#[trigger] front[i]).0 % (
        PAGE_SIZE as u64) == 0 && front[i].1.len() == PAGE_SIZE && front[i].0 + PAGE_SIZE
            <= file.len() by {
            assert(writes[i] == front[i]);
        }
        pages_keep_len(file, front);
    }
}

/// The files of a database that recovery reads.
#[derive(Debug)]
pub struct RecoveryFiles {
    /// The contents of the superblock file.
    pub superblock: Vec<u8>,
    /// The contents of the log.
    pub wal: WalImage,
    /// The names of the files in the directory of the log.
    pub wal_names: Vec<String>,
    /// The length of the data file.
    pub data_file_len: u64,
    /// The contents of the freelist snapshot file, if it can be read.
    pub freelist: Option<Vec<u8>>,
    /// The transactions in progress that the last checkpoint recorded: the contents of the
    /// first of its snapshot files ([`snapshot_file_names`](crate::checkpoint::snapshot_file_names)), if it can be read.
    pub att: Option<Vec<u8>>,
    /// The dirty pages that the last checkpoint recorded: the contents of the second of
    /// its snapshot files, if it can be read.
    pub dpt: Option<Vec<u8>>,
}

impl RecoveryFiles {
    /// The files can be read as what they are.
    pub open spec fn wf(&self) -> bool {
        self.superblock@.len() == 1024 && self.wal.wf()
    }

    /// What the superblock file says.
    pub open spec fn superblock_value(&self) -> Superblock {
        file_value(self.superblock@)
    }

    /// The records to replay.
    pub open spec fn records(&self) -> Seq<RecordView> {
        log_records(
            self.wal.files(),
            self.wal.size(),
            replay_start(self.superblock_value()).0 as int,
        )
    }

    /// Where the log ends.
    pub open spec fn end(&self) -> int {
        log_end(
            self.wal.files(),
            self.wal.size(),
            replay_start(self.superblock_value()).0 as int,
        )
    }

    /// The superblock and the log can be read.
    pub open spec fn is_recoverable(&self) -> bool {
        &&& is_readable(self.superblock@)
        &&& can_open(
            self.wal.files(),
            self.wal.size(),
            replay_start(self.superblock_value()),
        )
        &&& log_stops(self.wal.files(), self.wal.size(), self.end())
    }

    /// The engine can run with the configuration, and the log has the segment size that
    /// it gives.
    pub open spec fn can_start(&self, config: &StorageConfig) -> bool {
        config.is_valid() && self.wal.size() == config.wal_segment_size
    }

    /// Recovery can start from the files, and the data file consists of whole pages.
    pub open spec fn is_whole(&self, config: &StorageConfig) -> bool {
        self.is_recoverable() && self.data_file_len % (config.page_size as u64) == 0
    }

    /// The page allocator that replaying starts from.
    pub open spec fn allocator_before(&self, page_size: nat) -> AllocatorView {
        AllocatorView {
            next_page_id: self.superblock_value().next_page_id,
            freelist: seeded_freelist(self.freelist, self.superblock_value()),
            page_size,
            file_len: self.data_file_len as nat,
            recovered: false,
        }
    }
}

/// The result is a `MetadataCorrupted` with the message `text`.
pub open spec fn is_corrupted<T>(result: Result<T>, text: Seq<char>) -> bool {
    result matches Err(StorageError::MetadataCorrupted(message)) && message@ == text
}

/// How recovery fails before it replays anything: the superblock cannot be read, the
/// log cannot, or the data file does not consist of whole pages.
pub open spec fn start_fails<T>(
    result: Result<T>,
    config: &StorageConfig,
    files: &RecoveryFiles,
) -> bool {
    let start = replay_start(files.superblock_value());
    if !is_readable(files.superblock@) {
        is_corrupted(result, unreadable_text(files.superblock@))
    } else if !can_open(files.wal.files(), files.wal.size(), start) {
        result matches Err(e) && is_open_fault(files.wal.files(), files.wal.size(), start, e)
    } else if !log_stops(files.wal.files(), files.wal.size(), files.end()) {
        result matches Err(e) && is_fault(
            outcome_at(files.wal.files(), files.wal.size(), files.end()),
            files.end(),
            e,
        )
    } else {
        is_corrupted(result, ragged_file_text(files.data_file_len, config.page_size))
    }
}

/// What recovery starts from.
#[derive(Debug)]
pub struct RecoveryStart {
    /// The superblock.
    pub superblock: Superblock,
    /// The contents that the superblock file is to be given, if it is of an old
    /// version.
    pub migrated: Option<Vec<u8>>,
    /// The page allocator as of the last checkpoint.
    pub page_allocator: PageAllocator,
    /// What to replay.
    pub tail: LogTail,
}

/// A storage engine.
#[derive(Debug)]
pub struct StorageEngine {
    /// The configuration.
    pub config: StorageConfig,
    /// The superblock as it is on disk.
    pub superblock: Superblock,
    /// The page allocator.
    pub page_allocator: PageAllocator,
    /// The log.
    pub wal_writer: WalWriter,
    /// The pages in memory.
    pub buffer_pool: BufferPool,
    /// The checkpoints.
    pub checkpoint: CheckpointCoordinator,
    /// The transaction IDs.
    pub txn_id_clock: TxnIdClock,
    /// The transactions that recovery found unfinished.
    pub active_xids: Vec<TxnId>,
}

/// A recovered engine, and what is still to be written.
#[derive(Debug)]
pub struct Recovery {
    /// The engine.
    pub engine: StorageEngine,
    /// The contents that the superblock file is to be given, if it is of an old
    /// version.
    pub migrated: Option<Vec<u8>>,
    /// The writes to the data file, in order, once it has the length that the page
    /// allocator says.
    pub page_writes: Vec<PageWrite>,
    /// What is to be done about what a torn record has left behind the end of the log,
    /// before anything is appended.
    pub repair: LogRepair,
}

/// What recovery gives: the superblock on disk, the page allocator and the writes that
/// replaying came to, a log that goes on where it ended, and transaction IDs past all
/// that are on record.
pub open spec fn is_recovered(
    recovery: Recovery,
    config: StorageConfig,
    files: &RecoveryFiles,
    allocator: AllocatorView,
    writes: Seq<(u64, Seq<u8>)>,
) -> bool {
    let engine = recovery.engine;
    &&& engine.config == config
    &&& engine.superblock == files.superblock_value()
    &&& engine.is_fresh(
        Lsn(files.end() as u64),
        files.wal_names@,
        TxnId(past_all(files.superblock_value().next_txn_id.0, files.records())),
    )
    &&& engine.wal_writer@.segment_size == config.wal_segment_size
    &&& config.wal_segment_size == files.wal.size()
    &&& engine.page_allocator@ == (AllocatorView { recovered: true, ..allocator })
    &&& lists_xids(
        engine.active_xids@,
        unfinished(snapshot_table(files.att), files.records()).dom(),
    )
    &&& recovery.migrated is Some <==> file_needs_migration(files.superblock@)
    &&& recovery.migrated matches Some(file) ==> file@ == engine.superblock.file_bytes()
    &&& write_views(recovery.page_writes@) == writes
    &&& recovery.repair.mends(
        files.wal_names@,
        files.wal.files(),
        files.wal.size(),
        files.end(),
    )
}

/// After a recovery the log goes on: it is in order, it reads as it did, and what is
/// appended reads back behind that, and nothing else, whatever a torn or damaged record
/// had left at its end, in the same segment or in a later one. `files` are all segment
/// files of the directory.
pub proof fn recovered_log_goes_on(
    recovery: Recovery,
    config: StorageConfig,
    files: &RecoveryFiles,
    allocator: AllocatorView,
    writes: Seq<(u64, Seq<u8>)>,
    record: RecordView,
)
    requires
        is_recovered(recovery, config, files, allocator, writes),
        files.wf(),
        files.is_recoverable(),
        forall|id: u64| #[trigger]
            files.wal.files().contains_key(id) <==> denotes(texts(files.wal_names@), id),
        record.fits(),
        files.end() + record.size() <= u64::MAX,
    ensures
        ({
            let size = files.wal.size();
            let writer = recovery.engine.wal_writer@;
            let start = replay_start(files.superblock_value()).0 as int;
            let opened = opened_log(
                files.wal.files(),
                texts(recovery.repair.stale_segments@),
                op_views(recovery.repair.ops@),
                writer,
            );
            let after = opened.after(append_ops(writer, record)).disk.files;
            let end = files.end() + record.size();
            &&& opened.is_kept()
            &&& log_ready(opened.disk.files, size, writer.current_segment as int, files.end())
            &&& log_records(opened.disk.files, size, start) == files.records()
            &&& log_end(opened.disk.files, size, start) == files.end()
            &&& log_records(after, size, start) == files.records().push(record.at(writer.now))
            &&& log_end(after, size, start) == end
            &&& log_ready(after, size, (end - 1) / (size as int), end)
        }),
{
    let start = replay_start(files.superblock_value());
    reading_reaches_end(files.wal.files(), files.wal.size(), start.0 as int);
    opened_log_goes_on(
        files.wal.files(),
        files.wal_names@,
        recovery.repair,
        recovery.engine.wal_writer@,
        start.0 as int,
        record,
    );
}

/// A log that a database was created on goes on in the same way.
pub proof fn created_log_goes_on(
    engine: StorageEngine,
    repair: LogRepair,
    wal: &WalImage,
    names: Seq<String>,
    next_txn_id: TxnId,
    record: RecordView,
)
    requires
        resumes(wal.files(), wal.size()),
        wal.wf(),
        log_end(wal.files(), wal.size(), 8) + record.size() <= u64::MAX,
        engine.is_fresh(
            Lsn(log_end(wal.files(), wal.size(), 8) as u64),
            names,
            next_txn_id,
        ),
        engine.wal_writer@.segment_size == wal.size(),
        repair.mends(
            names,
            wal.files(),
            wal.size(),
            log_end(wal.files(), wal.size(), 8),
        ),
        forall|id: u64| #[trigger] wal.files().contains_key(id) <==> denotes(texts(names), id),
        record.fits(),
    ensures
        ({
            let size = wal.size();
            let writer = engine.wal_writer@;
            let end = log_end(wal.files(), size, 8) + record.size();
            let opened = opened_log(
                wal.files(),
                texts(repair.stale_segments@),
                op_views(repair.ops@),
                writer,
            );
            let after = opened.after(append_ops(writer, record)).disk.files;
            &&& opened.is_kept()
            &&& log_records(opened.disk.files, size, 8) == log_records(wal.files(), size, 8)
            &&& log_end(opened.disk.files, size, 8) == log_end(wal.files(), size, 8)
            &&& log_records(after, size, 8) == log_records(wal.files(), size, 8).push(
                record.at(writer.now),
            )
            &&& log_end(after, size, 8) == end
            &&& log_ready(after, size, (end - 1) / (size as int), end)
        }),
{
    reading_reaches_end(wal.files(), wal.size(), 8);
    opened_log_goes_on(wal.files(), names, repair, engine.wal_writer@, 8, record);
}

/// No counter is set back by a restart: when a checkpoint has recorded the clock `xids`
/// and the counter `oids` in the superblock, recovery goes on past every transaction ID
/// and every OID that they had given out, and the page allocator starts from the page ID
/// that the checkpoint recorded.
pub proof fn checkpointed_counters_are_past(
    run: RunView,
    current: Superblock,
    xids: TxnIdClock,
    oids: OidCounter,
    recovery: Recovery,
    config: StorageConfig,
    files: &RecoveryFiles,
    allocator: AllocatorView,
    writes: Seq<(u64, Seq<u8>)>,
    xid: TxnId,
    oid: Oid,
)
    requires
        run.end matches Some(end) && end.next_txn_id == xids.now() && end.next_oid == oids.now(),
        files.superblock_value() == run.updated(current),
        is_recovered(recovery, config, files, allocator, writes),
        xid.0 < xids.now().0,
        oid.0 < oids.now().0,
    ensures
        recovery.engine.superblock == run.updated(current),
        xid.0 < recovery.engine.txn_id_clock.now().0,
        xid.0 < recovery.engine.checkpoint@.next_txn_id.0,
        oid.0 < recovery.engine.superblock.next_oid.0,
        oid.0 < recovery.engine.checkpoint@.next_oid.0,
        files.allocator_before(config.page_size as nat).next_page_id == (
        run.end->0).next_page_id,
{
    let records = files.records();
    if records.len() > 0 {
        recorded_xids_are_past(xids.now().0, records, 0);
    }
}

/// The writes of a replay are exactly the page images on record, in order: behind the writes
/// that there were, one for each `FullPageImage` record, of the whole image, to the place of
/// its page.
pub proof fn images_are_written_in_order(state: ReplayView, records: Seq<RecordView>)
    requires
        all_redone(state, records) is Some,
    ensures
        ({
            let redone = all_redone(state, records)->0;
            let images = records.filter(|r: RecordView| r.record_type is FullPageImage);
            &&& redone.writes.len() == state.writes.len() + images.len()
            &&& forall|i: int|
                0 <= i < state.writes.len() ==> #[trigger] redone.writes[i] == state.writes[i]
            &&& forall|i: int|
                0 <= i < images.len() ==> (stored_image((#[trigger] images[i]).payload) matches Some(
                    (page_id, image),
                ) && page_id.0 > 0 && redone.writes[state.writes.len() + i] == (
                    ((page_id.0 - 1) * 8192) as u64,
                    image,
                ))
        }),
    decreases records.len(),
{
    reveal(Seq::filter);
    if records.len() > 0 {
        let front = records.drop_last();
        images_are_written_in_order(state, front);
        let before = all_redone(state, front)->0;
        let redone = all_redone(state, records)->0;
        let n = state.writes.len() as int;
        let earlier = front.filter(|r: RecordView| r.record_type is FullPageImage);
        let images = records.filter(|r: RecordView| r.record_type is FullPageImage);
        assert forall|i: int| 0 <= i < images.len() implies (stored_image(
            (#[trigger] images[i]).payload,
        ) matches Some((page_id, image)) && page_id.0 > 0 && redone.writes[n + i] == (
            ((page_id.0 - 1) * 8192) as u64,
            image,
        )) by {
            if i < earlier.len() {
                assert(images[i] == earlier[i]);
                assert(redone.writes[n + i] == before.writes[n + i]);
            } else {
                assert(images[i] == records.last());
            }
        }
        assert forall|i: int| 0 <= i < n implies #[trigger] redone.writes[i] == state.writes[i] by {
            assert(before.writes[i] == state.writes[i]);
        }
    }
}

proof fn images_land(
    file: Seq<u8>,
    state: ReplayView,
    records: Seq<RecordView>,
    page: u64,
    image: Seq<u8>,
    k: int,
)
    requires
        all_redone(state, records) is Some,
        file_after(file, state.writes).len() == file.len(),
        forall|j: int|
            0 <= j < records.len() && (#[trigger] records[j]).record_type is FullPageImage ==> (
            stored_image(records[j].payload) matches Some((q, content)) && content.len() == 8192
                && q.0 * 8192 <= file.len()),
        page > 0,
        page * 8192 <= file.len(),
        -1 <= k < records.len(),
        k >= 0 ==> records[k].record_type is FullPageImage && stored_image(records[k].payload)
            == Some((PageId(page), image)),
        forall|j: int|
            k < j < records.len() && (#[trigger] records[j]).record_type is FullPageImage ==> (
            stored_image(records[j].payload) matches Some((q, _)) && q.0 != page),
    ensures
        ({
            let after = file_after(file, (all_redone(state, records)->0).writes);
            &&& after.len() == file.len()
            &&& after.subrange((page - 1) * 8192, page * 8192) == if k >= 0 {
                image
            } else {
                file_after(file, state.writes).subrange((page - 1) * 8192, page * 8192)
            }
        }),
    decreases records.len(),
{
    if records.len() > 0 {
        let front = records.drop_last();
        let n = records.len() - 1;
        assert(records[n] == records.last());
        assert forall|j: int| 0 <= j < front.len() implies front[j] == records[j] by {}
        let before = all_redone(state, front)->0;
        let redone = all_redone(state, records)->0;
        if k < n {
            images_land(file, state, front, page, image, k);
        } else {
            images_keep_len(file, state, front);
        }
        let held = file_after(file, before.writes);
        let after = file_after(file, redone.writes);
        if records.last().record_type is FullPageImage {
            let (q, content) = stored_image(records.last().payload)->0;
            assert(redone.writes.drop_last() =~= before.writes);
            assert(redone.writes.last() == (((q.0 - 1) * 8192) as u64, content));
            assert(after == patched(held, (q.0 - 1) * 8192, content));
            if k == n {
                assert(after.subrange((page - 1) * 8192, page * 8192) =~= image);
            } else {
                assert(q.0 != page);
                assert(after.subrange((page - 1) * 8192, page * 8192) =~= held.subrange(
                    (page - 1) * 8192,
                    page * 8192,
                ));
            }
        } else {
            assert(redone.writes == before.writes);
        }
    }
}

proof fn images_keep_len(file: Seq<u8>, state: ReplayView, records: Seq<RecordView>)
    requires
        all_redone(state, records) is Some,
        file_after(file, state.writes).len() == file.len(),
        forall|j: int|
            0 <= j < records.len() && (#[trigger] records[j]).record_type is FullPageImage ==> (
            stored_image(records[j].payload) matches Some((q, content)) && content.len() == 8192
                && q.0 * 8192 <= file.len()),
    ensures
        file_after(file, (all_redone(state, records)->0).writes).len() == file.len(),
    decreases records.len(),
{
    if records.len() > 0 {
        let front = records.drop_last();
        assert(records[records.len() - 1] == records.last());
        assert forall|j: int| 0 <= j < front.len() implies front[j] == records[j] by {}
        images_keep_len(file, state, front);
        let before = all_redone(state, front)->0;
        let redone = all_redone(state, records)->0;
        if records.last().record_type is FullPageImage {
            assert(redone.writes.drop_last() =~= before.writes);
        }
    }
}

/// Recovery hands on what the replay came to: the page allocator, and the page images on
/// record, each to be written as a whole to the place of its page, in the order of the log.
pub proof fn recovery_writes_every_image(
    recovery: Recovery,
    config: StorageConfig,
    files: &RecoveryFiles,
    redone: ReplayView,
)
    requires
        all_redone(
            ReplayView {
                allocator: files.allocator_before(config.page_size as nat),
                writes: Seq::empty(),
            },
            files.records(),
        ) == Some(redone),
        is_recovered(recovery, config, files, redone.allocator, redone.writes),
    ensures
        ({
            let images = files.records().filter(|r: RecordView| r.record_type is FullPageImage);
            &&& recovery.page_writes@.len() == images.len()
            &&& forall|i: int|
                0 <= i < images.len() ==> (stored_image((#[trigger] images[i]).payload) matches Some(
                    (page_id, image),
                ) && page_id.0 > 0 && recovery.page_writes@[i].offset == (page_id.0 - 1) * 8192
                    && recovery.page_writes@[i].content@ == image)
        }),
        recovery.engine.page_allocator@.next_page_id == redone.allocator.next_page_id,
        recovery.engine.page_allocator@.freelist == redone.allocator.freelist,
        recovery.engine.page_allocator@.file_len == redone.allocator.file_len,
        recovery.engine.page_allocator@.page_size == redone.allocator.page_size,
        recovery.engine.page_allocator@.recovered,
        recovery.engine.superblock == files.superblock_value(),
        recovery.engine.config == config,
        recovery.engine.wal_writer@.now.0 == files.end(),
{
    let before = ReplayView {
        allocator: files.allocator_before(config.page_size as nat),
        writes: Seq::empty(),
    };
    let records = files.records();
    let images = records.filter(|r: RecordView| r.record_type is FullPageImage);
    images_are_written_in_order(before, records);
    written_images_have_places(before, records);
    assert forall|i: int| 0 <= i < images.len() implies (stored_image(
        (#[trigger] images[i]).payload,
    ) matches Some((page_id, image)) && page_id.0 > 0 && recovery.page_writes@[i].offset == (
    page_id.0 - 1) * 8192 && recovery.page_writes@[i].content@ == image) by {
        assert(write_views(recovery.page_writes@)[i] == redone.writes[0 + i]);
    }
    reading_reaches_end(files.wal.files(), files.wal.size(), replay_start(files.superblock_value()).0 as int);
}

proof fn written_images_have_places(state: ReplayView, records: Seq<RecordView>)
    requires
        all_redone(state, records) is Some,
    ensures
        ({
            let images = records.filter(|r: RecordView| r.record_type is FullPageImage);
            forall|i: int|
                0 <= i < images.len() ==> (stored_image((#[trigger] images[i]).payload) matches Some(
                    (page_id, image),
                ) && (page_id.0 - 1) * 8192 <= u64::MAX)
        }),
    decreases records.len(),
{
    reveal(Seq::filter);
    if records.len() > 0 {
        let front = records.drop_last();
        written_images_have_places(state, front);
        let earlier = front.filter(|r: RecordView| r.record_type is FullPageImage);
        let images = records.filter(|r: RecordView| r.record_type is FullPageImage);
        assert forall|i: int| 0 <= i < images.len() implies (stored_image(
            (#[trigger] images[i]).payload,
        ) matches Some((page_id, image)) && (page_id.0 - 1) * 8192 <= u64::MAX) by {
            if i < earlier.len() {
                assert(images[i] == earlier[i]);
            } else {
                assert(images[i] == records.last());
            }
        }
    }
}

/// Recovery repairs torn pages: for every page of which the replayed log holds an image, the
/// data file after the writes of recovery holds the last such image in the place of that
/// page, whatever it held before; every other page is as it was. `k` is the last record
/// with an image of the page, or -1.
pub proof fn torn_pages_are_repaired(
    recovery: Recovery,
    config: StorageConfig,
    files: &RecoveryFiles,
    redone: ReplayView,
    file: Seq<u8>,
    page: u64,
    image: Seq<u8>,
    k: int,
)
    requires
        all_redone(
            ReplayView {
                allocator: files.allocator_before(config.page_size as nat),
                writes: Seq::empty(),
            },
            files.records(),
        ) == Some(redone),
        is_recovered(recovery, config, files, redone.allocator, redone.writes),
        forall|j: int|
            0 <= j < files.records().len() && (
            #[trigger] files.records()[j]).record_type is FullPageImage ==> (stored_image(
                files.records()[j].payload,
            ) matches Some((q, content)) && content.len() == 8192 && q.0 * 8192 <= file.len()),
        page > 0,
        page * 8192 <= file.len(),
        image.len() <= usize::MAX,
        -1 <= k < files.records().len(),
        k >= 0 ==> files.records()[k].record_type is FullPageImage && files.records()[k].payload
            == varint(page) + blob(image),
        forall|j: int|
            k < j < files.records().len() && (
            #[trigger] files.records()[j]).record_type is FullPageImage ==> (stored_image(
                files.records()[j].payload,
            ) matches Some((q, _)) && q.0 != page),
    ensures
        ({
            let writes = Seq::new(
                recovery.page_writes@.len(),
                |i: int|
                    (recovery.page_writes@[i].offset, recovery.page_writes@[i].content@),
            );
            let after = file_after(file, writes);
            &&& after.len() == file.len()
            &&& after.subrange((page - 1) * 8192, page * 8192) == if k >= 0 {
                image
            } else {
                file.subrange((page - 1) * 8192, page * 8192)
            }
        }),
{
    let before = ReplayView {
        allocator: files.allocator_before(config.page_size as nat),
        writes: Seq::empty(),
    };
    image_payload_reads_back(PageId(page), image);
    images_land(file, before, files.records(), page, image, k);
    let writes = Seq::new(
        recovery.page_writes@.len(),
        |i: int| (recovery.page_writes@[i].offset, recovery.page_writes@[i].content@),
    );
    assert(writes =~= redone.writes);
}

/// Which transaction a record ends: that of a commit or an abort, and none for any other.
pub proof fn ends_are_commits_and_aborts(record: RecordView, xid: u64)
    ensures
        record.payload == varint(xid) && (record.record_type is TxnCommit
            || record.record_type is TxnAbort) ==> ended_xid(record) == Some(xid),
        ended_xid(record) is Some ==> record.record_type is TxnCommit
            || record.record_type is TxnAbort,
{
    id_payload_reads_back(xid);
}

/// No finished transaction is taken for an unfinished one: one that a record ends is not
/// found unless a record behind that tells of it, nor is one that was not in progress at the
/// last checkpoint and of which no record tells. `k` is the record that ends it, or -1.
pub proof fn finished_transactions_are_not_found(
    active: Map<u64, Lsn>,
    records: Seq<RecordView>,
    xid: u64,
    k: int,
)
    requires
        -1 <= k < records.len(),
        k < 0 ==> !active.contains_key(xid),
        k >= 0 ==> ended_xid(records[k]) == Some(xid),
        forall|j: int|
            k < j < records.len() ==> (#[trigger] records[j]).txn_id.0 != xid || ended_xid(
                records[j],
            ) is Some,
    ensures
        !unfinished(active, records).contains_key(xid),
    decreases records.len(),
{
    if records.len() > 0 && k < records.len() - 1 {
        let front = records.drop_last();
        assert forall|j: int| k < j < front.len() implies (#[trigger] front[j]).txn_id.0 != xid
            || ended_xid(front[j]) is Some by {
            assert(records[j] == front[j]);
        }
        finished_transactions_are_not_found(active, front, xid, k);
        assert(records[records.len() - 1].txn_id.0 != xid || ended_xid(
            records[records.len() - 1],
        ) is Some);
    }
}

/// An unfinished transaction is found with its last record, or, if the log holds none, with
/// what the last checkpoint had of it.
pub proof fn unfinished_transaction_has_its_last_record(
    active: Map<u64, Lsn>,
    records: Seq<RecordView>,
    xid: u64,
    k: int,
)
    requires
        xid != 0,
        -1 <= k < records.len(),
        k < 0 ==> active.contains_key(xid),
        k >= 0 ==> records[k].txn_id.0 == xid && ended_xid(records[k]) is None,
        forall|j: int|
            k < j < records.len() ==> ended_xid(#[trigger] records[j]) != Some(xid) && (
            records[j].txn_id.0 != xid || ended_xid(records[j]) is Some),
    ensures
        unfinished(active, records).contains_key(xid),
        unfinished(active, records)[xid] == if k < 0 {
            active[xid]
        } else {
            records[k].lsn
        },
    decreases records.len(),
{
    if records.len() > 0 && k < records.len() - 1 {
        let front = records.drop_last();
        assert forall|j: int| k < j < front.len() implies ended_xid(#[trigger] front[j]) != Some(
            xid,
        ) && (front[j].txn_id.0 != xid || ended_xid(front[j]) is Some) by {
            assert(records[j] == front[j]);
        }
        unfinished_transaction_has_its_last_record(active, front, xid, k);
        let last = records[records.len() - 1];
        assert(ended_xid(last) != Some(xid));
    }
}

/// Recovery lists exactly the unfinished transactions, ascending and each once.
pub proof fn recovery_lists_unfinished_transactions(
    recovery: Recovery,
    config: StorageConfig,
    files: &RecoveryFiles,
    allocator: AllocatorView,
    writes: Seq<(u64, Seq<u8>)>,
    xid: TxnId,
)
    requires
        is_recovered(recovery, config, files, allocator, writes),
    ensures
        recovery.engine.active_xids@.contains(xid) <==> unfinished(
            snapshot_table(files.att),
            files.records(),
        ).contains_key(xid.0),
        forall|i: int, j: int|
            0 <= i < j < recovery.engine.active_xids@.len() ==> (
            #[trigger] recovery.engine.active_xids@[i]).0 < (
            #[trigger] recovery.engine.active_xids@[j]).0,
        recovery.engine.txn_id_clock.now().0 == past_all(
            files.superblock_value().next_txn_id.0,
            files.records(),
        ),
{
    let listed = recovery.engine.active_xids@;
    let names = Seq::new(listed.len(), |i: int| listed[i].0);
    let found = unfinished(snapshot_table(files.att), files.records());
    assert(names.contains(xid.0) <==> found.dom().contains(xid.0));
    if listed.contains(xid) {
        let i = choose|i: int| 0 <= i < listed.len() && listed[i] == xid;
        assert(names[i] == xid.0);
    }
    if names.contains(xid.0) {
        let i = choose|i: int| 0 <= i < names.len() && names[i] == xid.0;
        assert(listed[i] == xid);
    }
    assert forall|i: int, j: int| 0 <= i < j < listed.len() implies (#[trigger] listed[i]).0 < (
    #[trigger] listed[j]).0 by {
        assert(names[i] < names[j]);
    }
}

/// No more transaction IDs are passed over than are on record: the next one is what it was,
/// or lies right behind one on record, or there is none left.
pub proof fn next_xid_is_no_larger_than_needed(next: u64, records: Seq<RecordView>)
    ensures
        past_all(next, records) == next || exists|i: int|
            0 <= i < records.len() && {
                let last = past_all(next, records);
                let xid = (#[trigger] records[i]).txn_id.0;
                ||| xid + 1 == last || xid == u64::MAX
                ||| ended_xid(records[i]) matches Some(ended) && (ended + 1 == last || ended
                    == u64::MAX)
            },
    decreases records.len(),
{
    if records.len() > 0 {
        let front = records.drop_last();
        next_xid_is_no_larger_than_needed(next, front);
        let before = past_all(next, front);
        let last = past_all(next, records);
        let n = records.len() - 1;
        assert(records[n] == records.last());
        if last == before && before != next {
            let i = choose|i: int|
                0 <= i < front.len() && {
                    let xid = (#[trigger] front[i]).txn_id.0;
                    ||| xid + 1 == before || xid == u64::MAX
                    ||| ended_xid(front[i]) matches Some(ended) && (ended + 1 == before || ended
                        == u64::MAX)
                };
            assert(records[i] == front[i]);
        } else if last != next {
            assert(records[n].txn_id.0 == records.last().txn_id.0);
        }
    }
}

/// Recovery replays the log from where the last checkpoint began, and all of the log if
/// there was none.
pub proof fn replay_starts_at_the_checkpoint(
    run: RunView,
    current: Superblock,
    files: &RecoveryFiles,
)
    ensures
        files.superblock_value() == run.updated(current) && run.begin_lsn.0 > 0
            ==> files.records() == log_records(
            files.wal.files(),
            files.wal.size(),
            run.begin_lsn.0 as int,
        ),
        files.superblock_value().checkpoint_lsn.0 == 0 ==> files.records() == log_records(
            files.wal.files(),
            files.wal.size(),
            8,
        ),
{
}

/// A log that was written without a crash can be recovered: where nothing but zeros follows
/// its last record, it stops there.
pub proof fn written_log_is_recoverable(
    files: Map<u64, Seq<u8>>,
    size: u64,
    current: int,
    start: Lsn,
)
    requires
        log_ready(files, size, current, log_end(files, size, start.0 as int)),
        start.0 > 0,
        start.0 % 8 == 0,
        size % 8 == 0,
        size > 0,
        files.contains_key((start.0 / size) as u64),
    ensures
        can_open(files, size, start),
        log_stops(files, size, log_end(files, size, start.0 as int)),
{
    reading_reaches_end(files, size, start.0 as int);
    clear_log_ends(files, size, log_end(files, size, start.0 as int));
}

/// The freelist that replaying starts from is empty without a snapshot, and with one that is
/// damaged or older than the last checkpoint.
pub proof fn stale_freelist_is_left_aside(
    file: Option<Vec<u8>>,
    lsn: Lsn,
    ids: Seq<PageId>,
    superblock: Superblock,
)
    requires
        file is None || freelist_fault((file->0)@) is Some || ((file->0)@ == freelist_bytes(
            lsn,
            ids,
        ) && ids.len() <= u64::MAX && lsn.0 < superblock.checkpoint_lsn.0),
    ensures
        seeded_freelist(file, superblock).len() == 0,
{
    if ids.len() <= u64::MAX {
        freelist_reads_back(lsn, ids);
    }
}

/// The record with number `k` was replayed between `states[k]` and the next state.
pub open spec fn step_ok<C: ClogAccessor, H: RedoHandler<C>>(
    registry: &RedoRegistry<C, H>,
    records: Seq<WalRecord>,
    states: Seq<RedoContext<C>>,
    k: int,
) -> bool {
    registry.applied(&records[k], &states[k], &states[k + 1], Ok(()))
}

/// `states` are the states between which the first records were replayed.
pub open spec fn is_trace<C: ClogAccessor, H: RedoHandler<C>>(
    registry: &RedoRegistry<C, H>,
    records: Seq<WalRecord>,
    states: Seq<RedoContext<C>>,
) -> bool {
    &&& 1 <= states.len() <= records.len() + 1
    &&& forall|k: int|
        0 <= k < states.len() - 1 ==> #[trigger] step_ok(registry, records, states, k)
}

/// Replaying `records` one after the other takes `before` to `after` with this result;
/// the first failure is the end.
pub open spec fn replays<C: ClogAccessor, H: RedoHandler<C>>(
    registry: &RedoRegistry<C, H>,
    records: Seq<WalRecord>,
    before: RedoContext<C>,
    after: RedoContext<C>,
    result: Result<()>,
) -> bool {
    exists|states: Seq<RedoContext<C>>| #[trigger]
        is_trace(registry, records, states) && states[0] == before && if result is Ok {
            states.len() == records.len() + 1 && states.last() == after
        } else {
            states.len() <= records.len() && registry.applied(
                &records[states.len() - 1],
                &states.last(),
                &after,
                result,
            )
        }
}

/// What recovery with a registry starts from.
pub open spec fn is_redo_start<C: ClogAccessor>(
    ctx: RedoContext<C>,
    files: &RecoveryFiles,
    page_size: nat,
    clog: C,
) -> bool {
    &&& ctx.page_allocator@ == files.allocator_before(page_size)
    &&& ctx.clog == clog
    &&& ctx.att@ == snapshot_table(files.att)
    &&& ctx.dpt@ == snapshot_table(files.dpt)
    &&& ctx.page_writes@.len() == 0
}

/// Recovery with a registry replayed the log, from where it starts to `after`, with
/// this result.
pub open spec fn redo_ran<C: ClogAccessor, H: RedoHandler<C>>(
    registry: &RedoRegistry<C, H>,
    files: &RecoveryFiles,
    page_size: nat,
    clog: C,
    after: RedoContext<C>,
    result: Result<()>,
) -> bool {
    exists|records: Seq<WalRecord>, before: RedoContext<C>|
        #![trigger replays(registry, records, before, after, result)]
        record_views(records) == files.records() && is_redo_start(before, files, page_size, clog)
            && replays(registry, records, before, after, result)
}

impl StorageEngine {
    /// The parts that every open engine has in the same way: an empty buffer pool of
    /// the size that the configuration gives, a log that goes on at `at`, and counters
    /// from the superblock, or past what was replayed.
    pub open spec fn is_fresh(&self, at: Lsn, names: Seq<String>, next_txn_id: TxnId) -> bool {
        &&& self.config.is_valid()
        &&& self.buffer_pool.wf()
        &&& self.buffer_pool.shards() == self.config.buffer_pool_shards
        &&& self.buffer_pool@.frames.len() == self.config.buffer_pool_size / self.config.page_size
        &&& forall|i: int|
            0 <= i < self.buffer_pool@.frames.len() ==> #[trigger] self.buffer_pool@.frames[i]
                == empty_frame(self.config.page_size as nat)
        &&& self.buffer_pool@.table == Map::<u64, usize>::empty()
        &&& self.buffer_pool@.checkpoint_lsn == Lsn(0)
        &&& self.wal_writer.wf()
        &&& is_latest_up_to(
            names,
            (at.0 / self.wal_writer@.segment_size) as u64,
            self.wal_writer@.current_segment,
        )
        &&& self.wal_writer@.current_segment <= at.0 / self.wal_writer@.segment_size
        &&& self.wal_writer@ == opened_at(
            at,
            self.wal_writer@.segment_size,
            self.wal_writer@.current_segment,
            self.config.wal_group_commit_batch_size,
            self.config.wal_group_commit_timeout_ms,
        )
        &&& self.checkpoint@ == (CoordinatorView {
            interval_ms: self.config.checkpoint_interval_ms,
            next_oid: self.superblock.next_oid,
            next_txn_id,
            background: false,
            shutdown: false,
        })
        &&& self.txn_id_clock.now() == next_txn_id
    }

    /// Creates a database, with an empty log that has its first segment. Also gives
    /// the contents of the superblock file, and what is to be done about what stands
    /// behind the end of the log.
    ///
    /// `InvalidConfig` for a log whose segments do not have the size that the
    /// configuration gives.
    pub fn create_new(
        config: StorageConfig,
        created_at: u64,
        wal: &WalImage,
        wal_names: &Vec<String>,
        data_file_len: u64,
    ) -> (result: Result<(StorageEngine, Vec<u8>, LogRepair)>)
        requires
            wal.wf(),
        ensures
            result is Ok <==> config.is_valid() && wal.size() == config.wal_segment_size
                && wal.size() % 8 == 0 && resumes(wal.files(), wal.size()) && data_file_len % (
            config.page_size as u64) == 0,
            result matches Err(e) ==> if !config.is_valid() {
                rejects_config(result, config.complaint())
            } else if wal.size() != config.wal_segment_size {
                rejects_config(result, config.size_complaint(wal.size()))
            } else if wal.size() % 8 != 0 {
                rejects_config(result, misaligned_size_text(wal.size()))
            } else if !resumes(wal.files(), wal.size()) {
                is_resume_fault(wal.files(), wal.size(), e)
            } else {
                is_corrupted(result, ragged_file_text(data_file_len, config.page_size))
            },
            result matches Ok((engine, file, repair)) ==> {
                &&& engine.config == config
                &&& engine.superblock == (Superblock {
                    version: 2,
                    page_size: config.page_size as u32,
                    checkpoint_lsn: Lsn(0),
                    next_page_id: PageId(1),
                    next_txn_id: TxnId(1),
                    next_oid: Oid(16384),
                    created_at,
                })
                &&& file@ == engine.superblock.file_bytes()
                &&& engine.is_fresh(
                    Lsn(log_end(wal.files(), wal.size(), 8) as u64),
                    wal_names@,
                    TxnId(1),
                )
                &&& engine.wal_writer@.segment_size == config.wal_segment_size
                &&& repair.mends(
                    wal_names@,
                    wal.files(),
                    wal.size(),
                    log_end(wal.files(), wal.size(), 8),
                )
                &&& engine.page_allocator@ == (AllocatorView {
                    next_page_id: PageId(1),
                    freelist: Seq::empty(),
                    page_size: config.page_size as nat,
                    file_len: data_file_len as nat,
                    recovered: false,
                })
                &&& engine.active_xids@.len() == 0
            },
    {
        config.validate()?;
        config.validate_segment_size(wal.segment_size())?;
        let (superblock, file) = Superblock::create(config.page_size() as u32, created_at);
        let (wal_writer, repair) = WalWriter::open(
            wal,
            wal_names,
            config.wal_group_commit_batch_size,
            config.wal_group_commit_timeout_ms,
        )?;
        let page_allocator = PageAllocator::open(&config, data_file_len)?;
        let buffer_pool = BufferPool::open(&config)?;
        let checkpoint = CheckpointCoordinator::new(&config, &superblock);
        let txn_id_clock = TxnIdClock::new(superblock.next_txn_id);
        Ok(
            (
                StorageEngine {
                    config,
                    superblock,
                    page_allocator,
                    wal_writer,
                    buffer_pool,
                    checkpoint,
                    txn_id_clock,
                    active_xids: Vec::new(),
                },
                file,
                repair,
            ),
        )
    }

    /// Reads what recovery needs: the superblock, the log from the last checkpoint on,
    /// and the page allocator as it was then.
    pub fn start_recovery(config: &StorageConfig, files: &RecoveryFiles) -> (result: Result<
        RecoveryStart,
    >)
        requires
            config.page_size > 0,
            files.wf(),
        ensures
            result is Ok <==> files.is_whole(config),
            result matches Ok(start) ==> {
                &&& start.superblock == files.superblock_value()
                &&& start.migrated is Some <==> file_needs_migration(files.superblock@)
                &&& start.migrated matches Some(file) ==> file@ == start.superblock.file_bytes()
                &&& start.page_allocator@ == files.allocator_before(config.page_size as nat)
                &&& record_views(start.tail.records@) == files.records()
                &&& start.tail.end.0 == files.end()
                &&& start.tail.end.is_valid() && start.tail.end.0 % 8 == 0
            },
            result is Err ==> start_fails(result, config, files),
    {
        let read = Superblock::read(files.superblock.as_slice())?;
        let superblock = read.superblock;
        let migrated = if read.needs_migration {
            Some(superblock.migrated_file())
        } else {
            None
        };
        let redo_lsn = superblock.redo_lsn();
        let start_lsn = if redo_lsn.is_valid() {
            redo_lsn
        } else {
            Lsn::first()
        };
        let tail = read_tail(&files.wal, start_lsn)?;
        let mut page_allocator = PageAllocator::open_at(
            config,
            files.data_file_len,
            superblock.next_page_id,
        )?;
        if let Some(bytes) = &files.freelist {
            if let Ok(meta) = FreelistMeta::decode(bytes.as_slice()) {
                if meta.checkpoint_lsn.0 >= superblock.checkpoint_lsn.0 {
                    page_allocator.seed_freelist(&meta.page_ids);
                }
            }
        }
        Ok(RecoveryStart { superblock, migrated, page_allocator, tail })
    }

    /// Replays a record: an allocation, a release or a page image; all others are
    /// ignored.
    pub fn apply_record(
        record: &WalRecord,
        page_allocator: &mut PageAllocator,
        page_writes: &mut Vec<PageWrite>,
    ) -> (result: Result<()>)
        ensures
            ({
                let before = ReplayView {
                    allocator: old(page_allocator)@,
                    writes: write_views(old(page_writes)@),
                };
                let after = ReplayView {
                    allocator: final(page_allocator)@,
                    writes: write_views(final(page_writes)@),
                };
                match record_redone(before, record@) {
                    Some(redone) => result is Ok && after == redone,
                    None => record_refused(record@, result) && after == before,
                }
            }),
    {
        match record.record_type {
            WalRecordType::PageAlloc | WalRecordType::PageFree => page_allocator.replay_record(
                record,
            ),
            WalRecordType::FullPageImage => {
                let decoded = FullPageImageRecord::decode(record.payload.as_slice())?;
                match offset_of(decoded.page_id) {
                    Some(offset) => {
                        let ghost image = decoded.image@;
                        page_writes.push(PageWrite { offset, content: decoded.image });
                        assert(write_views(page_writes@) =~= write_views(old(page_writes)@).push(
                            (offset, image),
                        ));
                        Ok(())
                    },
                    None => Err(StorageError::WalCorrupted(record.lsn)),
                }
            },
            _ => Ok(()),
        }
    }

    /// Replays records in order, up to the first that cannot be replayed. Also gives
    /// the writes to the data file.
    pub fn replay_wal(records: &Vec<WalRecord>, page_allocator: PageAllocator) -> (result: Result<
        (PageAllocator, Vec<PageWrite>),
    >)
        ensures
            ({
                let before = ReplayView { allocator: page_allocator@, writes: Seq::empty() };
                match all_redone(before, record_views(records@)) {
                    Some(redone) => result matches Ok((allocator, writes)) && (ReplayView {
                        allocator: allocator@,
                        writes: write_views(writes@),
                    }) == redone,
                    None => replay_fails(before, record_views(records@), result),
                }
            }),
    {
        let ghost before = ReplayView { allocator: page_allocator@, writes: Seq::empty() };
        let ghost views = record_views(records@);
        let mut allocator = page_allocator;
        let mut page_writes: Vec<PageWrite> = Vec::new();
        assert(write_views(page_writes@) =~= Seq::empty());
        assert(views.take(0) =~= Seq::empty());
        let mut i: usize = 0;
        while i < records.len()
            invariant
                i <= records.len(),
                views == record_views(records@),
                before == (ReplayView { allocator: page_allocator@, writes: Seq::empty() }),
                all_redone(before, views.take(i as int)) == Some(
                    ReplayView {
                        allocator: allocator@,
                        writes: write_views(page_writes@),
                    },
                ),
            decreases records.len() - i,
        {
            proof {
                assert(views.take(i + 1).drop_last() =~= views.take(i as int));
                assert(views.take(i + 1).last() == records@[i as int]@);
                assert(views[i as int] == records@[i as int]@);
            }
            match Self::apply_record(&records[i], &mut allocator, &mut page_writes) {
                Ok(_) => {},
                Err(e) => {
                    proof {
                        failure_is_final(before, views, i + 1);
                    }
                    return Err(e);
                },
            }
            i += 1;
        }
        assert(views.take(i as int) =~= views);
        Ok((allocator, page_writes))
    }

    /// Which transactions the records leave unfinished when those in `active` were in
    /// progress before, and a next transaction ID from `next` on that lies past all that
    /// are on record.
    pub fn analyze(active: ActiveXactTable, records: &Vec<WalRecord>, next: TxnId) -> (found: (
        ActiveXactTable,
        TxnId,
    ))
        ensures
            found.0@ == unfinished(active@, record_views(records@)),
            found.1.0 == past_all(next.0, record_views(records@)),
    {
        let ghost views = record_views(records@);
        let mut att = active;
        let mut bound: u64 = next.0;
        assert(views.take(0) =~= Seq::empty());
        let mut i: usize = 0;
        while i < records.len()
            invariant
                i <= records.len(),
                views == record_views(records@),
                att@ == unfinished(active@, views.take(i as int)),
                bound == past_all(next.0, views.take(i as int)),
            decreases records.len() - i,
        {
            let record: &WalRecord = &records[i];
            proof {
                assert(views.take(i + 1).drop_last() =~= views.take(i as int));
                assert(views.take(i + 1).last() == record@);
            }
            bound = Self::past(bound, record.txn_id.0);
            let ended = Self::ended_xid(record);
            match ended {
                Some(xid) => {
                    bound = Self::past(bound, xid.0);
                    att.remove(xid);
                },
                None => {
                    if record.txn_id.0 != 0 {
                        att.add(record.txn_id, record.lsn);
                    }
                },
            }
            i += 1;
        }
        assert(views.take(i as int) =~= views);
        (att, TxnId(bound))
    }

    fn past(next: u64, xid: u64) -> (bound: u64)
        ensures
            bound == past(next, xid),
    {
        if xid < next {
            next
        } else if xid == u64::MAX {
            u64::MAX
        } else {
            xid + 1
        }
    }

    fn ended_xid(record: &WalRecord) -> (xid: Option<TxnId>)
        ensures
            xid is Some <==> ended_xid(record@) is Some,
            xid matches Some(xid) ==> xid.0 == ended_xid(record@)->0,
    {
        match record.record_type {
            WalRecordType::TxnCommit => match TxnCommitRecord::decode(record.payload.as_slice()) {
                Ok(rec) => Some(rec.xid),
                Err(_) => None,
            },
            WalRecordType::TxnAbort => match TxnAbortRecord::decode(record.payload.as_slice()) {
                Ok(rec) => Some(rec.xid),
                Err(_) => None,
            },
            _ => None,
        }
    }

    fn finish_recovery(
        config: StorageConfig,
        files: &RecoveryFiles,
        superblock: Superblock,
        migrated: Option<Vec<u8>>,
        tail: &LogTail,
        page_allocator: PageAllocator,
        page_writes: Vec<PageWrite>,
    ) -> (result: Result<Recovery>)
        requires
            files.can_start(&config),
            files.wf(),
            files.is_recoverable(),
            superblock == files.superblock_value(),
            migrated is Some <==> file_needs_migration(files.superblock@),
            migrated matches Some(file) ==> file@ == superblock.file_bytes(),
            record_views(tail.records@) == files.records(),
            tail.end.0 == files.end(),
            tail.end.is_valid() && tail.end.0 % 8 == 0,
        ensures
            result matches Ok(recovery) && is_recovered(
                recovery,
                config,
                files,
                page_allocator@,
                write_views(page_writes@),
            ),
    {
        let mut page_allocator = page_allocator;
        page_allocator.mark_recovery_complete();
        let (wal_writer, repair) = WalWriter::resume(
            &files.wal,
            &files.wal_names,
            config.wal_group_commit_batch_size,
            config.wal_group_commit_timeout_ms,
            tail.end,
        )?;
        let buffer_pool = BufferPool::open(&config)?;
        let (att, next_txn_id) = Self::analyze(
            ActiveXactTable::from_snapshot(&files.att),
            &tail.records,
            superblock.next_txn_id,
        );
        let mut checkpoint = CheckpointCoordinator::new(&config, &superblock);
        checkpoint.set_next_txn_id_source(TxnIdClock::new(next_txn_id));
        let engine = StorageEngine {
            config,
            superblock,
            page_allocator,
            wal_writer,
            buffer_pool,
            checkpoint,
            txn_id_clock: TxnIdClock::new(next_txn_id),
            active_xids: att.xids(),
        };
        Ok(Recovery { engine, migrated, page_writes, repair })
    }

    /// Recovers a database after a crash or a shutdown.
    ///
    /// `InvalidConfig` for a log whose segments do not have the size that the
    /// configuration gives.
    pub fn recover(config: StorageConfig, files: &RecoveryFiles) -> (result: Result<Recovery>)
        requires
            files.wf(),
        ensures
            !config.is_valid() ==> rejects_config(result, config.complaint()),
            config.is_valid() && files.wal.size() != config.wal_segment_size ==> rejects_config(
                result,
                config.size_complaint(files.wal.size()),
            ),
            files.can_start(&config) && !files.is_whole(&config) ==> start_fails(
                result,
                &config,
                files,
            ),
            files.can_start(&config) && files.is_whole(&config) ==> {
                let before = ReplayView {
                    allocator: files.allocator_before(config.page_size as nat),
                    writes: Seq::empty(),
                };
                match all_redone(before, files.records()) {
                    Some(redone) => result matches Ok(recovery) && is_recovered(
                        recovery,
                        config,
                        files,
                        redone.allocator,
                        redone.writes,
                    ),
                    None => replay_fails(before, files.records(), result),
                }
            },
    {
        config.validate()?;
        config.validate_segment_size(files.wal.segment_size())?;
        let start = Self::start_recovery(&config, files)?;
        let ghost before = ReplayView {
            allocator: files.allocator_before(config.page_size as nat),
            writes: Seq::empty(),
        };
        let tail = start.tail;
        match Self::replay_wal(&tail.records, start.page_allocator) {
            Ok((page_allocator, page_writes)) => Self::finish_recovery(
                config,
                files,
                start.superblock,
                start.migrated,
                &tail,
                page_allocator,
                page_writes,
            ),
            Err(e) => {
                proof {
                    let views = files.records();
                    let failed = Err::<(PageAllocator, Vec<PageWrite>), StorageError>(e);
                    let k = choose|k: int|
                        0 <= k < views.len() && (#[trigger] all_redone(before, views.take(
                            k,
                        ))) is Some && record_redone(
                            all_redone(before, views.take(k))->0,
                            views[k],
                        ) is None && record_refused(views[k], failed);
                    assert(record_refused(views[k], Err::<Recovery, StorageError>(e)));
                }
                Err(e)
            },
        }
    }

    /// Replays records in order through a registry, up to the first failure.
    pub fn replay_with<C: ClogAccessor, H: RedoHandler<C>>(
        registry: &RedoRegistry<C, H>,
        records: &Vec<WalRecord>,
        ctx: &mut RedoContext<C>,
    ) -> (result: Result<()>)
        ensures
            replays(registry, records@, *old(ctx), *final(ctx), result),
    {
        let ghost mut states: Seq<RedoContext<C>> = seq![*ctx];
        let mut i: usize = 0;
        while i < records.len()
            invariant
                i <= records.len(),
                is_trace(registry, records@, states),
                states.len() == i + 1,
                states[0] == *old(ctx),
                states.last() == *ctx,
            decreases records.len() - i,
        {
            let applied = registry.apply(&records[i], ctx);
            if applied.is_err() {
                return applied;
            }
            proof {
                let longer = states.push(*ctx);
                assert(applied->Ok_0 =~= ());
                assert(applied == Ok::<(), StorageError>(()));
                assert forall|k: int| 0 <= k < longer.len() - 1 implies #[trigger] step_ok(
                    registry,
                    records@,
                    longer,
                    k,
                ) by {
                    if k < states.len() - 1 {
                        assert(step_ok(registry, records@, states, k));
                    } else {
                        assert(longer[k] == states.last() && longer[k + 1] == *ctx);
                    }
                }
                states = longer;
            }
            i += 1;
        }
        Ok(())
    }

    /// Recovers a database with handlers for all types of records, and rebuilds the
    /// commit log `clog`, which is given back. A record that no handler takes is an
    /// error, and so is a log whose segments do not have the size that the configuration
    /// gives.
    pub fn recover_with_redo<C: ClogAccessor, H: RedoHandler<C>>(
        config: StorageConfig,
        files: &RecoveryFiles,
        registry: &RedoRegistry<C, H>,
        clog: C,
    ) -> (result: Result<(Recovery, C)>)
        requires
            files.wf(),
        ensures
            !config.is_valid() ==> rejects_config(result, config.complaint()),
            config.is_valid() && files.wal.size() != config.wal_segment_size ==> rejects_config(
                result,
                config.size_complaint(files.wal.size()),
            ),
            files.can_start(&config) && !files.is_whole(&config) ==> start_fails(
                result,
                &config,
                files,
            ),
            files.can_start(&config) && files.is_whole(&config) ==> match result {
                Ok((recovery, rebuilt)) => exists|after: RedoContext<C>|
                    #![trigger after.clog]
                    redo_ran(registry, files, config.page_size as nat, clog, after, Ok(()))
                        && rebuilt == after.clog && is_recovered(
                        recovery,
                        config,
                        files,
                        after.page_allocator@,
                        write_views(after.page_writes@),
                    ),
                Err(e) => exists|after: RedoContext<C>|
                    #![trigger after.clog]
                    redo_ran(registry, files, config.page_size as nat, clog, after, Err(e)),
            },
    {
        config.validate()?;
        config.validate_segment_size(files.wal.segment_size())?;
        let start = Self::start_recovery(&config, files)?;
        let tail = start.tail;
        let mut ctx = RedoContext {
            page_allocator: start.page_allocator,
            clog,
            att: ActiveXactTable::from_snapshot(&files.att),
            dpt: DirtyPageTable::from_snapshot(&files.dpt),
            page_writes: Vec::new(),
        };
        let ghost before = ctx;
        match Self::replay_with(registry, &tail.records, &mut ctx) {
            Ok(_) => {},
            Err(e) => {
                proof {
                    assert(replays(registry, tail.records@, before, ctx, Err(e)));
                    assert(is_redo_start(before, files, config.page_size as nat, clog));
                    assert(ctx.clog == ctx.clog);
                }
                return Err(e);
            },
        }
        let ghost after = ctx;
        proof {
            assert(replays(registry, tail.records@, before, after, Ok(())));
            assert(is_redo_start(before, files, config.page_size as nat, clog));
        }
        let recovery = Self::finish_recovery(
            config,
            files,
            start.superblock,
            start.migrated,
            &tail,
            ctx.page_allocator,
            ctx.page_writes,
        )?;
        assert(after.clog == ctx.clog);
        Ok((recovery, ctx.clog))
    }

    /// The data directory.
    pub fn data_dir(&self) -> (dir: &str)
        ensures
            dir@ == self.config.data_dir@,
    {
        self.config.data_dir.as_str()
    }

    /// The configuration.
    pub fn config(&self) -> (config: &StorageConfig)
        ensures
            *config == self.config,
    {
        &self.config
    }

    /// The superblock as it is on disk.
    pub fn superblock(&self) -> (superblock: &Superblock)
        ensures
            *superblock == self.superblock,
    {
        &self.superblock
    }

    /// The pages in memory.
    pub fn buffer_pool(&self) -> (pool: &BufferPool)
        ensures
            *pool == self.buffer_pool,
    {
        &self.buffer_pool
    }

    /// The page allocator.
    pub fn page_allocator(&self) -> (allocator: &PageAllocator)
        ensures
            *allocator == self.page_allocator,
    {
        &self.page_allocator
    }

    /// The log.
    pub fn wal_writer(&self) -> (writer: &WalWriter)
        ensures
            *writer == self.wal_writer,
    {
        &self.wal_writer
    }

    /// The checkpoints.
    pub fn checkpoint(&self) -> (checkpoint: &CheckpointCoordinator)
        ensures
            *checkpoint == self.checkpoint,
    {
        &self.checkpoint
    }

    /// The next OID on record.
    pub fn next_oid(&self) -> (oid: Oid)
        ensures
            oid == self.superblock.next_oid,
    {
        self.superblock.next_oid
    }

    /// The transactions that recovery found unfinished, ascending.
    pub fn recovered_active_xids(&self) -> (xids: &Vec<TxnId>)
        ensures
            *xids == self.active_xids,
    {
        &self.active_xids
    }

    /// Begins a checkpoint.
    pub fn trigger_checkpoint(&mut self) -> (run: CheckpointRun)
        requires
            old(self).wal_writer.wf(),
            old(self).wal_writer@.now.0 + 32 <= u64::MAX,
            old(self).buffer_pool.wf(),
        ensures
            final(self).wal_writer.wf(),
            final(self).wal_writer@ == (WriterView {
                now: Lsn((old(self).wal_writer@.now.0 + 32) as u64),
                ..old(self).wal_writer@
            }),
            final(self).buffer_pool.wf(),
            final(self).buffer_pool@ == (PoolView {
                checkpoint_lsn: old(self).wal_writer@.now,
                ..old(self).buffer_pool@
            }),
            final(self).config == old(self).config,
            final(self).superblock == old(self).superblock,
            final(self).page_allocator == old(self).page_allocator,
            final(self).checkpoint == old(self).checkpoint,
            final(self).txn_id_clock == old(self).txn_id_clock,
            final(self).active_xids == old(self).active_xids,
            run.wf(),
            run@ == (RunView {
                begin_lsn: old(self).wal_writer@.now,
                pages: None,
                freelist: old(self).page_allocator@.freelist,
                phase: Phase::Begin,
                end: None,
            }),
    {
        self.checkpoint.trigger_checkpoint(
            &mut self.wal_writer,
            &mut self.buffer_pool,
            &self.page_allocator,
        )
    }

    /// Starts automatic checkpoints.
    pub fn start_background_checkpointing(&mut self) -> (result: Result<Option<BackgroundTimer>>)
        ensures
            ({
                let before = old(self).checkpoint@;
                let after = final(self).checkpoint@;
                if before.interval_ms == 0 {
                    after == before && result == Ok::<Option<BackgroundTimer>, StorageError>(None)
                } else if before.background {
                    after == before && rejects_config(
                        result,
                        "background checkpointing already started"@,
                    )
                } else {
                    &&& after == (CoordinatorView { background: true, ..before })
                    &&& result matches Ok(Some(timer))
                    &&& timer.wf()
                    &&& timer.interval() == before.interval_ms
                    &&& timer.elapsed() == 0
                }
            }),
            *final(self) == (StorageEngine { checkpoint: final(self).checkpoint, ..*old(self) }),
    {
        self.checkpoint.start_background_checkpointing()
    }

    /// Stops automatic checkpoints. Whether there is a background checkpointer to wait
    /// for.
    pub fn shutdown(&mut self) -> (wait: bool)
        ensures
            wait <==> !old(self).checkpoint@.shutdown && old(self).checkpoint@.background,
            final(self).checkpoint@ == (CoordinatorView {
                shutdown: true,
                background: old(self).checkpoint@.background && old(self).checkpoint@.shutdown,
                ..old(self).checkpoint@
            }),
            *final(self) == (StorageEngine { checkpoint: final(self).checkpoint, ..*old(self) }),
    {
        self.checkpoint.shutdown()
    }
}

/// Records that are about anything but pages are passed over: replaying one changes nothing.
pub proof fn other_records_are_passed_over(state: ReplayView, record: RecordView)
    requires
        !(record.record_type is PageAlloc),
        !(record.record_type is PageFree),
        !(record.record_type is FullPageImage),
    ensures
        record_redone(state, record) == Some(state),
{
}

/// Replaying fails only at a record that cannot be replayed, after those before it were, and
/// gives no result: a page that has no place, and an image that cannot be decoded, are errors.
pub proof fn failed_replay_is_an_error<T>(
    state: ReplayView,
    records: Seq<RecordView>,
    result: Result<T>,
)
    requires
        replay_fails(state, records, result),
    ensures
        result is Err,
        all_redone(state, records) is None,
        exists|k: int|
            0 <= k < records.len() && (#[trigger] records[k].record_type is PageAlloc
                || records[k].record_type is PageFree || records[k].record_type is FullPageImage),
        forall|k: int|
            0 <= k < records.len() && (#[trigger] all_redone(state, records.take(k))) is Some
                && all_redone(state, records.take(k + 1)) is None ==> {
                &&& records[k].record_type is FullPageImage && stored_image(records[k].payload)
                    is Some ==> result == Err::<T, StorageError>(
                    StorageError::WalCorrupted(records[k].lsn),
                )
                &&& records[k].record_type is FullPageImage && stored_image(records[k].payload)
                    is None ==> is_serialize_error(result)
                &&& !(records[k].record_type is FullPageImage) ==> replay_refused(
                    records[k],
                    Err(result->Err_0),
                )
            },
{
    let k = choose|k: int|
        0 <= k < records.len() && (#[trigger] all_redone(state, records.take(k))) is Some
            && record_redone(all_redone(state, records.take(k))->0, records[k]) is None
            && record_refused(records[k], result);
    assert(records.take(k + 1).drop_last() =~= records.take(k));
    assert(records.take(k + 1).last() == records[k]);
    failure_is_final(state, records, k + 1);
    assert(records[k].record_type is PageAlloc || records[k].record_type is PageFree
        || records[k].record_type is FullPageImage);
    assert forall|j: int|
        0 <= j < records.len() && (#[trigger] all_redone(state, records.take(j))) is Some
            && all_redone(state, records.take(j + 1)) is None implies j == k by {
        if j < k {
            assert(records.take(k).take(j + 1) =~= records.take(j + 1));
            failure_is_final(state, records.take(k), j + 1);
        } else if k < j {
            assert(records.take(j).take(k + 1) =~= records.take(k + 1));
            failure_is_final(state, records.take(j), k + 1);
        }
    }
}

/// Recovery that cannot start gives no result, and it cannot start exactly if the superblock
/// or the log cannot be read, or the data file ends within a page.
pub proof fn failed_start_is_an_error<T>(
    result: Result<T>,
    config: &StorageConfig,
    files: &RecoveryFiles,
)
    requires
        start_fails(result, config, files),
    ensures
        result is Err,
        !is_readable(files.superblock@) ==> result->Err_0 is MetadataCorrupted,
        files.is_recoverable() ==> result->Err_0 is MetadataCorrupted,
        ({
            let start = replay_start(files.superblock_value());
            let opens = can_open(files.wal.files(), files.wal.size(), start);
            let end = outcome_at(files.wal.files(), files.wal.size(), files.end());
            &&& is_readable(files.superblock@) && !opens ==> result->Err_0 is InvalidConfig
                || result->Err_0 is Io
            &&& is_readable(files.superblock@) && opens && !log_stops(
                files.wal.files(),
                files.wal.size(),
                files.end(),
            ) ==> (end is Hole && result->Err_0 is MetadataCorrupted) || (end is Damaged && (
            result->Err_0 is WalCorrupted || result->Err_0 is WalReadFailed))
        }),
{
}

/// Recovery needs a configuration that the engine can run with, segments of the size that it
/// gives, a superblock of which a copy is undamaged, a log that can be read from the last
/// checkpoint to its end, and a data file of whole pages.
pub proof fn recovery_needs_whole_files(config: &StorageConfig, files: &RecoveryFiles)
    requires
        config.page_size > 0,
    ensures
        files.can_start(config) <==> config.is_valid() && files.wal.size()
            == config.wal_segment_size,
        files.is_whole(config) <==> is_readable(files.superblock@) && can_open(
            files.wal.files(),
            files.wal.size(),
            replay_start(files.superblock_value()),
        ) && log_stops(files.wal.files(), files.wal.size(), files.end()) && (
        files.data_file_len as int) % (config.page_size as int) == 0,
{
}

/// Corrupted metadata gives no result.
pub proof fn corruption_is_an_error<T>(result: Result<T>, text: Seq<char>)
    requires
        is_corrupted(result, text),
    ensures
        result matches Err(StorageError::MetadataCorrupted(message)) && message@ == text,
{
}

/// An engine starts with nothing in memory and nothing to write: every frame of the pool is
/// empty, clean and not pinned, the log goes on where it ended, all of it durable, no
/// checkpoint is running, and the counters are where the disk has them.
pub proof fn engine_starts_with_nothing_in_memory(
    engine: StorageEngine,
    at: Lsn,
    names: Seq<String>,
    next_txn_id: TxnId,
    page: u64,
    i: int,
)
    requires
        engine.is_fresh(at, names, next_txn_id),
    ensures
        !engine.buffer_pool@.table.contains_key(page),
        engine.buffer_pool@.frames.len() * engine.config.page_size
            == engine.config.buffer_pool_size,
        0 <= i < engine.buffer_pool@.frames.len() ==> engine.buffer_pool@.frames[i]
            == empty_frame(engine.config.page_size as nat),
        engine.buffer_pool@.checkpoint_lsn.0 == 0,
        engine.wal_writer@.now == at,
        engine.wal_writer@.is_durable(at),
        engine.wal_writer@.error is None,
        engine.wal_writer@.pending == 0,
        engine.checkpoint@.next_oid == engine.superblock.next_oid,
        engine.checkpoint@.next_txn_id == next_txn_id,
        engine.txn_id_clock.now() == next_txn_id,
        engine.checkpoint@.interval_ms == engine.config.checkpoint_interval_ms,
        !engine.checkpoint@.background,
        !engine.checkpoint@.shutdown,
{
    let size = engine.config.page_size as int;
    vstd::arithmetic::div_mod::lemma_fundamental_div_mod(
        engine.config.buffer_pool_size as int,
        size,
    );
    vstd::arithmetic::mul::lemma_mul_is_commutative(
        size,
        engine.config.buffer_pool_size as int / size,
    );
}

/// Recovery with a registry starts from what the last checkpoint left: the counter of the
/// superblock, the freelist that was saved with it, the transactions and pages of its
/// snapshot files, and no writes.
pub proof fn redo_starts_from_the_checkpoint<C: ClogAccessor>(
    ctx: RedoContext<C>,
    files: &RecoveryFiles,
    page_size: nat,
    clog: C,
)
    requires
        is_redo_start(ctx, files, page_size, clog),
    ensures
        ctx.clog == clog,
        ctx.page_writes@.len() == 0,
        ctx.page_allocator@.next_page_id == files.superblock_value().next_page_id,
        ctx.page_allocator@.freelist == seeded_freelist(files.freelist, files.superblock_value()),
        ctx.page_allocator@.file_len == files.data_file_len,
        ctx.page_allocator@.page_size == page_size,
        !ctx.page_allocator@.recovered,
        ctx.att@ == snapshot_table(files.att),
        ctx.dpt@ == snapshot_table(files.dpt),
{
}

/// Replaying with a registry goes record by record: without a record nothing changes, and a
/// single record does what the registry makes of it.
pub proof fn registry_replays_record_by_record<C: ClogAccessor, H: RedoHandler<C>>(
    registry: &RedoRegistry<C, H>,
    records: Seq<WalRecord>,
    before: RedoContext<C>,
    after: RedoContext<C>,
    result: Result<()>,
)
    requires
        replays(registry, records, before, after, result),
    ensures
        records.len() == 0 ==> result is Ok && after == before,
        records.len() == 1 && result is Ok ==> registry.applied(
            &records[0],
            &before,
            &after,
            Ok(()),
        ),
        records.len() == 1 && result is Err ==> registry.applied(
            &records[0],
            &before,
            &after,
            result,
        ),
{
    let states = choose|states: Seq<RedoContext<C>>| #[trigger]
        is_trace(registry, records, states) && states[0] == before && if result is Ok {
            states.len() == records.len() + 1 && states.last() == after
        } else {
            states.len() <= records.len() && registry.applied(
                &records[states.len() - 1],
                &states.last(),
                &after,
                result,
            )
        };
    if records.len() == 1 && result is Ok {
        assert(step_ok(registry, records, states, 0));
    }
}

/// A recovered engine runs with the configuration that was given and the superblock that was
/// read; the superblock file is rewritten exactly if one of its copies is of the old version,
/// with both copies of the new one. The page allocator is the one that replaying came to, and
/// need not be recovered again; the log goes on where reading ended.
pub proof fn recovered_engine_follows_the_files(
    recovery: Recovery,
    config: StorageConfig,
    files: &RecoveryFiles,
    allocator: AllocatorView,
    writes: Seq<(u64, Seq<u8>)>,
)
    requires
        is_recovered(recovery, config, files, allocator, writes),
    ensures
        recovery.engine.config == config,
        recovery.engine.superblock == files.superblock_value(),
        recovery.migrated is Some <==> is_v1_copy(copy_a(files.superblock@)) || is_v1_copy(
            copy_b(files.superblock@),
        ),
        recovery.migrated matches Some(file) ==> file@ == files.superblock_value().copy_bytes()
            + files.superblock_value().copy_bytes(),
        recovery.engine.page_allocator@.recovered,
        recovery.engine.page_allocator@.next_page_id == allocator.next_page_id,
        recovery.engine.page_allocator@.freelist == allocator.freelist,
        recovery.engine.page_allocator@.file_len == allocator.file_len,
        recovery.engine.page_allocator@.page_size == allocator.page_size,
        write_views(recovery.page_writes@) == writes,
        recovery.engine.wal_writer@.now == Lsn(files.end() as u64),
        recovery.engine.wal_writer@.segment_size == files.wal.size(),
        recovery.engine.txn_id_clock.now().0 == past_all(
            files.superblock_value().next_txn_id.0,
            files.records(),
        ),
        recovery.engine.checkpoint@.next_oid == files.superblock_value().next_oid,
{
}

} // verus!
