//! Replaying the end of transactions.
//!
//! `TxnCommit` and `TxnAbort` records rebuild the commit log, which is only as
//! durable as its last flush: what the log says of a transaction is authoritative.
//! Replaying a record again records the same state again.

use vstd::prelude::*;

use crate::clog::{ClogAccessor, TxnState};
use crate::codec::le_u64;
use crate::engine::{
    all_redone, ended_xid, is_redo_start, is_trace, record_redone, redo_ran, replays, step_ok,
    RecoveryFiles, ReplayView,
};
use crate::error::Result;
use crate::page::{pd_lsn_reads_back, with_pd_lsn};
use crate::recovery::{
    write_views, FullPageImageRedoHandler, NoOpRedoHandler, PageAllocRedoHandler,
    PageFreeRedoHandler, RedoContext, RedoHandler, RedoRegistry,
};
use crate::txn::clog_mem::InMemoryClogAccessor;
use crate::types::{Lsn, TxnId};
use crate::wal::image::{ops_applied, MAX_STREAM_LEN};
use crate::wal::log::{appended_record_reads_back, segment_ready};
use crate::wal::reader::{log_end, log_records, record_views};
use crate::wal::record::{
    id_payload_reads_back, is_serialize_error, stored_image, unplaced, RecordView, TxnAbortRecord,
    TxnCommitRecord, WalRecord, WalRecordType,
};
use crate::wal::writer::planned;
use crate::wire::{take_varint, varint, varint_is_short};

verus! {

/// Replaying the end of a transaction records its state in the commit log, and does
/// nothing else; a record that cannot be read changes nothing.
pub open spec fn end_redone<C: ClogAccessor>(
    record: &WalRecord,
    state: TxnState,
    before: &RedoContext<C>,
    after: &RedoContext<C>,
    result: Result<()>,
) -> bool {
    &&& after.same_but_clog(before)
    &&& match take_varint(record@.payload) {
        Some((xid, _)) => result is Ok && C::recorded(
            &before.clog,
            TxnId(xid),
            state,
            &after.clog,
        ),
        None => is_serialize_error(result) && after.clog == before.clog,
    }
}

/// Replays `TxnCommit` records.
pub struct TxnCommitHandler;

impl<C: ClogAccessor> RedoHandler<C> for TxnCommitHandler {
    open spec fn record_kind(&self) -> WalRecordType {
        WalRecordType::TxnCommit
    }

    open spec fn redone(
        &self,
        record: &WalRecord,
        before: &RedoContext<C>,
        after: &RedoContext<C>,
        result: Result<()>,
    ) -> bool {
        end_redone(record, TxnState::Committed, before, after, result)
    }

    fn kind(&self) -> (kind: WalRecordType) {
        WalRecordType::TxnCommit
    }

    fn apply(&self, record: &WalRecord, ctx: &mut RedoContext<C>) -> (result: Result<()>) {
        let rec = TxnCommitRecord::decode(record.payload.as_slice())?;
        ctx.clog.set_state(rec.xid, TxnState::Committed);
        Ok(())
    }
}

/// Replays `TxnAbort` records.
pub struct TxnAbortHandler;

impl<C: ClogAccessor> RedoHandler<C> for TxnAbortHandler {
    open spec fn record_kind(&self) -> WalRecordType {
        WalRecordType::TxnAbort
    }

    open spec fn redone(
        &self,
        record: &WalRecord,
        before: &RedoContext<C>,
        after: &RedoContext<C>,
        result: Result<()>,
    ) -> bool {
        end_redone(record, TxnState::Aborted, before, after, result)
    }

    fn kind(&self) -> (kind: WalRecordType) {
        WalRecordType::TxnAbort
    }

    fn apply(&self, record: &WalRecord, ctx: &mut RedoContext<C>) -> (result: Result<()>) {
        let rec = TxnAbortRecord::decode(record.payload.as_slice())?;
        ctx.clog.set_state(rec.xid, TxnState::Aborted);
        Ok(())
    }
}

/// The handlers that this library has.
pub enum StandardHandler {
    /// Allocations of pages.
    PageAlloc(PageAllocRedoHandler),
    /// Releases of pages.
    PageFree(PageFreeRedoHandler),
    /// Page images.
    FullPageImage(FullPageImageRedoHandler),
    /// Records that need no replay.
    NoOp(NoOpRedoHandler),
    /// Commits.
    TxnCommit(TxnCommitHandler),
    /// Aborts.
    TxnAbort(TxnAbortHandler),
}

impl<C: ClogAccessor> RedoHandler<C> for StandardHandler {
    open spec fn record_kind(&self) -> WalRecordType {
        match self {
            StandardHandler::PageAlloc(handler) => RedoHandler::<C>::record_kind(handler),
            StandardHandler::PageFree(handler) => RedoHandler::<C>::record_kind(handler),
            StandardHandler::FullPageImage(handler) => RedoHandler::<C>::record_kind(handler),
            StandardHandler::NoOp(handler) => RedoHandler::<C>::record_kind(handler),
            StandardHandler::TxnCommit(handler) => RedoHandler::<C>::record_kind(handler),
            StandardHandler::TxnAbort(handler) => RedoHandler::<C>::record_kind(handler),
        }
    }

    open spec fn redone(
        &self,
        record: &WalRecord,
        before: &RedoContext<C>,
        after: &RedoContext<C>,
        result: Result<()>,
    ) -> bool {
        match self {
            StandardHandler::PageAlloc(handler) => handler.redone(record, before, after, result),
            StandardHandler::PageFree(handler) => handler.redone(record, before, after, result),
            StandardHandler::FullPageImage(handler) => handler.redone(
                record,
                before,
                after,
                result,
            ),
            StandardHandler::NoOp(handler) => handler.redone(record, before, after, result),
            StandardHandler::TxnCommit(handler) => handler.redone(record, before, after, result),
            StandardHandler::TxnAbort(handler) => handler.redone(record, before, after, result),
        }
    }

    fn kind(&self) -> (kind: WalRecordType) {
        match self {
            StandardHandler::PageAlloc(handler) => RedoHandler::<C>::kind(handler),
            StandardHandler::PageFree(handler) => RedoHandler::<C>::kind(handler),
            StandardHandler::FullPageImage(handler) => RedoHandler::<C>::kind(handler),
            StandardHandler::NoOp(handler) => RedoHandler::<C>::kind(handler),
            StandardHandler::TxnCommit(handler) => RedoHandler::<C>::kind(handler),
            StandardHandler::TxnAbort(handler) => RedoHandler::<C>::kind(handler),
        }
    }

    fn apply(&self, record: &WalRecord, ctx: &mut RedoContext<C>) -> (result: Result<()>) {
        match self {
            StandardHandler::PageAlloc(handler) => handler.apply(record, ctx),
            StandardHandler::PageFree(handler) => handler.apply(record, ctx),
            StandardHandler::FullPageImage(handler) => handler.apply(record, ctx),
            StandardHandler::NoOp(handler) => handler.apply(record, ctx),
            StandardHandler::TxnCommit(handler) => handler.apply(record, ctx),
            StandardHandler::TxnAbort(handler) => handler.apply(record, ctx),
        }
    }
}

/// The handlers that rebuild the commit log.
pub fn txn_redo_handlers() -> (handlers: Vec<StandardHandler>)
    ensures
        handlers@ == seq![
            StandardHandler::TxnCommit(TxnCommitHandler),
            StandardHandler::TxnAbort(TxnAbortHandler),
        ],
{
    let mut handlers: Vec<StandardHandler> = Vec::new();
    handlers.push(StandardHandler::TxnCommit(TxnCommitHandler));
    handlers.push(StandardHandler::TxnAbort(TxnAbortHandler));
    handlers
}

/// The handlers that rebuild the data pages and the page allocator. The marks of a
/// checkpoint need no replay.
pub fn storage_redo_handlers() -> (handlers: Vec<StandardHandler>)
    ensures
        handlers@ == seq![
            StandardHandler::PageAlloc(PageAllocRedoHandler),
            StandardHandler::PageFree(PageFreeRedoHandler),
            StandardHandler::FullPageImage(FullPageImageRedoHandler),
            StandardHandler::NoOp(NoOpRedoHandler { kind: WalRecordType::CheckpointBegin }),
            StandardHandler::NoOp(NoOpRedoHandler { kind: WalRecordType::CheckpointEnd }),
        ],
{
    let mut handlers: Vec<StandardHandler> = Vec::new();
    handlers.push(StandardHandler::PageAlloc(PageAllocRedoHandler));
    handlers.push(StandardHandler::PageFree(PageFreeRedoHandler));
    handlers.push(StandardHandler::FullPageImage(FullPageImageRedoHandler));
    handlers.push(StandardHandler::NoOp(NoOpRedoHandler::new(WalRecordType::CheckpointBegin)));
    handlers.push(StandardHandler::NoOp(NoOpRedoHandler::new(WalRecordType::CheckpointEnd)));
    handlers
}

/// The state that the end of a transaction, as a record tells it, leaves in the commit
/// log.
pub open spec fn ended_state(record: RecordView) -> TxnState {
    if record.record_type is TxnCommit {
        TxnState::Committed
    } else {
        TxnState::Aborted
    }
}

/// The commit log after some records: each end of a transaction sets its state.
pub open spec fn states_after(
    states: Map<u64, TxnState>,
    records: Seq<RecordView>,
) -> Map<u64, TxnState>
    decreases records.len(),
{
    if records.len() == 0 {
        states
    } else {
        let before = states_after(states, records.drop_last());
        match ended_xid(records.last()) {
            Some(xid) => before.insert(xid, ended_state(records.last())),
            None => before,
        }
    }
}

/// The last record on the end of a transaction decides its state; without one it is as
/// it was.
pub proof fn last_end_decides(
    states: Map<u64, TxnState>,
    records: Seq<RecordView>,
    xid: u64,
    k: int,
)
    requires
        -1 <= k < records.len(),
        k >= 0 ==> ended_xid(records[k]) == Some(xid),
        forall|j: int| k < j < records.len() ==> ended_xid(#[trigger] records[j]) != Some(xid),
    ensures
        k >= 0 ==> states_after(states, records).contains_key(xid) && states_after(
            states,
            records,
        )[xid] == ended_state(records[k]),
        k < 0 ==> states_after(states, records).contains_key(xid) == states.contains_key(xid)
            && states_after(states, records)[xid] == states[xid],
    decreases records.len(),
{
    if records.len() > 0 {
        let front = records.drop_last();
        assert(records[records.len() - 1] == records.last());
        if k < records.len() - 1 {
            assert forall|j: int| k < j < front.len() implies ended_xid(#[trigger] front[j])
                != Some(xid) by {
                assert(records[j] == front[j]);
            }
            assert(ended_xid(records[records.len() - 1]) != Some(xid));
            last_end_decides(states, front, xid, k);
        }
    }
}

/// The registry has the handlers that rebuild the commit log.
pub open spec fn rebuilds_clog(
    registry: &RedoRegistry<InMemoryClogAccessor, StandardHandler>,
) -> bool {
    &&& registry.wf()
    &&& registry.handlers().contains(StandardHandler::TxnCommit(TxnCommitHandler))
    &&& registry.handlers().contains(StandardHandler::TxnAbort(TxnAbortHandler))
}

proof fn record_rebuilds(
    registry: &RedoRegistry<InMemoryClogAccessor, StandardHandler>,
    record: WalRecord,
    before: RedoContext<InMemoryClogAccessor>,
    after: RedoContext<InMemoryClogAccessor>,
)
    requires
        rebuilds_clog(registry),
        registry.applied(&record, &before, &after, Ok(())),
    ensures
        after.clog@ == match ended_xid(record@) {
            Some(xid) => before.clog@.insert(xid, ended_state(record@)),
            None => before.clog@,
        },
{
    let handlers = registry.handlers();
    let i = choose|i: int|
        0 <= i < handlers.len() && RedoHandler::<InMemoryClogAccessor>::record_kind(
            &(#[trigger] handlers[i]),
        ) == record.record_type && handlers[i].redone(&record, &before, &after, Ok(()));
    let c = choose|c: int|
        0 <= c < handlers.len() && handlers[c] == StandardHandler::TxnCommit(TxnCommitHandler);
    let a = choose|a: int|
        0 <= a < handlers.len() && handlers[a] == StandardHandler::TxnAbort(TxnAbortHandler);
    let commit = handlers[c];
    let abort = handlers[a];
    let used = handlers[i];
    if record.record_type is TxnCommit {
        assert(i == c);
    }
    if record.record_type is TxnAbort {
        assert(i == a);
    }
}

proof fn trace_rebuilds(
    registry: &RedoRegistry<InMemoryClogAccessor, StandardHandler>,
    records: Seq<WalRecord>,
    states: Seq<RedoContext<InMemoryClogAccessor>>,
    k: int,
)
    requires
        rebuilds_clog(registry),
        is_trace(registry, records, states),
        0 <= k < states.len(),
    ensures
        states[k].clog@ == states_after(states[0].clog@, record_views(records).take(k)),
    decreases k,
{
    let views = record_views(records);
    if k == 0 {
        assert(views.take(0) =~= Seq::empty());
    } else {
        trace_rebuilds(registry, records, states, k - 1);
        assert(step_ok(registry, records, states, k - 1));
        record_rebuilds(registry, records[k - 1], states[k - 1], states[k]);
        assert(views.take(k).drop_last() =~= views.take(k - 1));
        assert(views.take(k).last() == records[k - 1]@);
    }
}

/// The commit log is rebuilt from the log: replaying the records leaves in it what they
/// say of the end of transactions, whatever stood there before.
pub proof fn clog_is_rebuilt(
    registry: &RedoRegistry<InMemoryClogAccessor, StandardHandler>,
    records: Seq<WalRecord>,
    before: RedoContext<InMemoryClogAccessor>,
    after: RedoContext<InMemoryClogAccessor>,
    result: Result<()>,
)
    requires
        rebuilds_clog(registry),
        replays(registry, records, before, after, result),
        result is Ok,
    ensures
        after.clog@ == states_after(before.clog@, record_views(records)),
{
    let states = choose|states: Seq<RedoContext<InMemoryClogAccessor>>| #[trigger]
        is_trace(registry, records, states) && states[0] == before && states.len()
            == records.len() + 1 && states.last() == after;
    let n = records.len() as int;
    trace_rebuilds(registry, records, states, n);
    assert(record_views(records).take(n) =~= record_views(records));
    assert(states[n] == states.last());
}

/// The registry has the handlers that rebuild the data pages and the page allocator.
pub open spec fn rebuilds_pages<C: ClogAccessor>(
    registry: &RedoRegistry<C, StandardHandler>,
) -> bool {
    &&& registry.wf()
    &&& registry.handlers().contains(StandardHandler::PageAlloc(PageAllocRedoHandler))
    &&& registry.handlers().contains(StandardHandler::PageFree(PageFreeRedoHandler))
    &&& registry.handlers().contains(StandardHandler::FullPageImage(FullPageImageRedoHandler))
}

proof fn record_rebuilds_pages<C: ClogAccessor>(
    registry: &RedoRegistry<C, StandardHandler>,
    record: WalRecord,
    before: RedoContext<C>,
    after: RedoContext<C>,
    writes: Seq<(u64, Seq<u8>)>,
)
    requires
        rebuilds_pages(registry),
        registry.applied(&record, &before, &after, Ok(())),
    ensures
        ({
            let state = ReplayView { allocator: before.page_allocator@, writes };
            record_redone(state, record@) matches Some(redone) && redone.allocator
                == after.page_allocator@
        }),
        match record.record_type {
            WalRecordType::FullPageImage => (stored_image(record@.payload) matches Some(
                (page_id, image),
            ) && page_id.0 > 0 && image.len() >= 8 && write_views(after.page_writes@)
                == write_views(before.page_writes@).push(
                (((page_id.0 - 1) * 8192) as u64, with_pd_lsn(image, record.lsn)),
            )),
            _ => after.page_writes == before.page_writes,
        },
{
    let handlers = registry.handlers();
    let i = choose|i: int|
        0 <= i < handlers.len() && RedoHandler::<C>::record_kind(&(#[trigger] handlers[i]))
            == record.record_type && handlers[i].redone(&record, &before, &after, Ok(()));
    let a = choose|a: int|
        0 <= a < handlers.len() && handlers[a] == StandardHandler::PageAlloc(PageAllocRedoHandler);
    let f = choose|f: int|
        0 <= f < handlers.len() && handlers[f] == StandardHandler::PageFree(PageFreeRedoHandler);
    let m = choose|m: int|
        0 <= m < handlers.len() && handlers[m] == StandardHandler::FullPageImage(
            FullPageImageRedoHandler,
        );
    let alloc = handlers[a];
    let free = handlers[f];
    let image = handlers[m];
    let used = handlers[i];
    if record.record_type is PageAlloc {
        assert(i == a);
    }
    if record.record_type is PageFree {
        assert(i == f);
    }
    if record.record_type is FullPageImage {
        assert(i == m);
    }
}

proof fn trace_rebuilds_pages<C: ClogAccessor>(
    registry: &RedoRegistry<C, StandardHandler>,
    records: Seq<WalRecord>,
    states: Seq<RedoContext<C>>,
    k: int,
)
    requires
        rebuilds_pages(registry),
        is_trace(registry, records, states),
        0 <= k < states.len(),
    ensures
        ({
            let start = ReplayView {
                allocator: states[0].page_allocator@,
                writes: Seq::empty(),
            };
            let images = record_views(records).take(k).filter(
                |r: RecordView| r.record_type is FullPageImage,
            );
            let n = states[0].page_writes@.len();
            let views = write_views(states[k].page_writes@);
            &&& all_redone(start, record_views(records).take(k)) matches Some(redone)
            &&& redone.allocator == states[k].page_allocator@
            &&& views.len() == n + images.len()
            &&& forall|i: int|
                0 <= i < images.len() ==> (stored_image((#[trigger] images[i]).payload) matches Some(
                    (page_id, image),
                ) && page_id.0 > 0 && image.len() >= 8 && views[n + i] == (
                    ((page_id.0 - 1) * 8192) as u64,
                    with_pd_lsn(image, images[i].lsn),
                ))
        }),
    decreases k,
{
    reveal(Seq::filter);
    let all = record_views(records);
    let start = ReplayView { allocator: states[0].page_allocator@, writes: Seq::empty() };
    if k == 0 {
        assert(all.take(0) =~= Seq::empty());
    } else {
        trace_rebuilds_pages(registry, records, states, k - 1);
        assert(step_ok(registry, records, states, k - 1));
        let before = all_redone(start, all.take(k - 1))->0;
        record_rebuilds_pages(registry, records[k - 1], states[k - 1], states[k], before.writes);
        assert(all.take(k).drop_last() =~= all.take(k - 1));
        assert(all.take(k).last() == records[k - 1]@);
        let n = states[0].page_writes@.len();
        let earlier = all.take(k - 1).filter(|r: RecordView| r.record_type is FullPageImage);
        let images = all.take(k).filter(|r: RecordView| r.record_type is FullPageImage);
        let old_views = write_views(states[k - 1].page_writes@);
        let views = write_views(states[k].page_writes@);
        assert forall|i: int| 0 <= i < images.len() implies (stored_image(
            (#[trigger] images[i]).payload,
        ) matches Some((page_id, image)) && page_id.0 > 0 && image.len() >= 8 && views[n + i] == (
            ((page_id.0 - 1) * 8192) as u64,
            with_pd_lsn(image, images[i].lsn),
        )) by {
            if i < earlier.len() {
                assert(images[i] == earlier[i]);
                assert(views[n + i] == old_views[n + i]);
            } else {
                assert(images[i] == records[k - 1]@);
            }
        }
    }
}

/// Replaying through the handlers rebuilds the data pages and the page allocator as a plain
/// replay does: the allocator comes to the same, and every page image on record is written,
/// in order, to the place of its page, with the LSN of its record in its first eight bytes.
pub proof fn pages_are_rebuilt<C: ClogAccessor>(
    registry: &RedoRegistry<C, StandardHandler>,
    records: Seq<WalRecord>,
    before: RedoContext<C>,
    after: RedoContext<C>,
    result: Result<()>,
)
    requires
        rebuilds_pages(registry),
        replays(registry, records, before, after, result),
        result is Ok,
        before.page_writes@.len() == 0,
    ensures
        ({
            let start = ReplayView { allocator: before.page_allocator@, writes: Seq::empty() };
            let images = record_views(records).filter(
                |r: RecordView| r.record_type is FullPageImage,
            );
            let writes = after.page_writes@;
            &&& all_redone(start, record_views(records)) matches Some(redone)
            &&& redone.allocator == after.page_allocator@
            &&& writes.len() == images.len()
            &&& forall|i: int|
                0 <= i < images.len() ==> (stored_image((#[trigger] images[i]).payload) matches Some(
                    (page_id, image),
                ) && writes[i].offset == ((page_id.0 - 1) * 8192) as u64
                    && writes[i].content@.len() == image.len() && writes[i].content@.skip(8)
                    == image.skip(8) && le_u64(writes[i].content@, 0) == images[i].lsn.0)
        }),
{
    let states = choose|states: Seq<RedoContext<C>>| #[trigger]
        is_trace(registry, records, states) && states[0] == before && states.len()
            == records.len() + 1 && states.last() == after;
    let n = records.len() as int;
    trace_rebuilds_pages(registry, records, states, n);
    assert(record_views(records).take(n) =~= record_views(records));
    assert(states[n] == states.last());
    let images = record_views(records).filter(|r: RecordView| r.record_type is FullPageImage);
    let writes = after.page_writes@;
    let views = write_views(writes);
    assert forall|i: int| 0 <= i < images.len() implies (stored_image(
        (#[trigger] images[i]).payload,
    ) matches Some((page_id, image)) && writes[i].offset == ((page_id.0 - 1) * 8192) as u64
        && writes[i].content@.len() == image.len() && writes[i].content@.skip(8) == image.skip(8)
        && le_u64(writes[i].content@, 0) == images[i].lsn.0) by {
        let (page_id, image) = stored_image(images[i].payload)->0;
        assert(views[0 + i] == (writes[i].offset, writes[i].content@));
        pd_lsn_reads_back(image, images[i].lsn);
        assert(writes[i].content@.skip(8) =~= image.skip(8));
    }
}

/// The end of a transaction is replayed as what it is: a commit as committed, an abort as
/// aborted, and nothing else changes.
pub proof fn end_handlers_record_the_end<C: ClogAccessor>(
    record: &WalRecord,
    before: &RedoContext<C>,
    after: &RedoContext<C>,
    result: Result<()>,
    xid: TxnId,
)
    requires
        record.payload@ == varint(xid.0),
    ensures
        TxnCommitHandler.redone(record, before, after, result) ==> result is Ok && C::recorded(
            &before.clog,
            xid,
            TxnState::Committed,
            &after.clog,
        ) && after.page_allocator == before.page_allocator && after.page_writes
            == before.page_writes && after.att == before.att && after.dpt == before.dpt,
        TxnAbortHandler.redone(record, before, after, result) ==> result is Ok && C::recorded(
            &before.clog,
            xid,
            TxnState::Aborted,
            &after.clog,
        ) && after.page_allocator == before.page_allocator && after.page_writes
            == before.page_writes && after.att == before.att && after.dpt == before.dpt,
{
    id_payload_reads_back(xid.0);
}

/// The last commit or abort of a transaction in the log decides what recovery makes of it:
/// after a commit it is committed, after an abort aborted.
pub proof fn last_commit_or_abort_decides(
    states: Map<u64, TxnState>,
    records: Seq<RecordView>,
    xid: u64,
    k: int,
)
    requires
        0 <= k < records.len(),
        records[k].payload == varint(xid),
        records[k].record_type is TxnCommit || records[k].record_type is TxnAbort,
        forall|j: int|
            k < j < records.len() ==> !((#[trigger] records[j]).record_type is TxnCommit)
                && !(records[j].record_type is TxnAbort),
    ensures
        states_after(states, records).contains_key(xid),
        records[k].record_type is TxnCommit ==> states_after(states, records)[xid]
            == TxnState::Committed,
        records[k].record_type is TxnAbort ==> states_after(states, records)[xid]
            == TxnState::Aborted,
{
    id_payload_reads_back(xid);
    last_end_decides(states, records, xid, k);
}

/// What was committed, and is in the log, is committed after recovery; what was aborted
/// is aborted; and a transaction without an end in the log is as the commit log had it
/// before: in progress, if that was empty.
pub proof fn ended_transactions_survive(
    registry: &RedoRegistry<InMemoryClogAccessor, StandardHandler>,
    files: &RecoveryFiles,
    page_size: nat,
    clog: InMemoryClogAccessor,
    after: RedoContext<InMemoryClogAccessor>,
    result: Result<()>,
    xid: TxnId,
    k: int,
)
    requires
        rebuilds_clog(registry),
        redo_ran(registry, files, page_size, clog, after, result),
        result is Ok,
        -1 <= k < files.records().len(),
        k >= 0 ==> ended_xid(files.records()[k]) == Some(xid.0),
        forall|j: int|
            k < j < files.records().len() ==> ended_xid(#[trigger] files.records()[j]) != Some(
                xid.0,
            ),
    ensures
        k >= 0 ==> after.clog.state_of(xid) == ended_state(files.records()[k]),
        k < 0 ==> after.clog.state_of(xid) == clog.state_of(xid),
{
    let (records, before) = choose|records: Seq<WalRecord>, before: RedoContext<
        InMemoryClogAccessor,
    >|
        #![trigger replays(registry, records, before, after, result)]
        record_views(records) == files.records() && is_redo_start(before, files, page_size, clog)
            && replays(registry, records, before, after, result);
    clog_is_rebuilt(registry, records, before, after, result);
    last_end_decides(clog@, files.records(), xid.0, k);
}

/// A commit survives from the moment its record is written: the log with the record
/// appended rebuilds the transaction as committed, whatever a torn or damaged record has
/// left behind it, unless that ends the same transaction once more.
pub proof fn appended_commit_is_rebuilt(
    files: Map<u64, Seq<u8>>,
    size: u64,
    current: int,
    start: int,
    lsn: Lsn,
    xid: TxnId,
    states: Map<u64, TxnState>,
)
    requires
        segment_ready(files, size, current),
        current <= lsn.0 / size,
        0 <= start,
        log_end(files, size, start) == lsn.0,
        lsn.0 + 48 <= MAX_STREAM_LEN,
    ensures
        ({
            let record = unplaced(WalRecordType::TxnCommit, 0, varint(xid.0)).at(lsn);
            let n = log_records(files, size, start).len();
            let after = ops_applied(
                files,
                size,
                planned(current, size, lsn.0 as int, record.bytes(), false),
            );
            let records = log_records(after, size, start);
            let rebuilt = states_after(states, records);
            let first = states_after(states, records.take(n as int + 1));
            &&& n < records.len()
            &&& first.contains_key(xid.0) && first[xid.0] == TxnState::Committed
            &&& (forall|j: int|
                n < j < records.len() ==> ended_xid(#[trigger] records[j]) != Some(xid.0)) ==> (
            rebuilt.contains_key(xid.0) && rebuilt[xid.0] == TxnState::Committed)
        }),
{
    let record = unplaced(WalRecordType::TxnCommit, 0, varint(xid.0)).at(lsn);
    varint_is_short(xid.0);
    id_payload_reads_back(xid.0);
    appended_record_reads_back(files, size, current, start, record);
    let after = ops_applied(
        files,
        size,
        planned(current, size, lsn.0 as int, record.bytes(), false),
    );
    let old_records = log_records(files, size, start);
    let records = log_records(after, size, start);
    let n = old_records.len() as int;
    assert(old_records.push(record)[n] == record);
    assert(records[n] == record);
    let part = records.take(n + 1);
    last_end_decides(states, part, xid.0, n);
    if forall|j: int| n < j < records.len() ==> ended_xid(#[trigger] records[j]) != Some(xid.0) {
        last_end_decides(states, records, xid.0, n);
    }
}

/// Replaying the end of a transaction twice is replaying it once.
pub proof fn end_is_replayed_once(
    record: &WalRecord,
    state: TxnState,
    first: RedoContext<InMemoryClogAccessor>,
    second: RedoContext<InMemoryClogAccessor>,
    third: RedoContext<InMemoryClogAccessor>,
    once: Result<()>,
    twice: Result<()>,
)
    requires
        end_redone(record, state, &first, &second, once),
        end_redone(record, state, &second, &third, twice),
    ensures
        third.clog@ == second.clog@,
        once is Ok <==> twice is Ok,
{
    match take_varint(record@.payload) {
        Some((xid, _)) => {
            assert(first.clog@.insert(xid, state).insert(xid, state) =~= first.clog@.insert(
                xid,
                state,
            ));
        },
        None => {},
    }
}

} // verus!
