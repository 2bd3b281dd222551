use pg_rust::clog::{ClogAccessor, NoOpClogAccessor, TxnState};
use pg_rust::error::{Result, StorageError};
use pg_rust::recovery::AttProvider;
use pg_rust::txn::clog_buffer::{ClogBuffer, MAX_FRAMES, MIN_FRAMES};
use pg_rust::txn::clog_file::{segment_path, ClogSegmentStore, CLOG_SEGMENT_BYTES};
use pg_rust::txn::clog_mem::InMemoryClogAccessor;
use pg_rust::txn::manager::{CommitWal, RowWaiter, TxnError, TxnManager, WaitStep};
use pg_rust::txn::snapshot::{Snapshot, XidList};
use pg_rust::txn::visibility::{is_visible, PgVisibilityOracle, Visibility, VisibilityOracle};
use pg_rust::txn_id::TxnIdClock;
use pg_rust::types::{Lsn, TxnId};
use pg_rust::wal::record::WalRecord;

/// A WAL that keeps its records; it fails from a given number of them on.
struct MemoryWal {
    records: Vec<WalRecord>,
    flushed: Vec<Lsn>,
    capacity: usize,
    flushes: bool,
}

impl MemoryWal {
    fn new() -> MemoryWal {
        MemoryWal {
            records: Vec::new(),
            flushed: Vec::new(),
            capacity: usize::MAX,
            flushes: true,
        }
    }
}

impl CommitWal for MemoryWal {
    fn holds(&self, _lsn: Lsn, _record: &WalRecord) -> bool {
        true
    }

    fn is_durable(&self, _lsn: Lsn) -> bool {
        true
    }

    fn appended(
        _before: &Self,
        _record: &WalRecord,
        _result: &Result<Lsn>,
        _after: &Self,
    ) -> bool {
        true
    }

    fn flushed(_before: &Self, _lsn: Lsn, _result: &Result<()>, _after: &Self) -> bool {
        true
    }

    fn append(&mut self, record: WalRecord) -> Result<Lsn> {
        if self.records.len() >= self.capacity {
            return Err(StorageError::WalWriteFailed("disk full".to_string()));
        }
        self.records.push(record);
        Ok(Lsn(8 * self.records.len() as u64))
    }

    fn flush_to(&mut self, lsn: Lsn) -> Result<()> {
        if !self.flushes {
            return Err(StorageError::WalWriteFailed("no sync".to_string()));
        }
        self.flushed.push(lsn);
        Ok(())
    }
}

fn manager() -> TxnManager<MemoryWal, InMemoryClogAccessor> {
    TxnManager::new(
        TxnIdClock::new(TxnId::first()),
        MemoryWal::new(),
        InMemoryClogAccessor::new(),
    )
}

#[test]
fn att_provider_reports_in_flight_xids() {
    let mut mgr = manager();
    let t1 = mgr.begin_txn();
    let t2 = mgr.begin_txn();
    let t3 = mgr.begin_txn();
    mgr.commit_txn(t2).unwrap();
    assert_eq!(AttProvider::active_xids(&mgr), vec![t1, t3]);
    mgr.abort_txn(t1).unwrap();
    assert_eq!(AttProvider::active_xids(&mgr), vec![t3]);
}

#[test]
fn snapshot_with_empty_active_set() {
    let mgr = manager();
    let snap = mgr.snapshot(TxnId::invalid());
    assert!(snap.xip.is_empty());
    assert_eq!(snap.xmax, TxnId::first());
    assert_eq!(snap.xmin, snap.xmax);
    assert_eq!(snap.curcid, 0);
}

#[test]
fn snapshot_captures_active_set_contents() {
    let mut mgr = manager();
    let t1 = mgr.begin_txn();
    let t2 = mgr.begin_txn();
    let t3 = mgr.begin_txn();

    let snap = mgr.snapshot(t2);
    assert_eq!(snap.xip.to_xids(), [t1, t2, t3], "sorted full copy");
    assert_eq!(snap.xmin, t1, "xmin = smallest active XID");
    assert_eq!(snap.xmax, TxnId(4), "xmax = next unallocated XID");
    assert_eq!(snap.current_xid, t2);
    assert_eq!(snap.curcid, 0);
    for xid in snap.xip.to_xids() {
        assert!(snap.xmin <= xid && xid < snap.xmax);
    }
}

#[test]
fn snapshot_xmin_xmax_boundaries_track_commit() {
    let mut mgr = manager();
    let t1 = mgr.begin_txn();
    let t2 = mgr.begin_txn();
    mgr.commit_txn(t1).unwrap();

    let snap = mgr.snapshot(t2);
    assert_eq!(snap.xip.to_xids(), [t2], "committed XID leaves xip");
    assert_eq!(snap.xmin, t2, "xmin advances past the committed XID");
    assert_eq!(snap.xmax, TxnId(3));

    mgr.commit_txn(t2).unwrap();
    let snap = mgr.snapshot(TxnId::invalid());
    assert!(snap.xip.is_empty());
    assert_eq!(snap.xmin, snap.xmax);
}

#[test]
fn many_transactions_in_progress_are_listed_in_order() {
    let mut mgr = manager();
    let xids: Vec<TxnId> = (0..100).map(|_| mgr.begin_txn()).collect();
    for xid in xids.iter().filter(|x| x.0 % 3 == 0) {
        mgr.commit_txn(*xid).unwrap();
    }
    let left: Vec<TxnId> = xids.into_iter().filter(|x| x.0 % 3 != 0).collect();
    let snap = mgr.snapshot(TxnId::invalid());
    assert_eq!(snap.xip.to_xids(), left);
    assert_eq!(snap.xmin, left[0]);
    assert_eq!(snap.xmax, TxnId(101));
}

#[test]
fn commit_reaches_the_log_before_it_counts() {
    let mut mgr: TxnManager<MemoryWal, InMemoryClogAccessor> = TxnManager::new(
        TxnIdClock::new(TxnId(5)),
        MemoryWal {
            capacity: 1,
            ..MemoryWal::new()
        },
        InMemoryClogAccessor::new(),
    );
    let first = mgr.begin_txn();
    let second = mgr.begin_txn();
    mgr.commit_txn(first).unwrap();
    assert!(!mgr.is_active(first));
    assert!(mgr.commit_txn(second).is_err());
    assert!(mgr.is_active(second));
    assert_eq!(mgr.active_xids(), [second]);
}

#[test]
fn commit_without_a_sync_leaves_the_transaction_open() {
    let mut mgr: TxnManager<MemoryWal, InMemoryClogAccessor> = TxnManager::new(
        TxnIdClock::new(TxnId::first()),
        MemoryWal {
            flushes: false,
            ..MemoryWal::new()
        },
        InMemoryClogAccessor::new(),
    );
    let xid = mgr.begin_txn();
    assert!(mgr.commit_txn(xid).is_err());
    assert!(mgr.is_active(xid));
    assert!(mgr.abort_txn(xid).is_err());
    assert!(mgr.is_active(xid));
}

#[test]
fn end_of_a_transaction_depends_on_its_record() {
    let mut mgr = manager();
    let xid = mgr.begin_txn();
    let failed = Err(StorageError::WalWriteFailed("disk full".to_string()));
    assert!(mgr.finish_txn(xid, TxnState::Committed, failed).is_err());
    assert!(mgr.is_active(xid));
    mgr.finish_txn(xid, TxnState::Committed, Ok(())).unwrap();
    assert!(!mgr.is_active(xid));
}

#[test]
fn row_waits_end_with_the_blocking_transaction() {
    let mut mgr = manager();
    let t1 = mgr.begin_txn();
    let t2 = mgr.begin_txn();
    let t3 = mgr.begin_txn();
    mgr.register_row_wait(t2, t1);
    mgr.register_row_wait(t3, t1);
    assert_eq!(mgr.wait_edges(), [(t2, t1), (t3, t1)]);
    assert_eq!(mgr.wait_for(t2, t2), Err(TxnError::SelfWait(t2)));
    assert_eq!(mgr.wait_for(t2, t1), Ok(WaitStep::Waiting));
    mgr.unregister_row_wait(t3);
    assert_eq!(mgr.wait_edges(), [(t2, t1)]);
    mgr.commit_txn(t1).unwrap();
    assert_eq!(mgr.wait_for(t2, t1), Ok(WaitStep::Done));
    assert!(mgr.wait_edges().is_empty());
    assert!(RowWaiter::is_active(&mgr, t2));
    assert!(!RowWaiter::is_active(&mgr, t1));
}

// Commit logs in memory.

#[test]
fn clog_mem_unknown_xid_reads_in_progress() {
    let clog = InMemoryClogAccessor::new();
    assert_eq!(clog.get_state(TxnId(1)), TxnState::InProgress);
}

#[test]
fn clog_mem_set_then_get_round_trips() {
    let mut clog = InMemoryClogAccessor::new();
    clog.set_state(TxnId(5), TxnState::Committed);
    clog.set_state(TxnId(6), TxnState::Aborted);
    assert_eq!(clog.get_state(TxnId(5)), TxnState::Committed);
    assert_eq!(clog.get_state(TxnId(6)), TxnState::Aborted);
}

#[test]
fn default_is_never_gc_and_gc_is_noop() {
    let mut clog = InMemoryClogAccessor::new();
    assert!(clog.never_gc(), "collection must be off by default");
    clog.set_state(TxnId(1), TxnState::Committed);
    let removed = clog.gc_committed_below(TxnId(100));
    assert_eq!(removed, 0, "GC must be a no-op while never_gc is set");
    assert_eq!(clog.get_state(TxnId(1)), TxnState::Committed);
}

#[test]
fn gc_removes_committed_but_keeps_aborted() {
    let mut clog = InMemoryClogAccessor::with_gc_enabled();
    clog.set_state(TxnId(1), TxnState::Committed);
    clog.set_state(TxnId(2), TxnState::Aborted);
    clog.set_state(TxnId(3), TxnState::Committed);

    let removed = clog.gc_committed_below(TxnId(3));
    assert_eq!(removed, 1);
    assert_eq!(clog.get_state(TxnId(1)), TxnState::InProgress);
    assert_eq!(clog.get_state(TxnId(2)), TxnState::Aborted);
    assert_eq!(clog.get_state(TxnId(3)), TxnState::Committed);
}

#[test]
fn gc_never_removes_aborted_even_below_bound() {
    let mut clog = InMemoryClogAccessor::with_gc_enabled();
    clog.set_state(TxnId(1), TxnState::Aborted);
    let removed = clog.gc_committed_below(TxnId(100));
    assert_eq!(removed, 0);
    assert_eq!(clog.get_state(TxnId(1)), TxnState::Aborted);
}

#[test]
fn aborted_survives_gc_below_checkpoint_bound() {
    let mut clog = InMemoryClogAccessor::with_gc_enabled();
    clog.set_state(TxnId(1), TxnState::Committed);
    clog.set_state(TxnId(2), TxnState::Aborted);
    clog.set_state(TxnId(3), TxnState::Committed);

    let removed = clog.gc_committed_below(TxnId(4));
    assert_eq!(removed, 2);
    assert_eq!(clog.get_state(TxnId(1)), TxnState::InProgress);
    assert_eq!(clog.get_state(TxnId(3)), TxnState::InProgress);
    assert_eq!(clog.get_state(TxnId(2)), TxnState::Aborted);
}

#[test]
fn in_memory_clog_counts_its_entries() {
    let mut clog = InMemoryClogAccessor::with_gc_enabled();
    assert!(clog.is_empty());
    clog.set_state(TxnId(4), TxnState::Committed);
    clog.set_state(TxnId(4), TxnState::Aborted);
    assert_eq!(clog.len(), 1);
    assert_eq!(clog.get_state(TxnId(4)), TxnState::Aborted);
}

// Commit log pages.

#[test]
fn frame_counts_have_limits() {
    assert_eq!((MIN_FRAMES, MAX_FRAMES), (4, 1024));
    assert_eq!(ClogBuffer::open(MIN_FRAMES).frame_count(), MIN_FRAMES);
    assert_eq!(ClogBuffer::open(MAX_FRAMES).frame_count(), MAX_FRAMES);
}

#[test]
fn segments_stay_unsynced_until_reported() {
    let mut store = ClogSegmentStore::new();
    assert!(ClogSegmentStore::needs_growth(CLOG_SEGMENT_BYTES - 1));
    assert!(!ClogSegmentStore::needs_growth(CLOG_SEGMENT_BYTES));
    store.page_written(0);
    store.page_written(16_384);
    store.page_written(1);
    let mut segments = store.unsynced_segments();
    segments.sort();
    assert_eq!(segments, [0, 1]);
    store.segment_synced(0);
    assert_eq!(store.unsynced_segments(), [1]);
    assert_eq!(store.unsynced_segment_count(), 1);
}

#[test]
fn clog_segments_have_numbered_names() {
    assert_eq!(segment_path("/db/clog", 0), "/db/clog/clog-00000000.log");
    assert_eq!(segment_path("/db/clog", 255), "/db/clog/clog-00000255.log");
}

// Visibility.

#[test]
fn everything_sees_live_tuple() {
    let snap = Snapshot::everything();
    let clog = NoOpClogAccessor;
    assert!(is_visible(TxnId(5), TxnId::invalid(), &snap, &clog));
}

#[test]
fn everything_hides_deleted_tuple() {
    let snap = Snapshot::everything();
    let clog = NoOpClogAccessor;
    assert!(!is_visible(TxnId(5), TxnId(6), &snap, &clog));
}

#[test]
fn own_insert_is_visible_even_if_uncommitted() {
    let mut snap = Snapshot::everything();
    snap.current_xid = TxnId(42);
    snap.xmax = TxnId(43);
    snap.xip = XidList::from_xids(&vec![TxnId(42)]);
    let clog = NoOpClogAccessor;
    assert!(is_visible(TxnId(42), TxnId::invalid(), &snap, &clog));
}

#[test]
fn future_inserter_is_invisible() {
    let snap = Snapshot {
        xmin: TxnId(1),
        xmax: TxnId(10),
        xip: XidList::from_xids(&Vec::new()),
        current_xid: TxnId::invalid(),
        curcid: 0,
    };
    let clog = NoOpClogAccessor;
    assert!(!is_visible(TxnId(20), TxnId::invalid(), &snap, &clog));
}

#[test]
fn oracle_future_and_xip_branches() {
    let mut clog = InMemoryClogAccessor::new();
    clog.set_state(TxnId(3), TxnState::Committed);
    let oracle = PgVisibilityOracle::new(clog);
    let snap = Snapshot {
        xmin: TxnId(4),
        xmax: TxnId(10),
        xip: XidList::from_xids(&vec![TxnId(5)]),
        current_xid: TxnId(8),
        curcid: 0,
    };
    assert_eq!(
        oracle.is_visible(TxnId(3), TxnId::invalid(), 0, &snap),
        Visibility::Visible
    );
    assert_eq!(
        oracle.is_visible(TxnId(5), TxnId::invalid(), 0, &snap),
        Visibility::Invisible
    );
    assert_eq!(
        oracle.is_visible(TxnId(10), TxnId::invalid(), 0, &snap),
        Visibility::Invisible
    );
}

#[test]
fn statement_does_not_see_its_own_writes() {
    let oracle = PgVisibilityOracle::new(InMemoryClogAccessor::new());
    let mut snap = Snapshot {
        xmin: TxnId(8),
        xmax: TxnId(10),
        xip: XidList::from_xids(&vec![TxnId(8)]),
        current_xid: TxnId(8),
        curcid: 1,
    };
    let written = 1;
    assert_eq!(
        oracle.is_visible(TxnId(8), TxnId::invalid(), written, &snap),
        Visibility::Invisible
    );
    assert_eq!(snap.advance_curcid(), 2);
    assert_eq!(
        oracle.is_visible(TxnId(8), TxnId::invalid(), written, &snap),
        Visibility::Visible
    );
    assert_eq!(
        oracle.is_visible(TxnId(8), TxnId(8), written, &snap),
        Visibility::Invisible
    );
    let copy = snap.clone();
    assert_eq!(copy.curcid, 2);
    assert_eq!(copy.xip.to_xids(), [TxnId(8)]);
}

#[test]
fn deleter_hides_a_tuple_once_it_committed() {
    let mut clog = InMemoryClogAccessor::new();
    clog.set_state(TxnId(2), TxnState::Committed);
    clog.set_state(TxnId(4), TxnState::Committed);
    clog.set_state(TxnId(5), TxnState::Aborted);
    let oracle = PgVisibilityOracle::new(clog);
    let snap = Snapshot {
        xmin: TxnId(6),
        xmax: TxnId(10),
        xip: XidList::from_xids(&vec![TxnId(6)]),
        current_xid: TxnId::invalid(),
        curcid: 0,
    };
    let judged = |xmax: u64| oracle.is_visible(TxnId(2), TxnId(xmax), 0, &snap);
    assert_eq!(judged(4), Visibility::Invisible);
    assert_eq!(judged(5), Visibility::Visible);
    assert_eq!(judged(6), Visibility::Visible);
    assert_eq!(judged(7), Visibility::Visible);
    assert_eq!(judged(11), Visibility::Visible);
}
