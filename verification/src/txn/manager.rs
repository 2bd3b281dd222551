//! The transaction manager.
//!
//! A transaction gets its XID from [`TxnManager::begin_txn`] and ends with one
//! [`TxnManager::commit_txn`] or [`TxnManager::abort_txn`]. Either takes four steps
//! in this order, so that recovery can rebuild the commit log from the WAL:
//!
//! 1. append the record to the WAL,
//! 2. flush the WAL up to it: here the outcome becomes durable,
//! 3. record the outcome in the commit log,
//! 4. take the XID out of the active set.
//!
//! When step 1 or 2 fails, the commit log is left alone and the transaction stays
//! active. One flush covers everything that the transaction appended before.

use std::collections::{HashMap, HashSet};

use vstd::prelude::*;

use crate::clog::{ClogAccessor, TxnState};
use crate::error::{Result, StorageError};
use crate::keys::{lists, sorted_keys, sorted_members};
use crate::recovery::{lists_xids, AttProvider};
use crate::txn::snapshot::{Snapshot, XidList};
use crate::txn::visibility::{
    committed_work_is_seen, uncommitted_work_is_not_seen, PgVisibilityOracle, VisibilityOracle,
};
use crate::txn_id::TxnIdClock;
use crate::types::{Lsn, TxnId};
use crate::wal::record::{unplaced, RecordView, WalRecord, WalRecordType};
use crate::wire::varint;

verus! {

/// What the end of a transaction needs of the WAL: append a record and flush it.
pub trait CommitWal {
    /// The log holds `record` at `lsn`.
    spec fn holds(&self, lsn: Lsn, record: &WalRecord) -> bool;

    /// What the log holds at `lsn`, and before, is on disk.
    spec fn is_durable(&self, lsn: Lsn) -> bool;

    /// Appending `record` to the log `before` came to `result` and left `after`.
    spec fn appended(
        before: &Self,
        record: &WalRecord,
        result: &Result<Lsn>,
        after: &Self,
    ) -> bool;

    /// Flushing the log `before` up to `lsn` came to `result` and left `after`.
    spec fn flushed(before: &Self, lsn: Lsn, result: &Result<()>, after: &Self) -> bool;

    /// Appends `record` and returns where.
    fn append(&mut self, record: WalRecord) -> (result: Result<Lsn>)
        ensures
            Self::appended(old(self), &record, &result, final(self)),
            result matches Ok(lsn) ==> final(self).holds(lsn, &record),
    ;

    /// Flushes the log up to and including what is at `lsn`.
    fn flush_to(&mut self, lsn: Lsn) -> (result: Result<()>)
        ensures
            Self::flushed(old(self), lsn, &result, final(self)),
            result is Ok ==> final(self).is_durable(lsn),
            forall|at: Lsn, record: &WalRecord|
                old(self).holds(at, record) ==> #[trigger] final(self).holds(at, record),
    ;
}

/// A record with these contents is on disk.
pub open spec fn is_logged<W: CommitWal>(wal: W, contents: RecordView) -> bool {
    exists|lsn: Lsn, record: &WalRecord| #[trigger]
        wal.holds(lsn, record) && record@ == contents && wal.is_durable(lsn)
}

/// A record with these contents was appended to the log `before` and, where that
/// gave an LSN, the log was flushed up to that LSN. `result` is what the log
/// answered: the error of the append, or else what the flush came to. The log is
/// left as `after`.
pub open spec fn logs_end<W: CommitWal>(
    before: W,
    contents: RecordView,
    result: Result<()>,
    after: W,
) -> bool {
    exists|record: &WalRecord, place: Result<Lsn>, between: W|
        {
            &&& #[trigger] W::appended(&before, record, &place, &between)
            &&& record@ == contents
            &&& match place {
                Ok(lsn) => W::flushed(&between, lsn, &result, &after),
                Err(e) => result == Err::<(), StorageError>(e) && after == between,
            }
        }
}

/// Appends `record` to the log and flushes the log up to it.
fn log_durably<W: CommitWal>(wal: &mut W, record: WalRecord) -> (result: Result<()>)
    ensures
        logs_end(*old(wal), record@, result, *final(wal)),
        result is Ok ==> is_logged(*final(wal), record@),
{
    let ghost kept = record;
    let place = wal.append(record);
    assert(W::appended(old(wal), &kept, &place, wal));
    match place {
        Ok(lsn) => {
            assert(wal.holds(lsn, &kept));
            let flushed = wal.flush_to(lsn);
            assert(wal.holds(lsn, &kept));
            flushed
        },
        Err(e) => Err(e),
    }
}

/// Logs the commit of `xid` durably. The outcome is for
/// [`TxnManager::finish_txn`], so that other transactions need not wait for the flush.
pub fn log_commit<W: CommitWal>(wal: &mut W, xid: TxnId) -> (result: Result<()>)
    ensures
        logs_end(
            *old(wal),
            unplaced(WalRecordType::TxnCommit, 0, varint(xid.0)),
            result,
            *final(wal),
        ),
        result is Ok ==> is_logged(
            *final(wal),
            unplaced(WalRecordType::TxnCommit, 0, varint(xid.0)),
        ),
{
    let record = WalRecord::txn_commit(xid)?;
    log_durably(wal, record)
}

/// Logs the abort of `xid` durably. The outcome is for
/// [`TxnManager::finish_txn`], so that other transactions need not wait for the flush.
pub fn log_abort<W: CommitWal>(wal: &mut W, xid: TxnId) -> (result: Result<()>)
    ensures
        logs_end(
            *old(wal),
            unplaced(WalRecordType::TxnAbort, 0, varint(xid.0)),
            result,
            *final(wal),
        ),
        result is Ok ==> is_logged(
            *final(wal),
            unplaced(WalRecordType::TxnAbort, 0, varint(xid.0)),
        ),
{
    let record = WalRecord::txn_abort(xid)?;
    log_durably(wal, record)
}

/// Errors of waiting for a transaction.
#[derive(Debug, Clone, Copy, PartialEq, Eq, Structural)]
pub enum TxnError {
    /// A transaction was to wait for itself.
    SelfWait(TxnId),
}

/// What waiting for a transaction comes to.
#[derive(Debug, Clone, Copy, PartialEq, Eq, Structural)]
pub enum WaitStep {
    /// The transaction is over.
    Done,
    /// The transaction is in progress: ask again when a transaction has ended.
    Waiting,
}

/// Waiting for the transaction that has a row locked.
pub trait RowWaiter {
    /// The transaction that `waiter` waits for.
    spec fn waits_for(&self, waiter: TxnId) -> Option<TxnId>;

    /// `xid` is in progress.
    spec fn is_live(&self, xid: TxnId) -> bool;

    /// Notes that `self_xid` is about to wait for `blocking_xid`.
    fn register_row_wait(&mut self, self_xid: TxnId, blocking_xid: TxnId)
        ensures
            forall|xid: TxnId| #[trigger]
                final(self).waits_for(xid) == if xid == self_xid {
                    Some(blocking_xid)
                } else {
                    old(self).waits_for(xid)
                },
            forall|xid: TxnId| #[trigger] final(self).is_live(xid) == old(self).is_live(xid),
    ;

    /// Forgets what `self_xid` waits for.
    fn unregister_row_wait(&mut self, self_xid: TxnId)
        ensures
            forall|xid: TxnId| #[trigger]
                final(self).waits_for(xid) == if xid == self_xid {
                    None
                } else {
                    old(self).waits_for(xid)
                },
            forall|xid: TxnId| #[trigger] final(self).is_live(xid) == old(self).is_live(xid),
    ;

    /// Waits for `blocking_xid`: done, and what `self_xid` waits for forgotten, once
    /// that transaction is over.
    fn wait_for(&mut self, self_xid: TxnId, blocking_xid: TxnId) -> (result: std::result::Result<
        WaitStep,
        TxnError,
    >)
        ensures
            result is Err <==> self_xid == blocking_xid,
            result matches Err(e) ==> e == TxnError::SelfWait(self_xid),
            result matches Ok(step) ==> (step is Done <==> !old(self).is_live(blocking_xid)),
            forall|xid: TxnId| #[trigger]
                final(self).waits_for(xid) == if result == Ok::<WaitStep, TxnError>(WaitStep::Done)
                    && xid == self_xid {
                    None
                } else {
                    old(self).waits_for(xid)
                },
            forall|xid: TxnId| #[trigger] final(self).is_live(xid) == old(self).is_live(xid),
    ;

    /// Whether `xid` is in progress.
    fn is_active(&self, xid: TxnId) -> (yes: bool)
        ensures
            yes <==> self.is_live(xid),
    ;
}

/// Gives out XIDs, ends transactions durably, takes snapshots.
pub struct TxnManager<W: CommitWal, C: ClogAccessor> {
    clock: TxnIdClock,
    wal: W,
    clog: C,
    active: HashSet<u64>,
    row_waits: HashMap<u64, u64>,
    first: Ghost<TxnId>,
    ended: Ghost<Map<u64, TxnState>>,
}

/// `edges` lists the pairs of `waits`, by ascending waiter.
pub open spec fn lists_waits(edges: Seq<(TxnId, TxnId)>, waits: Map<u64, u64>) -> bool {
    &&& lists(Seq::new(edges.len(), |i: int| edges[i].0.0), waits.dom())
    &&& forall|i: int| 0 <= i < edges.len() ==> (#[trigger] edges[i]).1.0 == waits[edges[i].0.0]
}

impl<W: CommitWal, C: ClogAccessor> TxnManager<W, C> {
    /// The first XID that this manager gave out.
    pub closed spec fn first_xid(&self) -> TxnId {
        self.first@
    }

    /// The XID that comes next.
    pub closed spec fn next_xid(&self) -> TxnId {
        self.clock.now()
    }

    /// The transactions in progress.
    pub closed spec fn active(&self) -> Set<u64> {
        self.active@
    }

    /// The transactions that ended, and how.
    pub closed spec fn ended(&self) -> Map<u64, TxnState> {
        self.ended@
    }

    /// Which transaction waits for which.
    pub closed spec fn row_waits(&self) -> Map<u64, u64> {
        self.row_waits@
    }

    /// The WAL.
    pub closed spec fn wal(&self) -> W {
        self.wal
    }

    /// The commit log.
    pub closed spec fn clog(&self) -> C {
        self.clog
    }

    /// Every XID that was given out is either active or ended, and no other is
    /// active.
    pub open spec fn wf(&self) -> bool {
        &&& self.first_xid().0 <= self.next_xid().0
        &&& forall|xid: u64| #[trigger]
            self.active().contains(xid) ==> self.first_xid().0 <= xid < self.next_xid().0
        &&& forall|xid: u64|
            self.first_xid().0 <= xid < self.next_xid().0 ==> self.active().contains(xid)
                || #[trigger] self.ended().contains_key(xid)
    }

    /// Nothing but the WAL differs from `before`.
    pub open spec fn same_but_wal(&self, before: &Self) -> bool {
        &&& self.first_xid() == before.first_xid()
        &&& self.next_xid() == before.next_xid()
        &&& self.active() == before.active()
        &&& self.ended() == before.ended()
        &&& self.row_waits() == before.row_waits()
        &&& self.clog() == before.clog()
    }

    /// `xid` has ended, and nothing else differs from `before` but the WAL.
    pub open spec fn has_ended(&self, before: &Self, xid: TxnId, state: TxnState) -> bool {
        &&& self.first_xid() == before.first_xid()
        &&& self.next_xid() == before.next_xid()
        &&& self.active() == before.active().remove(xid.0)
        &&& self.ended() == before.ended().insert(xid.0, state)
        &&& self.row_waits() == before.row_waits()
        &&& C::recorded(&before.clog(), xid, state, &self.clog())
    }

    /// The snapshot shows what `current_xid` is to see now.
    pub open spec fn shows(&self, current_xid: TxnId, snapshot: Snapshot) -> bool {
        &&& lists(snapshot.xip@, self.active())
        &&& snapshot.xmax == self.next_xid()
        &&& snapshot.xmin.0 == if snapshot.xip@.len() > 0 {
            snapshot.xip@[0]
        } else {
            snapshot.xmax.0
        }
        &&& snapshot.current_xid == current_xid
        &&& snapshot.curcid == 0
    }

    /// A manager without transactions.
    pub fn new(txn_id_clock: TxnIdClock, wal: W, clog: C) -> (manager: Self)
        ensures
            manager.wf(),
            manager.first_xid() == txn_id_clock.now(),
            manager.next_xid() == txn_id_clock.now(),
            manager.active() == Set::<u64>::empty(),
            manager.ended() == Map::<u64, TxnState>::empty(),
            manager.row_waits() == Map::<u64, u64>::empty(),
            manager.wal() == wal,
            manager.clog() == clog,
    {
        let ghost first = txn_id_clock.now();
        TxnManager {
            clock: txn_id_clock,
            wal,
            clog,
            active: HashSet::new(),
            row_waits: HashMap::new(),
            first: Ghost(first),
            ended: Ghost(Map::empty()),
        }
    }

    /// The clock that XIDs are given out from; checkpoints record what it is at.
    pub fn xid_clock(&self) -> (clock: &TxnIdClock)
        ensures
            clock.now() == self.next_xid(),
    {
        &self.clock
    }

    /// Begins a transaction: gives out the next XID, which is active from then on.
    pub fn begin_txn(&mut self) -> (xid: TxnId)
        requires
            old(self).wf(),
            old(self).next_xid().0 < u64::MAX,
        ensures
            final(self).wf(),
            xid == old(self).next_xid(),
            final(self).first_xid() == old(self).first_xid(),
            final(self).next_xid().0 == xid.0 + 1,
            final(self).active() == old(self).active().insert(xid.0),
            final(self).ended() == old(self).ended(),
            final(self).row_waits() == old(self).row_waits(),
            final(self).wal() == old(self).wal(),
            final(self).clog() == old(self).clog(),
    {
        broadcast use vstd::std_specs::hash::group_hash_axioms;

        let xid = self.clock.allocate();
        self.active.insert(xid.0);
        assert forall|x: u64| #[trigger] self.active().contains(x) implies self.first_xid().0 <= x
            < self.next_xid().0 by {
            assert(x == xid.0 || old(self).active().contains(x));
        }
        assert forall|x: u64|
            self.first_xid().0 <= x < self.next_xid().0 implies self.active().contains(x)
            || #[trigger] self.ended().contains_key(x) by {
            assert(x == xid.0 || old(self).active().contains(x) || old(self).ended().contains_key(x));
        }
        xid
    }

    /// Commits `xid`: logs it durably, records it in the commit log, and takes `xid`
    /// out of the active set. When the WAL fails, its error is returned and only the
    /// WAL may have changed.
    pub fn commit_txn(&mut self, xid: TxnId) -> (result: Result<()>)
        requires
            old(self).wf(),
        ensures
            final(self).wf(),
            logs_end(
                old(self).wal(),
                unplaced(WalRecordType::TxnCommit, 0, varint(xid.0)),
                result,
                final(self).wal(),
            ),
            result is Ok ==> final(self).has_ended(old(self), xid, TxnState::Committed),
            result is Ok ==> is_logged(
                final(self).wal(),
                unplaced(WalRecordType::TxnCommit, 0, varint(xid.0)),
            ),
            result is Err ==> final(self).same_but_wal(old(self)),
    {
        let record = WalRecord::txn_commit(xid)?;
        let logged = self.log_end(record);
        self.finish_txn(xid, TxnState::Committed, logged)
    }

    /// Aborts `xid`: logs it durably, records it in the commit log, and takes `xid`
    /// out of the active set. When the WAL fails, its error is returned and only the
    /// WAL may have changed.
    pub fn abort_txn(&mut self, xid: TxnId) -> (result: Result<()>)
        requires
            old(self).wf(),
        ensures
            final(self).wf(),
            logs_end(
                old(self).wal(),
                unplaced(WalRecordType::TxnAbort, 0, varint(xid.0)),
                result,
                final(self).wal(),
            ),
            result is Ok ==> final(self).has_ended(old(self), xid, TxnState::Aborted),
            result is Ok ==> is_logged(
                final(self).wal(),
                unplaced(WalRecordType::TxnAbort, 0, varint(xid.0)),
            ),
            result is Err ==> final(self).same_but_wal(old(self)),
    {
        let record = WalRecord::txn_abort(xid)?;
        let logged = self.log_end(record);
        self.finish_txn(xid, TxnState::Aborted, logged)
    }

    /// Appends `record` to the WAL and flushes the WAL up to it.
    fn log_end(&mut self, record: WalRecord) -> (result: Result<()>)
        ensures
            logs_end(old(self).wal(), record@, result, final(self).wal()),
            final(self).same_but_wal(old(self)),
            result is Ok ==> is_logged(final(self).wal(), record@),
    {
        log_durably(&mut self.wal, record)
    }

    /// What the end of a transaction comes to, once it is known whether its record
    /// was `logged` durably: only then is `state` recorded in the commit log, and
    /// `xid` taken out of the active set.
    pub fn finish_txn(&mut self, xid: TxnId, state: TxnState, logged: Result<()>) -> (result:
        Result<()>)
        requires
            old(self).wf(),
        ensures
            final(self).wf(),
            result == logged,
            logged is Ok ==> final(self).has_ended(old(self), xid, state),
            logged is Err ==> *final(self) == *old(self),
            final(self).wal() == old(self).wal(),
    {
        broadcast use vstd::std_specs::hash::group_hash_axioms;

        if logged.is_ok() {
            self.clog.set_state(xid, state);
            self.active.remove(&xid.0);
            self.ended = Ghost(self.ended@.insert(xid.0, state));
            assert forall|x: u64| #[trigger] self.active().contains(x) implies self.first_xid().0
                <= x < self.next_xid().0 by {
                assert(old(self).active().contains(x));
            }
            assert forall|x: u64|
                self.first_xid().0 <= x < self.next_xid().0 implies self.active().contains(x)
                || #[trigger] self.ended().contains_key(x) by {
                assert(old(self).active().contains(x) || old(self).ended().contains_key(x));
            }
        }
        logged
    }

    /// Which transaction waits for which, by ascending waiter.
    pub fn wait_edges(&self) -> (edges: Vec<(TxnId, TxnId)>)
        ensures
            lists_waits(edges@, self.row_waits()),
    {
        broadcast use vstd::std_specs::hash::group_hash_axioms;

        let waiters = sorted_keys(&self.row_waits);
        let mut edges: Vec<(TxnId, TxnId)> = Vec::new();
        let mut i: usize = 0;
        while i < waiters.len()
            invariant
                i <= waiters.len(),
                lists(waiters@, self.row_waits@.dom()),
                edges@.len() == i,
                forall|k: int|
                    0 <= k < i ==> (#[trigger] edges@[k]).0.0 == waiters@[k] && edges@[k].1.0
                        == self.row_waits@[waiters@[k]],
            decreases waiters.len() - i,
        {
            broadcast use vstd::std_specs::hash::group_hash_axioms;

            let waiter: u64 = waiters[i];
            assert(waiters@.contains(waiter));
            if let Some(blocking) = self.row_waits.get(&waiter) {
                edges.push((TxnId(waiter), TxnId(*blocking)));
            }
            i += 1;
        }
        assert(Seq::new(edges@.len(), |k: int| edges@[k].0.0) =~= waiters@);
        edges
    }

    /// A snapshot for the transaction `current_xid`: it sees what had ended, as far
    /// as it committed, and nothing of what is in progress or begins later.
    pub fn snapshot(&self, current_xid: TxnId) -> (snapshot: Snapshot)
        requires
            self.wf(),
        ensures
            lists(snapshot.xip@, self.active()),
            snapshot.xmax == self.next_xid(),
            snapshot.xmin.0 == if snapshot.xip@.len() > 0 {
                snapshot.xip@[0]
            } else {
                snapshot.xmax.0
            },
            snapshot.current_xid == current_xid,
            snapshot.curcid == 0,
            forall|i: int|
                0 <= i < snapshot.xip@.len() ==> snapshot.xmin.0 <= #[trigger] snapshot.xip@[i]
                    < snapshot.xmax.0,
            forall|xid: u64|
                self.first_xid().0 <= xid < snapshot.xmax.0 ==> #[trigger] snapshot.xip@.contains(
                    xid,
                ) || self.ended().contains_key(xid),
            self.shows(current_xid, snapshot),
    {
        let xmax = self.clock.current();
        let active = sorted_members(&self.active);
        let mut xip = XidList::new();
        let mut i: usize = 0;
        while i < active.len()
            invariant
                i <= active.len(),
                xip@ == active@.take(i as int),
            decreases active.len() - i,
        {
            xip.push(active[i]);
            i += 1;
            assert(xip@ =~= active@.take(i as int));
        }
        assert(active@.take(i as int) =~= active@);
        let xmin = if xip.len() > 0 {
            TxnId(xip.get(0))
        } else {
            xmax
        };
        assert forall|i: int| 0 <= i < xip@.len() implies xmin.0 <= #[trigger] xip@[i]
            < xmax.0 by {
            assert(xip@.contains(xip@[i]));
            assert(self.active().contains(xip@[i]));
        }
        assert forall|xid: u64|
            self.first_xid().0 <= xid < xmax.0 implies #[trigger] xip@.contains(xid)
            || self.ended().contains_key(xid) by {
            assert(self.active().contains(xid) || self.ended().contains_key(xid));
        }
        Snapshot { xmin, xmax, xip, current_xid, curcid: 0 }
    }

    /// Notes that `self_xid` is about to wait for `blocking_xid`, in place of what it
    /// waited for before.
    pub fn register_row_wait(&mut self, self_xid: TxnId, blocking_xid: TxnId)
        ensures
            final(self).row_waits() == old(self).row_waits().insert(self_xid.0, blocking_xid.0),
            final(self).first_xid() == old(self).first_xid(),
            final(self).next_xid() == old(self).next_xid(),
            final(self).active() == old(self).active(),
            final(self).ended() == old(self).ended(),
            final(self).wal() == old(self).wal(),
            final(self).clog() == old(self).clog(),
    {
        broadcast use vstd::std_specs::hash::group_hash_axioms;

        self.row_waits.insert(self_xid.0, blocking_xid.0);
    }

    /// Forgets what `self_xid` waits for.
    pub fn unregister_row_wait(&mut self, self_xid: TxnId)
        ensures
            final(self).row_waits() == old(self).row_waits().remove(self_xid.0),
            final(self).first_xid() == old(self).first_xid(),
            final(self).next_xid() == old(self).next_xid(),
            final(self).active() == old(self).active(),
            final(self).ended() == old(self).ended(),
            final(self).wal() == old(self).wal(),
            final(self).clog() == old(self).clog(),
    {
        broadcast use vstd::std_specs::hash::group_hash_axioms;

        self.row_waits.remove(&self_xid.0);
    }

    /// Waits for `blocking_xid`: done, and what `self_xid` waits for forgotten, once
    /// that transaction is over. The caller asks again whenever a transaction ends.
    pub fn wait_for(&mut self, self_xid: TxnId, blocking_xid: TxnId) -> (result: std::result::Result<
        WaitStep,
        TxnError,
    >)
        ensures
            result is Err <==> self_xid == blocking_xid,
            result matches Err(e) ==> e == TxnError::SelfWait(self_xid),
            result matches Ok(step) ==> (step is Done <==> !old(self).active().contains(
                blocking_xid.0,
            )),
            final(self).row_waits() == if result == Ok::<WaitStep, TxnError>(WaitStep::Done) {
                old(self).row_waits().remove(self_xid.0)
            } else {
                old(self).row_waits()
            },
            final(self).first_xid() == old(self).first_xid(),
            final(self).next_xid() == old(self).next_xid(),
            final(self).active() == old(self).active(),
            final(self).ended() == old(self).ended(),
            final(self).wal() == old(self).wal(),
            final(self).clog() == old(self).clog(),
    {
        broadcast use vstd::std_specs::hash::group_hash_axioms;

        if self_xid == blocking_xid {
            return Err(TxnError::SelfWait(self_xid));
        }
        if self.is_active(blocking_xid) {
            return Ok(WaitStep::Waiting);
        }
        self.row_waits.remove(&self_xid.0);
        Ok(WaitStep::Done)
    }

    /// Whether `xid` is in progress.
    pub fn is_active(&self, xid: TxnId) -> (yes: bool)
        ensures
            yes <==> self.active().contains(xid.0),
    {
        broadcast use vstd::std_specs::hash::group_hash_axioms;

        self.active.contains(&xid.0)
    }

    /// The transactions in progress, ascending.
    pub fn active_xids(&self) -> (xids: Vec<TxnId>)
        ensures
            lists_xids(xids@, self.active()),
    {
        let active = sorted_members(&self.active);
        let mut xids: Vec<TxnId> = Vec::new();
        let mut i: usize = 0;
        while i < active.len()
            invariant
                i <= active.len(),
                xids@.len() == i,
                forall|k: int| 0 <= k < i ==> (#[trigger] xids@[k]).0 == active@[k],
            decreases active.len() - i,
        {
            xids.push(TxnId(active[i]));
            i += 1;
        }
        assert(Seq::new(xids@.len(), |k: int| xids@[k].0) =~= active@);
        xids
    }
}

/// The end of a transaction is noted: it is no longer in progress, the commit log has its
/// outcome, and every other transaction is in progress, or has ended, as before.
pub proof fn ended_transaction_is_noted<W: CommitWal, C: ClogAccessor>(
    before: &TxnManager<W, C>,
    xid: TxnId,
    state: TxnState,
    after: &TxnManager<W, C>,
    other: u64,
)
    requires
        after.has_ended(before, xid, state),
    ensures
        !after.active().contains(xid.0),
        after.ended().contains_key(xid.0) && after.ended()[xid.0] == state,
        C::recorded(&before.clog(), xid, state, &after.clog()),
        other != xid.0 ==> after.active().contains(other) == before.active().contains(other),
        other != xid.0 ==> after.ended().contains_key(other) == before.ended().contains_key(other)
            && after.ended()[other] == before.ended()[other],
        after.next_xid() == before.next_xid(),
        after.row_waits() == before.row_waits(),
{
}

/// A failed end changes nothing but the WAL: the transaction is still in progress, and the
/// commit log is as it was.
pub proof fn failed_end_changes_nothing<W: CommitWal, C: ClogAccessor>(
    before: &TxnManager<W, C>,
    after: &TxnManager<W, C>,
)
    requires
        after.same_but_wal(before),
    ensures
        after.active() == before.active(),
        after.clog() == before.clog(),
        after.ended() == before.ended(),
        after.next_xid() == before.next_xid(),
        after.row_waits() == before.row_waits(),
{
}

/// What a snapshot of the manager shows to its transaction: of every other transaction, exactly
/// what it did if it is over and committed when the snapshot is taken. A tuple inserted by one
/// that is in progress, or begins later, is invisible, and one that such a transaction deletes
/// is still there.
pub proof fn snapshot_shows_what_was_committed<W: CommitWal, C: ClogAccessor>(
    manager: &TxnManager<W, C>,
    current_xid: TxnId,
    snapshot: Snapshot,
    oracle: PgVisibilityOracle<C>,
    other: TxnId,
    xid: TxnId,
    t_cid: u32,
)
    requires
        manager.shows(current_xid, snapshot),
        oracle.clog == manager.clog(),
        other != current_xid,
    ensures
        ({
            let over = other.0 < manager.next_xid().0 && !manager.active().contains(other.0);
            let committed = oracle.clog.state_of(other) == TxnState::Committed;
            &&& over && committed ==> oracle.judges_visible(other, TxnId(0), t_cid, snapshot)
            &&& over && committed && other.0 != 0 ==> !oracle.judges_visible(
                xid,
                other,
                t_cid,
                snapshot,
            )
            &&& !over || !committed ==> !oracle.judges_visible(other, xid, t_cid, snapshot)
            &&& !over || !committed ==> oracle.judges_visible(xid, other, t_cid, snapshot)
                == oracle.judges_visible(xid, TxnId(0), t_cid, snapshot)
        }),
        snapshot.current_xid == current_xid,
        snapshot.curcid == 0,
        forall|k: u64| #[trigger] snapshot.xip@.contains(k) <==> manager.active().contains(k),
        forall|i: int, j: int|
            0 <= i < j < snapshot.xip@.len() ==> snapshot.xip@[i] < snapshot.xip@[j],
        forall|k: u64| manager.active().contains(k) ==> snapshot.xmin.0 <= k,
{
    let listed = snapshot.xip@;
    assert(listed.contains(other.0) <==> manager.active().contains(other.0));
    assert forall|k: u64| manager.active().contains(k) implies snapshot.xmin.0 <= k by {
        assert(listed.contains(k));
        let i = choose|i: int| 0 <= i < listed.len() && listed[i] == k;
        if i > 0 {
            assert(listed[0] < listed[i]);
        }
    }
    let place = if listed.contains(other.0) {
        choose|i: int| 0 <= i < listed.len() && listed[i] == other.0
    } else {
        0
    };
    if other.0 < snapshot.xmax.0 && !listed.contains(other.0) && oracle.clog.state_of(other)
        == TxnState::Committed {
        committed_work_is_seen(oracle, other, xid, t_cid, snapshot);
    } else {
        uncommitted_work_is_not_seen(oracle, other, xid, t_cid, snapshot, place);
    }
}

impl<W: CommitWal, C: ClogAccessor> AttProvider for TxnManager<W, C> {
    open spec fn in_progress(&self, xid: TxnId) -> bool {
        self.active().contains(xid.0)
    }

    fn active_xids(&self) -> (xids: Vec<TxnId>) {
        assert(Set::new(|xid: u64| self.in_progress(TxnId(xid))) =~= self.active());
        TxnManager::active_xids(self)
    }
}

impl<W: CommitWal, C: ClogAccessor> RowWaiter for TxnManager<W, C> {
    open spec fn waits_for(&self, waiter: TxnId) -> Option<TxnId> {
        if self.row_waits().contains_key(waiter.0) {
            Some(TxnId(self.row_waits()[waiter.0]))
        } else {
            None
        }
    }

    open spec fn is_live(&self, xid: TxnId) -> bool {
        self.active().contains(xid.0)
    }

    fn register_row_wait(&mut self, self_xid: TxnId, blocking_xid: TxnId) {
        TxnManager::register_row_wait(self, self_xid, blocking_xid);
    }

    fn unregister_row_wait(&mut self, self_xid: TxnId) {
        TxnManager::unregister_row_wait(self, self_xid);
    }

    fn wait_for(&mut self, self_xid: TxnId, blocking_xid: TxnId) -> (result: std::result::Result<
        WaitStep,
        TxnError,
    >) {
        TxnManager::wait_for(self, self_xid, blocking_xid)
    }

    fn is_active(&self, xid: TxnId) -> (yes: bool) {
        TxnManager::is_active(self, xid)
    }
}

/// The list of who waits for whom names each waiter once, ascending, with the transaction that
/// it waits for.
pub proof fn waits_are_listed(
    edges: Seq<(TxnId, TxnId)>,
    waits: Map<u64, u64>,
    waiter: u64,
    blocking: u64,
)
    requires
        lists_waits(edges, waits),
    ensures
        waits.contains_key(waiter) && waits[waiter] == blocking <==> exists|i: int|
            0 <= i < edges.len() && #[trigger] edges[i] == (TxnId(waiter), TxnId(blocking)),
        forall|i: int, j: int|
            0 <= i < j < edges.len() ==> (#[trigger] edges[i]).0.0 < (#[trigger] edges[j]).0.0,
{
    let plain = Seq::new(edges.len(), |i: int| edges[i].0.0);
    assert(plain.contains(waiter) <==> waits.dom().contains(waiter));
    if waits.contains_key(waiter) && waits[waiter] == blocking {
        let i = choose|i: int| 0 <= i < plain.len() && plain[i] == waiter;
        assert(edges[i] == (TxnId(waiter), TxnId(blocking)));
    }
    if exists|i: int|
        0 <= i < edges.len() && #[trigger] edges[i] == (TxnId(waiter), TxnId(blocking)) {
        let i = choose|i: int|
            0 <= i < edges.len() && #[trigger] edges[i] == (TxnId(waiter), TxnId(blocking));
        assert(plain[i] == waiter);
    }
    assert forall|i: int, j: int| 0 <= i < j < edges.len() implies (#[trigger] edges[i]).0.0 < (
    #[trigger] edges[j]).0.0 by {
        assert(plain[i] < plain[j]);
    }
}

/// The manager waits by what is on record: a transaction waits for the one that was noted, if
/// any, and lives as long as it is in progress.
pub proof fn noted_waits_are_asked_for<W: CommitWal, C: ClogAccessor>(
    manager: &TxnManager<W, C>,
    waiter: TxnId,
    blocking: TxnId,
)
    ensures
        manager.waits_for(waiter) == Some(blocking) <==> manager.row_waits().contains_key(waiter.0)
            && manager.row_waits()[waiter.0] == blocking.0,
        manager.waits_for(waiter) is None <==> !manager.row_waits().contains_key(waiter.0),
        manager.is_live(waiter) <==> manager.active().contains(waiter.0),
        manager.in_progress(waiter) <==> manager.active().contains(waiter.0),
{
}

/// The end of a transaction is logged by an append and a flush: it succeeds only if the record
/// was appended and then everything up to where it stands was flushed, and where the append
/// fails, that error is the answer and nothing is flushed.
pub proof fn end_is_appended_and_flushed<W: CommitWal>(
    before: W,
    contents: RecordView,
    result: Result<()>,
    after: W,
)
    requires
        logs_end(before, contents, result, after),
    ensures
        result is Ok ==> exists|record: &WalRecord, lsn: Lsn, between: W|
            record@ == contents && #[trigger] W::appended(
                &before,
                record,
                &Ok::<Lsn, StorageError>(lsn),
                &between,
            ) && W::flushed(&between, lsn, &result, &after),
        (forall|record: &WalRecord, lsn: Lsn, between: W|
            record@ == contents ==> !(#[trigger] W::appended(
                &before,
                record,
                &Ok::<Lsn, StorageError>(lsn),
                &between,
            ))) ==> exists|record: &WalRecord|
            record@ == contents && result is Err && #[trigger] W::appended(
                &before,
                record,
                &Err::<Lsn, StorageError>(result->Err_0),
                &after,
            ),
{
    let (record, place, between) = choose|record: &WalRecord, place: Result<Lsn>, between: W|
        {
            &&& #[trigger] W::appended(&before, record, &place, &between)
            &&& record@ == contents
            &&& match place {
                Ok(lsn) => W::flushed(&between, lsn, &result, &after),
                Err(e) => result == Err::<(), StorageError>(e) && after == between,
            }
        };
    if place is Ok {
        assert(W::appended(&before, record, &Ok::<Lsn, StorageError>(place->Ok_0), &between));
    } else {
        assert(W::appended(&before, record, &Err::<Lsn, StorageError>(result->Err_0), &after));
    }
}

/// A record that is logged is held by the log, at a place that is on disk.
pub proof fn logged_record_is_on_disk<W: CommitWal>(wal: W, contents: RecordView)
    requires
        is_logged(wal, contents),
    ensures
        exists|lsn: Lsn, record: &WalRecord| #[trigger]
            wal.holds(lsn, record) && wal.is_durable(lsn) && record@ == contents,
{
}

} // verus!
