//! Table-level locks.
//!
//! Four modes, which conflict as follows:
//!
//! | Mode              | Conflicts with                                  |
//! |-------------------|-------------------------------------------------|
//! | `AccessShare`     | `AccessExclusive`                               |
//! | `RowExclusive`    | `Exclusive`, `AccessExclusive`                  |
//! | `Exclusive`       | `RowExclusive`, `Exclusive`, `AccessExclusive`  |
//! | `AccessExclusive` | everything                                      |
//!
//! A request waits when its mode conflicts with a mode that another transaction
//! holds, or when anyone is queued before it: once somebody waits, later requests
//! wait behind them, so that nobody starves. Locks are held to the end of the
//! transaction. Asking for a stronger mode upgrades the lock in place; the old
//! mode is kept while the upgrade waits.

use std::collections::{HashMap, VecDeque};

use vstd::prelude::*;

use crate::keys::{lists, sorted_keys, walk_grows};
use crate::types::{Oid, TxnId};

verus! {

/// Errors of the lock manager.
#[derive(Debug, Clone, Copy, PartialEq, Eq, Structural)]
pub enum LockError {
    /// The transaction was chosen to break a deadlock. Reserved for a deadlock
    /// detector.
    DeadlockVictim(TxnId),
}

/// The result of asking for a lock.
pub type LockResult<T> = std::result::Result<T, LockError>;

/// The table-level lock modes, by growing strength.
#[derive(Debug, Clone, Copy, PartialEq, Eq, PartialOrd, Ord, Hash, Structural)]
pub enum LockMode {
    /// Reading.
    AccessShare,
    /// Inserting, updating, deleting.
    RowExclusive,
    /// Creating an index.
    Exclusive,
    /// Changing or dropping the table.
    AccessExclusive,
}

/// How strong a mode is.
pub open spec fn strength(mode: LockMode) -> int {
    match mode {
        LockMode::AccessShare => 0,
        LockMode::RowExclusive => 1,
        LockMode::Exclusive => 2,
        LockMode::AccessExclusive => 3,
    }
}

/// Whether two modes exclude each other.
pub open spec fn conflict(a: LockMode, b: LockMode) -> bool {
    ||| a == LockMode::AccessExclusive || b == LockMode::AccessExclusive
    ||| a == LockMode::Exclusive && strength(b) >= 1
    ||| b == LockMode::Exclusive && strength(a) >= 1
}

/// Conflicts are mutual.
pub proof fn conflict_is_symmetric(a: LockMode, b: LockMode)
    ensures
        conflict(a, b) == conflict(b, a),
{
}

/// A stronger mode conflicts with everything that a weaker one conflicts with.
pub proof fn conflict_grows_with_strength(a: LockMode, b: LockMode, other: LockMode)
    requires
        strength(a) <= strength(b),
        conflict(a, other),
    ensures
        conflict(b, other),
{
}

impl LockMode {
    /// Whether two modes exclude each other.
    pub fn conflicts_with(self, other: LockMode) -> (yes: bool)
        ensures
            yes <==> conflict(self, other),
    {
        match (self, other) {
            (LockMode::AccessExclusive, _) => true,
            (_, LockMode::AccessExclusive) => true,
            (LockMode::RowExclusive, LockMode::Exclusive) => true,
            (LockMode::Exclusive, LockMode::RowExclusive) => true,
            (LockMode::Exclusive, LockMode::Exclusive) => true,
            _ => false,
        }
    }

    fn rank(self) -> (rank: u8)
        ensures
            rank == strength(self),
    {
        match self {
            LockMode::AccessShare => 0,
            LockMode::RowExclusive => 1,
            LockMode::Exclusive => 2,
            LockMode::AccessExclusive => 3,
        }
    }
}

/// The locks on a table.
pub struct EntryView {
    /// The mode that each transaction holds.
    pub granted: Map<u64, LockMode>,
    /// The requests that wait, in order.
    pub queue: Seq<(u64, LockMode)>,
}

/// A table without locks.
pub open spec fn no_locks() -> EntryView {
    EntryView { granted: Map::empty(), queue: Seq::empty() }
}

impl EntryView {
    /// `xid` holds `mode` or a stronger one.
    pub open spec fn holds(self, xid: u64, mode: LockMode) -> bool {
        self.granted.contains_key(xid) && strength(self.granted[xid]) >= strength(mode)
    }

    /// No other transaction holds a mode that conflicts with `mode`.
    pub open spec fn is_free_for(self, xid: u64, mode: LockMode) -> bool {
        forall|holder: u64| #[trigger]
            self.granted.contains_key(holder) && holder != xid ==> !conflict(
                self.granted[holder],
                mode,
            )
    }

    /// `xid` can have `mode` now: it has it already, or nobody is queued before it
    /// and no other transaction's lock conflicts.
    pub open spec fn can_grant(self, xid: u64, mode: LockMode) -> bool {
        self.holds(xid, mode) || ((self.queue.len() == 0 || self.queue[0].0 == xid)
            && self.is_free_for(xid, mode))
    }

    /// `xid` gets `mode`, keeps a stronger one, and leaves the head of the queue.
    pub open spec fn grant(self, xid: u64, mode: LockMode) -> EntryView {
        EntryView {
            granted: if self.holds(xid, mode) {
                self.granted
            } else {
                self.granted.insert(xid, mode)
            },
            queue: if self.queue.len() > 0 && self.queue[0].0 == xid {
                self.queue.drop_first()
            } else {
                self.queue
            },
        }
    }

    /// `xid` waits for a lock.
    pub open spec fn is_queued(self, xid: u64) -> bool {
        exists|i: int| 0 <= i < self.queue.len() && (#[trigger] self.queue[i]).0 == xid
    }

    /// `xid` waits for `mode`, unless it waits already.
    pub open spec fn enqueue(self, xid: u64, mode: LockMode) -> EntryView {
        if self.is_queued(xid) {
            self
        } else {
            EntryView { queue: self.queue.push((xid, mode)), ..self }
        }
    }

    /// The requests at the head of the queue get their locks, in order, up to the
    /// first that still has to wait.
    pub open spec fn regrant(self) -> EntryView
        decreases self.queue.len(),
    {
        if self.queue.len() > 0 && self.can_grant(self.queue[0].0, self.queue[0].1) {
            self.grant(self.queue[0].0, self.queue[0].1).regrant()
        } else {
            self
        }
    }

    /// `xid` gives up its lock and its request; requests at the head of the queue
    /// get their locks.
    pub open spec fn release(self, xid: u64) -> EntryView {
        EntryView { granted: self.granted.remove(xid), queue: without(self.queue, xid) }.regrant()
    }

    /// Nobody holds a lock or waits for one.
    pub open spec fn is_unused(self) -> bool {
        self.granted.len() == 0 && self.queue.len() == 0
    }

    /// No two transactions hold modes that conflict.
    pub open spec fn is_compatible(self) -> bool {
        forall|a: u64, b: u64|
            #![trigger self.granted.contains_key(a), self.granted.contains_key(b)]
            self.granted.contains_key(a) && self.granted.contains_key(b) && a != b ==> !conflict(
                self.granted[a],
                self.granted[b],
            )
    }

    /// No two transactions hold modes that conflict, and nobody waits twice.
    pub open spec fn wf(self) -> bool {
        &&& self.granted.dom().finite()
        &&& self.is_compatible()
        &&& queued_once(self.queue)
    }
}

/// Nobody waits twice.
pub open spec fn queued_once(queue: Seq<(u64, LockMode)>) -> bool {
    forall|i: int, j: int|
        0 <= i < j < queue.len() ==> (#[trigger] queue[i]).0 != (#[trigger] queue[j]).0
}

/// The requests of all but `xid`.
pub open spec fn without(queue: Seq<(u64, LockMode)>, xid: u64) -> Seq<(u64, LockMode)>
    decreases queue.len(),
{
    if queue.len() == 0 {
        Seq::empty()
    } else if queue.last().0 == xid {
        without(queue.drop_last(), xid)
    } else {
        without(queue.drop_last(), xid).push(queue.last())
    }
}

proof fn without_members(queue: Seq<(u64, LockMode)>, xid: u64)
    ensures
        forall|i: int|
            0 <= i < without(queue, xid).len() ==> (#[trigger] without(queue, xid)[i]).0 != xid
                && exists|k: int| 0 <= k < queue.len() && queue[k] == without(queue, xid)[i],
        queued_once(queue) ==> queued_once(without(queue, xid)),
    decreases queue.len(),
{
    if queue.len() > 0 {
        let front = queue.drop_last();
        without_members(front, xid);
        let kept = without(queue, xid);
        let earlier = without(front, xid);
        assert forall|i: int| 0 <= i < kept.len() implies (#[trigger] kept[i]).0 != xid && exists|k: int|
            0 <= k < queue.len() && queue[k] == kept[i] by {
            if i < earlier.len() {
                assert(earlier[i].0 != xid);
                let k = choose|k: int| 0 <= k < front.len() && front[k] == earlier[i];
                assert(queue[k] == kept[i]);
            } else {
                assert(queue[queue.len() - 1] == kept[i]);
            }
        }
        if queued_once(queue) {
            assert(queued_once(front)) by {
                assert forall|i: int, j: int| 0 <= i < j < front.len() implies (
                #[trigger] front[i]).0 != (#[trigger] front[j]).0 by {
                    assert(queue[i] == front[i] && queue[j] == front[j]);
                }
            }
            assert forall|i: int, j: int| 0 <= i < j < kept.len() implies (#[trigger] kept[i]).0
                != (#[trigger] kept[j]).0 by {
                if j < earlier.len() {
                    assert(earlier[i] == kept[i] && earlier[j] == kept[j]);
                } else {
                    assert(earlier[i] == kept[i]);
                    let k = choose|k: int| 0 <= k < front.len() && front[k] == earlier[i];
                    assert(queue[k] == kept[i]);
                    assert(queue[queue.len() - 1] == kept[j]);
                }
            }
        }
    }
}

/// Granting what can be granted keeps the locks compatible.
pub proof fn grant_keeps_wf(entry: EntryView, xid: u64, mode: LockMode)
    requires
        entry.wf(),
        entry.can_grant(xid, mode),
    ensures
        entry.grant(xid, mode).wf(),
        entry.grant(xid, mode).holds(xid, mode),
{
    let after = entry.grant(xid, mode);
    assert forall|a: u64, b: u64|
        #![trigger after.granted.contains_key(a), after.granted.contains_key(b)]
        after.granted.contains_key(a) && after.granted.contains_key(b) && a != b implies !conflict(
        after.granted[a],
        after.granted[b],
    ) by {
        if !entry.holds(xid, mode) {
            if a == xid {
                assert(entry.granted.contains_key(b));
                conflict_is_symmetric(mode, entry.granted[b]);
            } else if b == xid {
                assert(entry.granted.contains_key(a));
            } else {
                assert(entry.granted.contains_key(a) && entry.granted.contains_key(b));
            }
        } else {
            assert(entry.granted.contains_key(a) && entry.granted.contains_key(b));
        }
    }
}

/// Regranting keeps the locks compatible, takes no lock away, and leaves a head of
/// the queue that really has to wait.
pub proof fn regrant_keeps_wf(entry: EntryView)
    requires
        entry.wf(),
    ensures
        entry.regrant().wf(),
        entry.regrant().queue.len() > 0 ==> !entry.regrant().can_grant(
            entry.regrant().queue[0].0,
            entry.regrant().queue[0].1,
        ),
        forall|xid: u64, mode: LockMode|
            entry.holds(xid, mode) ==> #[trigger] entry.regrant().holds(xid, mode),
        exists|k: int|
            0 <= k <= entry.queue.len() && entry.regrant().queue == #[trigger] entry.queue.skip(k),
    decreases entry.queue.len(),
{
    if entry.queue.len() > 0 && entry.can_grant(entry.queue[0].0, entry.queue[0].1) {
        let next = entry.grant(entry.queue[0].0, entry.queue[0].1);
        grant_keeps_wf(entry, entry.queue[0].0, entry.queue[0].1);
        regrant_keeps_wf(next);
        assert forall|xid: u64, mode: LockMode| entry.holds(xid, mode) implies #[trigger] entry.regrant().holds(
        xid, mode) by {
            assert(next.holds(xid, mode));
            assert(next.regrant().holds(xid, mode));
        }
        let k = choose|k: int|
            0 <= k <= next.queue.len() && next.regrant().queue == #[trigger] next.queue.skip(k);
        assert(next.queue.skip(k) =~= entry.queue.skip(k + 1));
    } else {
        assert(entry.queue.skip(0) =~= entry.queue);
    }
}

/// A release keeps the locks compatible; the transaction is gone from the table,
/// nobody else loses a lock, and whoever then heads the queue really has to wait.
pub proof fn release_keeps_wf(entry: EntryView, xid: u64)
    requires
        entry.wf(),
    ensures
        entry.release(xid).wf(),
        !entry.release(xid).is_queued(xid),
        !entry.release(xid).granted.contains_key(xid),
        forall|other: u64, mode: LockMode|
            other != xid && entry.holds(other, mode) ==> #[trigger] entry.release(xid).holds(
                other,
                mode,
            ),
        entry.release(xid).queue.len() > 0 ==> !entry.release(xid).can_grant(
            entry.release(xid).queue[0].0,
            entry.release(xid).queue[0].1,
        ),
{
    let left = EntryView { granted: entry.granted.remove(xid), queue: without(entry.queue, xid) };
    without_members(entry.queue, xid);
    assert forall|a: u64, b: u64|
        #![trigger left.granted.contains_key(a), left.granted.contains_key(b)]
        left.granted.contains_key(a) && left.granted.contains_key(b) && a != b implies !conflict(
        left.granted[a],
        left.granted[b],
    ) by {
        assert(entry.granted.contains_key(a) && entry.granted.contains_key(b));
    }
    assert(left.wf());
    regrant_keeps_wf(left);
    assert forall|other: u64, mode: LockMode|
        other != xid && entry.holds(other, mode) implies #[trigger] entry.release(xid).holds(
        other,
        mode,
    ) by {
        assert(left.holds(other, mode));
        assert(left.regrant().holds(other, mode));
    }
    let k = choose|k: int|
        0 <= k <= left.queue.len() && left.regrant().queue == #[trigger] left.queue.skip(k);
    assert(!left.regrant().is_queued(xid)) by {
        if left.regrant().is_queued(xid) {
            let i = choose|i: int|
                0 <= i < left.regrant().queue.len() && (#[trigger] left.regrant().queue[i]).0
                    == xid;
            assert(left.queue[i + k].0 == xid);
        }
    }
    regrant_only_queued(left, xid);
}

proof fn regrant_only_queued(entry: EntryView, xid: u64)
    requires
        !entry.granted.contains_key(xid),
        forall|i: int| 0 <= i < entry.queue.len() ==> (#[trigger] entry.queue[i]).0 != xid,
    ensures
        !entry.regrant().granted.contains_key(xid),
    decreases entry.queue.len(),
{
    if entry.queue.len() > 0 && entry.can_grant(entry.queue[0].0, entry.queue[0].1) {
        let next = entry.grant(entry.queue[0].0, entry.queue[0].1);
        assert forall|i: int| 0 <= i < next.queue.len() implies (#[trigger] next.queue[i]).0
            != xid by {
            assert(next.queue[i] == entry.queue[i + 1]);
        }
        regrant_only_queued(next, xid);
    }
}

/// Nobody overtakes: a transaction that does not hold the lock yet gets nothing
/// while somebody else heads the queue, and joins the queue at its end.
pub proof fn queue_is_fair(entry: EntryView, xid: u64, mode: LockMode)
    requires
        entry.queue.len() > 0,
        entry.queue[0].0 != xid,
        !entry.holds(xid, mode),
    ensures
        !entry.can_grant(xid, mode),
        !entry.is_queued(xid) ==> entry.enqueue(xid, mode).queue == entry.queue.push((xid, mode)),
{
}

/// The modes conflict as follows: reading only with `AccessExclusive`, changing rows also
/// with `Exclusive`, `Exclusive` with all but reading, and `AccessExclusive` with all. They
/// grow in strength in this order.
pub proof fn modes_conflict_by_strength(mode: LockMode)
    ensures
        conflict(LockMode::AccessShare, mode) <==> mode is AccessExclusive,
        conflict(LockMode::RowExclusive, mode) <==> mode is Exclusive || mode is AccessExclusive,
        conflict(LockMode::Exclusive, mode) <==> !(mode is AccessShare),
        conflict(LockMode::AccessExclusive, mode),
        strength(LockMode::AccessShare) < strength(LockMode::RowExclusive) < strength(
            LockMode::Exclusive,
        ) < strength(LockMode::AccessExclusive),
{
}

proof fn without_filters(queue: Seq<(u64, LockMode)>, xid: u64)
    ensures
        without(queue, xid) == queue.filter(|r: (u64, LockMode)| r.0 != xid),
    decreases queue.len(),
{
    reveal(Seq::filter);
    if queue.len() > 0 {
        without_filters(queue.drop_last(), xid);
    }
}

/// Regranting serves the queue from its head: `served` requests get what they asked for,
/// the others stay in order, and nobody else's lock changes.
proof fn regrant_serves_heads(entry: EntryView) -> (served: int)
    requires
        entry.wf(),
    ensures
        0 <= served <= entry.queue.len(),
        entry.regrant().queue == entry.queue.skip(served),
        forall|i: int|
            0 <= i < served ==> entry.regrant().granted.contains_key((#[trigger] entry.queue[i]).0)
                && entry.regrant().granted[entry.queue[i].0] == (if entry.granted.contains_key(
                entry.queue[i].0,
            ) && strength(entry.granted[entry.queue[i].0]) >= strength(entry.queue[i].1) {
                entry.granted[entry.queue[i].0]
            } else {
                entry.queue[i].1
            }),
        forall|t: u64|
            (forall|i: int| 0 <= i < served ==> (#[trigger] entry.queue[i]).0 != t) ==> (
            #[trigger] entry.regrant().granted.contains_key(t) == entry.granted.contains_key(t))
                && (entry.granted.contains_key(t) ==> entry.regrant().granted[t]
                == entry.granted[t]),
        served < entry.queue.len() ==> exists|holder: u64| #[trigger]
            entry.regrant().granted.contains_key(holder) && holder != entry.queue[served].0
                && conflict(entry.regrant().granted[holder], entry.queue[served].1),
    decreases entry.queue.len(),
{
    if entry.queue.len() > 0 && entry.can_grant(entry.queue[0].0, entry.queue[0].1) {
        let head = entry.queue[0];
        let next = entry.grant(head.0, head.1);
        grant_keeps_wf(entry, head.0, head.1);
        let rest = regrant_serves_heads(next);
        let after = entry.regrant();
        assert(after == next.regrant());
        assert(next.queue.skip(rest) =~= entry.queue.skip(rest + 1));
        assert forall|i: int| 0 <= i < rest implies (#[trigger] next.queue[i]).0 != head.0 by {
            assert(next.queue[i] == entry.queue[i + 1]);
        }
        assert(after.granted.contains_key(head.0) == next.granted.contains_key(head.0));
        assert forall|i: int| 0 <= i < rest + 1 implies after.granted.contains_key(
            (#[trigger] entry.queue[i]).0,
        ) && after.granted[entry.queue[i].0] == (if entry.granted.contains_key(entry.queue[i].0)
            && strength(entry.granted[entry.queue[i].0]) >= strength(entry.queue[i].1) {
            entry.granted[entry.queue[i].0]
        } else {
            entry.queue[i].1
        }) by {
            if i > 0 {
                assert(next.queue[i - 1] == entry.queue[i]);
                assert(entry.queue[i].0 != entry.queue[0].0);
            }
        }
        assert forall|t: u64|
            (forall|i: int| 0 <= i < rest + 1 ==> (#[trigger] entry.queue[i]).0 != t) implies (
        #[trigger] after.granted.contains_key(t) == entry.granted.contains_key(t)) && (
        entry.granted.contains_key(t) ==> after.granted[t] == entry.granted[t]) by {
            assert(entry.queue[0].0 != t);
            assert forall|i: int| 0 <= i < rest implies (#[trigger] next.queue[i]).0 != t by {
                assert(next.queue[i] == entry.queue[i + 1]);
            }
            assert(next.granted.contains_key(t) == entry.granted.contains_key(t));
        }
        if rest + 1 < entry.queue.len() {
            assert(entry.queue[rest + 1] == next.queue[rest]);
        }
        rest + 1
    } else {
        assert(entry.queue.skip(0) =~= entry.queue);
        if entry.queue.len() > 0 {
            let head = entry.queue[0];
            assert(!entry.is_free_for(head.0, head.1));
            let holder = choose|holder: u64| #[trigger]
                entry.granted.contains_key(holder) && holder != head.0 && conflict(
                    entry.granted[holder],
                    head.1,
                );
            assert(entry.regrant().granted.contains_key(holder));
        }
        0
    }
}

/// Giving up a lock and a request takes nothing from anybody else: the requests of the
/// other transactions are served from the head of the queue, in order. The first `served`
/// of them hold what they asked for from then on, or the stronger mode that they held; the
/// rest wait in the same order, the first of them for a lock that another transaction
/// holds. Whoever was not served holds what it held.
pub proof fn release_serves_the_queue_in_order(entry: EntryView, xid: u64) -> (served: int)
    requires
        entry.wf(),
    ensures
        ({
            let after = entry.release(xid);
            let others = entry.queue.filter(|r: (u64, LockMode)| r.0 != xid);
            &&& 0 <= served <= others.len()
            &&& after.queue == others.skip(served)
            &&& forall|i: int|
                0 <= i < served ==> after.granted.contains_key((#[trigger] others[i]).0)
                    && after.granted[others[i].0] == (if entry.granted.contains_key(others[i].0)
                    && strength(entry.granted[others[i].0]) >= strength(others[i].1) {
                    entry.granted[others[i].0]
                } else {
                    others[i].1
                })
            &&& forall|t: u64|
                t != xid && (forall|i: int| 0 <= i < served ==> (#[trigger] others[i]).0 != t) ==> (
                #[trigger] after.granted.contains_key(t) == entry.granted.contains_key(t)) && (
                entry.granted.contains_key(t) ==> after.granted[t] == entry.granted[t])
            &&& !after.granted.contains_key(xid)
            &&& served < others.len() ==> exists|holder: u64| #[trigger]
                after.granted.contains_key(holder) && holder != others[served].0 && conflict(
                    after.granted[holder],
                    others[served].1,
                )
        }),
{
    let others = entry.queue.filter(|r: (u64, LockMode)| r.0 != xid);
    let left = EntryView { granted: entry.granted.remove(xid), queue: without(entry.queue, xid) };
    without_filters(entry.queue, xid);
    without_members(entry.queue, xid);
    release_keeps_wf(entry, xid);
    assert forall|a: u64, b: u64|
        #![trigger left.granted.contains_key(a), left.granted.contains_key(b)]
        left.granted.contains_key(a) && left.granted.contains_key(b) && a != b implies !conflict(
        left.granted[a],
        left.granted[b],
    ) by {
        assert(entry.granted.contains_key(a) && entry.granted.contains_key(b));
    }
    let served = regrant_serves_heads(left);
    assert(left.queue == others);
    let after = entry.release(xid);
    assert forall|t: u64|
        t != xid && (forall|i: int| 0 <= i < served ==> (#[trigger] others[i]).0 != t) implies (
    #[trigger] after.granted.contains_key(t) == entry.granted.contains_key(t)) && (
    entry.granted.contains_key(t) ==> after.granted[t] == entry.granted[t]) by {
        assert(left.regrant().granted.contains_key(t) == left.granted.contains_key(t));
    }
    served
}

/// Every request of another transaction outlives a release: whoever waited before either
/// still waits for the same mode, or holds it or a stronger one, and no two of those who
/// still wait have changed places.
pub proof fn release_keeps_requests(entry: EntryView, xid: u64, i: int, j: int)
    requires
        entry.wf(),
        0 <= i < j < entry.queue.len(),
        entry.queue[i].0 != xid,
        entry.queue[j].0 != xid,
    ensures
        ({
            let after = entry.release(xid);
            let first = entry.queue[i];
            let second = entry.queue[j];
            &&& after.queue.contains(first) || after.granted.contains_key(first.0) && strength(
                after.granted[first.0],
            ) >= strength(first.1)
            &&& after.queue.contains(second) || after.granted.contains_key(second.0) && strength(
                after.granted[second.0],
            ) >= strength(second.1)
            &&& after.queue.contains(first) ==> exists|k: int, m: int|
                0 <= k < m < after.queue.len() && #[trigger] after.queue[k] == first
                    && #[trigger] after.queue[m] == second
        }),
{
    let served = release_serves_the_queue_in_order(entry, xid);
    let others = entry.queue.filter(|r: (u64, LockMode)| r.0 != xid);
    let after = entry.release(xid);
    let (k, m) = filter_keeps_order(entry.queue, xid, i, j);
    if k >= served {
        assert(after.queue[k - served] == others[k]);
    }
    if m >= served {
        assert(after.queue[m - served] == others[m]);
    }
    if after.queue.contains(entry.queue[i]) {
        let n = choose|n: int| 0 <= n < after.queue.len() && after.queue[n] == entry.queue[i];
        assert(others[n + served] == others[k]);
        without_filters(entry.queue, xid);
        without_members(entry.queue, xid);
        assert(n + served == k) by {
            if n + served < k {
                assert(others[n + served].0 != others[k].0);
            } else if k < n + served {
                assert(others[k].0 != others[n + served].0);
            }
        }
        assert(after.queue[k - served] == entry.queue[i] && after.queue[m - served]
            == entry.queue[j]);
    }
}

proof fn filter_keeps_order(queue: Seq<(u64, LockMode)>, xid: u64, i: int, j: int) -> (places: (
    int,
    int,
))
    requires
        0 <= i < j < queue.len(),
        queue[i].0 != xid,
        queue[j].0 != xid,
    ensures
        ({
            let kept = queue.filter(|r: (u64, LockMode)| r.0 != xid);
            0 <= places.0 < places.1 < kept.len() && kept[places.0] == queue[i] && kept[places.1]
                == queue[j]
        }),
    decreases queue.len(),
{
    reveal(Seq::filter);
    let front = queue.drop_last();
    if j < queue.len() - 1 {
        filter_keeps_order(front, xid, i, j)
    } else {
        let kept = front.filter(|r: (u64, LockMode)| r.0 != xid);
        front.lemma_filter_contains(|r: (u64, LockMode)| r.0 != xid, i);
        let k = choose|k: int| 0 <= k < kept.len() && kept[k] == front[i];
        (k, kept.len() as int)
    }
}

#[derive(Debug)]
struct LockEntry {
    granted: HashMap<u64, LockMode>,
    wait_queue: VecDeque<(u64, LockMode)>,
}

impl View for LockEntry {
    type V = EntryView;

    closed spec fn view(&self) -> EntryView {
        EntryView { granted: self.granted@, queue: self.wait_queue@ }
    }
}

impl LockEntry {
    fn new() -> (entry: Self)
        ensures
            entry@ == no_locks(),
    {
        LockEntry { granted: HashMap::new(), wait_queue: VecDeque::new() }
    }

    fn holds(&self, xid: u64, mode: LockMode) -> (yes: bool)
        ensures
            yes <==> self@.holds(xid, mode),
    {
        broadcast use vstd::std_specs::hash::group_hash_axioms;

        match self.granted.get(&xid) {
            Some(held) => held.rank() >= mode.rank(),
            None => false,
        }
    }

    /// Whether `xid` can have `mode` now.
    fn can_grant(&self, xid: u64, mode: LockMode) -> (yes: bool)
        ensures
            yes <==> self@.can_grant(xid, mode),
    {
        broadcast use vstd::std_specs::hash::group_hash_axioms;

        if self.holds(xid, mode) {
            return true;
        }
        if self.wait_queue.len() > 0 {
            if self.wait_queue[0].0 != xid {
                return false;
            }
        }
        let holders = sorted_keys(&self.granted);
        let mut i: usize = 0;
        while i < holders.len()
            invariant
                i <= holders.len(),
                lists(holders@, self.granted@.dom()),
                !self@.holds(xid, mode),
                forall|k: int|
                    0 <= k < i && #[trigger] holders@[k] != xid ==> !conflict(
                        self.granted@[holders@[k]],
                        mode,
                    ),
            decreases holders.len() - i,
        {
            broadcast use vstd::std_specs::hash::group_hash_axioms;

            let holder: u64 = holders[i];
            assert(holders@.contains(holder));
            if holder != xid {
                if let Some(held) = self.granted.get(&holder) {
                    if held.conflicts_with(mode) {
                        assert(self@.granted.contains_key(holder));
                        return false;
                    }
                }
            }
            i += 1;
        }
        assert forall|holder: u64| #[trigger]
            self@.granted.contains_key(holder) && holder != xid implies !conflict(
            self@.granted[holder],
            mode,
        ) by {
            assert(holders@.contains(holder));
            let k = choose|k: int| 0 <= k < holders@.len() && holders@[k] == holder;
            assert(holders@[k] == holder);
        }
        true
    }

    /// Records a grant.
    fn grant(&mut self, xid: u64, mode: LockMode)
        ensures
            final(self)@ == old(self)@.grant(xid, mode),
    {
        broadcast use vstd::std_specs::hash::group_hash_axioms;

        if self.wait_queue.len() > 0 {
            if self.wait_queue[0].0 == xid {
                self.wait_queue.pop_front();
                assert(self.wait_queue@ =~= old(self).wait_queue@.drop_first());
            }
        }
        if !self.holds(xid, mode) {
            self.granted.insert(xid, mode);
        }
    }

    /// Queues a request, unless the transaction waits already.
    fn enqueue_if_absent(&mut self, xid: u64, mode: LockMode)
        ensures
            final(self)@ == old(self)@.enqueue(xid, mode),
    {
        let mut i: usize = 0;
        while i < self.wait_queue.len()
            invariant
                i <= self.wait_queue.len(),
                *self == *old(self),
                forall|k: int| 0 <= k < i ==> (#[trigger] self.wait_queue@[k]).0 != xid,
            decreases self.wait_queue.len() - i,
        {
            if self.wait_queue[i].0 == xid {
                assert(self@.queue[i as int].0 == xid);
                return;
            }
            i += 1;
        }
        assert(!self@.is_queued(xid));
        self.wait_queue.push_back((xid, mode));
    }

    /// Grants the requests at the head of the queue.
    fn regrant_heads(&mut self)
        ensures
            final(self)@ == old(self)@.regrant(),
    {
        while self.wait_queue.len() > 0
            invariant
                self@.regrant() == old(self)@.regrant(),
            ensures
                self@ == old(self)@.regrant(),
            decreases self.wait_queue.len(),
        {
            let (xid, mode) = self.wait_queue[0];
            if !self.can_grant(xid, mode) {
                break;
            }
            self.grant(xid, mode);
        }
    }

    /// Gives up the lock and the request of a transaction.
    fn release(&mut self, xid: u64)
        ensures
            final(self)@ == old(self)@.release(xid),
    {
        broadcast use vstd::std_specs::hash::group_hash_axioms;

        self.granted.remove(&xid);
        let mut kept: VecDeque<(u64, LockMode)> = VecDeque::new();
        let mut i: usize = 0;
        let ghost queue = self.wait_queue@;
        while i < self.wait_queue.len()
            invariant
                i <= self.wait_queue.len(),
                self.wait_queue@ == queue,
                queue == old(self).wait_queue@,
                self.granted@ == old(self).granted@.remove(xid),
                kept@ == without(queue.take(i as int), xid),
            decreases self.wait_queue.len() - i,
        {
            let request = self.wait_queue[i];
            proof {
                assert(queue.take(i + 1).drop_last() =~= queue.take(i as int));
                assert(queue.take(i + 1).last() == request);
            }
            if request.0 != xid {
                kept.push_back(request);
            }
            i += 1;
        }
        assert(queue.take(i as int) =~= queue);
        self.wait_queue = kept;
        self.regrant_heads();
    }

    fn is_unused(&self) -> (yes: bool)
        ensures
            yes <==> self@.is_unused(),
    {
        broadcast use vstd::std_specs::hash::group_hash_axioms;

        self.granted.len() == 0 && self.wait_queue.len() == 0
    }
}

/// The locks on all tables.
#[derive(Debug)]
pub struct LockManager {
    entries: HashMap<u64, LockEntry>,
}

/// What became of a request for a lock.
#[derive(Debug, Clone, Copy, PartialEq, Eq, Structural)]
pub enum LockStep {
    /// The transaction has the lock.
    Granted,
    /// The transaction is queued and has to ask again once locks were released.
    Waiting,
}

/// The locks on one table.
#[derive(Debug, Clone, PartialEq, Eq)]
pub struct TableLockState {
    /// Who holds which mode, by transaction.
    pub granted: Vec<(TxnId, LockMode)>,
    /// Who waits for which mode, in order.
    pub waiters: Vec<(TxnId, LockMode)>,
}

/// `pairs` lists who holds which mode, by ascending transaction.
pub open spec fn lists_grants(pairs: Seq<(TxnId, LockMode)>, granted: Map<u64, LockMode>) -> bool {
    &&& lists(Seq::new(pairs.len(), |i: int| pairs[i].0.0), granted.dom())
    &&& forall|i: int| 0 <= i < pairs.len() ==> (#[trigger] pairs[i]).1 == granted[pairs[i].0.0]
}

/// `pairs` lists the tables on which `xid` holds a lock, ascending, with the mode.
pub open spec fn lists_held(
    pairs: Seq<(Oid, LockMode)>,
    locks: Map<u64, EntryView>,
    xid: u64,
) -> bool {
    &&& lists(
        Seq::new(pairs.len(), |i: int| pairs[i].0.0),
        Set::new(|table: u64| locks.contains_key(table) && locks[table].granted.contains_key(xid)),
    )
    &&& forall|i: int|
        0 <= i < pairs.len() ==> (#[trigger] pairs[i]).1 == locks[pairs[i].0.0].granted[xid]
}

/// The locks on `table`.
pub open spec fn locks_on(locks: Map<u64, EntryView>, table: u64) -> EntryView {
    if locks.contains_key(table) {
        locks[table]
    } else {
        no_locks()
    }
}

/// How asking for a lock ends: with the lock, or in the queue.
pub open spec fn acquired(
    before: Map<u64, EntryView>,
    xid: u64,
    table: u64,
    mode: LockMode,
    granted: bool,
    after: Map<u64, EntryView>,
) -> bool {
    let entry = locks_on(before, table);
    &&& granted <==> entry.can_grant(xid, mode)
    &&& after == before.insert(
        table,
        if granted {
            entry.grant(xid, mode)
        } else {
            entry.enqueue(xid, mode)
        },
    )
}

/// How asking for a lock without waiting ends: with the lock, or with nothing done.
pub open spec fn tried(
    before: Map<u64, EntryView>,
    xid: u64,
    table: u64,
    mode: LockMode,
    granted: bool,
    after: Map<u64, EntryView>,
) -> bool {
    let entry = locks_on(before, table);
    &&& granted <==> entry.can_grant(xid, mode)
    &&& after == if granted {
        before.insert(table, entry.grant(xid, mode))
    } else {
        before
    }
}

/// The locks left when `xid` gives up everything.
pub open spec fn released(locks: Map<u64, EntryView>, xid: u64) -> Map<u64, EntryView> {
    Map::new(
        |table: u64| locks.contains_key(table) && !locks[table].release(xid).is_unused(),
        |table: u64| locks[table].release(xid),
    )
}

/// On every table, no two transactions hold modes that conflict, and nobody waits
/// twice.
pub open spec fn locks_wf(locks: Map<u64, EntryView>) -> bool {
    forall|table: u64| #[trigger] locks.contains_key(table) ==> locks[table].wf()
}

/// At the end of a transaction nothing of it is left, on any table; nobody else
/// loses a lock; and whoever then heads a queue really has to wait.
pub proof fn release_is_complete(locks: Map<u64, EntryView>, xid: u64, table: u64)
    requires
        locks_wf(locks),
    ensures
        locks_wf(released(locks, xid)),
        !locks_on(released(locks, xid), table).granted.contains_key(xid),
        !locks_on(released(locks, xid), table).is_queued(xid),
        forall|other: u64, mode: LockMode|
            other != xid && locks_on(locks, table).holds(other, mode) ==> #[trigger] locks_on(
                released(locks, xid),
                table,
            ).holds(other, mode),
        locks_on(released(locks, xid), table).queue.len() > 0 ==> !locks_on(
            released(locks, xid),
            table,
        ).can_grant(
            locks_on(released(locks, xid), table).queue[0].0,
            locks_on(released(locks, xid), table).queue[0].1,
        ),
{
    assert forall|t: u64| #[trigger] released(locks, xid).contains_key(t) implies released(
        locks,
        xid,
    )[t].wf() by {
        assert(locks.contains_key(t));
        release_keeps_wf(locks[t], xid);
    }
    if locks.contains_key(table) {
        release_keeps_wf(locks[table], xid);
        let left = locks[table].release(xid);
        if left.is_unused() {
            assert(left.granted.dom() =~= Set::empty());
            assert forall|other: u64, mode: LockMode|
                other != xid && locks_on(locks, table).holds(other, mode) implies #[trigger] locks_on(
                released(locks, xid),
                table,
            ).holds(other, mode) by {
                assert(left.holds(other, mode));
            }
        }
    }
}

/// When a lock is granted: to whoever holds the mode or a stronger one on the table, and
/// else exactly when nobody is queued before and no other transaction holds a mode that
/// conflicts. Nobody else's lock or request changes, on any table, and nobody changes
/// places in the queue. Whoever is granted the lock holds it from then on, and no longer
/// waits at the head of the queue; whoever is not is queued, at the end unless it was
/// queued before, and keeps what it held. `entry` and `now` are the locks on the table
/// before and after; `strong` says whether the transaction held as much, `first` whether
/// it was at the head of the queue.
pub proof fn acquire_grants_or_queues(
    before: Map<u64, EntryView>,
    xid: u64,
    table: u64,
    mode: LockMode,
    granted: bool,
    after: Map<u64, EntryView>,
    entry: EntryView,
    now: EntryView,
    strong: bool,
    first: bool,
)
    requires
        acquired(before, xid, table, mode, granted, after),
        entry == if before.contains_key(table) {
            before[table]
        } else {
            EntryView { granted: Map::empty(), queue: Seq::empty() }
        },
        now == after[table],
        strong == (entry.granted.contains_key(xid) && strength(entry.granted[xid]) >= strength(
            mode,
        )),
        first == (entry.queue.len() > 0 && entry.queue[0].0 == xid),
    ensures
        granted <==> strong || ((entry.queue.len() == 0 || first) && forall|t: u64| #[trigger]
            entry.granted.contains_key(t) && t != xid ==> !conflict(entry.granted[t], mode)),
        after.dom() == before.dom().insert(table),
        forall|t: u64| t != table && #[trigger] before.contains_key(t) ==> after[t] == before[t],
        forall|t: u64|
            t != xid ==> (#[trigger] now.granted.contains_key(t) == entry.granted.contains_key(t))
                && (entry.granted.contains_key(t) ==> now.granted[t] == entry.granted[t]),
        granted ==> now.granted.contains_key(xid) && now.granted[xid] == if strong {
            entry.granted[xid]
        } else {
            mode
        },
        granted && first ==> now.queue == entry.queue.skip(1),
        granted && !first ==> now.queue == entry.queue,
        !granted ==> now.granted == entry.granted,
        !granted && (exists|i: int|
            0 <= i < entry.queue.len() && (#[trigger] entry.queue[i]).0 == xid) ==> now.queue
            == entry.queue,
        !granted && !(exists|i: int|
            0 <= i < entry.queue.len() && (#[trigger] entry.queue[i]).0 == xid) ==> now.queue
            == entry.queue.push((xid, mode)),
{
    assert(entry == locks_on(before, table));
    assert(after.dom() =~= before.dom().insert(table));
    if entry.queue.len() > 0 {
        assert(entry.queue.drop_first() =~= entry.queue.skip(1));
    }
}

/// Asking without waiting grants what asking grants, and leaves no trace otherwise.
pub proof fn trying_is_acquiring_without_a_trace(
    before: Map<u64, EntryView>,
    xid: u64,
    table: u64,
    mode: LockMode,
    granted: bool,
    after: Map<u64, EntryView>,
    waited: bool,
    queued: Map<u64, EntryView>,
)
    requires
        tried(before, xid, table, mode, granted, after),
        acquired(before, xid, table, mode, waited, queued),
    ensures
        granted == waited,
        granted ==> after == queued,
        !granted ==> after == before,
{
}

/// A transaction gives up everything on every table, and each table is left as that table's
/// own release leaves it; one on which nothing is held or asked for is forgotten.
pub proof fn release_covers_every_table(locks: Map<u64, EntryView>, xid: u64, table: u64)
    requires
        locks_wf(locks),
    ensures
        ({
            let after = released(locks, xid);
            let left = locks[table].release(xid);
            &&& after.contains_key(table) ==> locks.contains_key(table) && after[table] == left
            &&& locks.contains_key(table) ==> (after.contains_key(table) <==> left.queue.len() > 0
                || exists|t: u64| left.granted.contains_key(t))
        }),
{
    if locks.contains_key(table) {
        release_keeps_wf(locks[table], xid);
        let left = locks[table].release(xid);
        if left.granted.len() == 0 {
            assert(left.granted.dom() =~= Set::empty());
        } else {
            let t = left.granted.dom().choose();
            assert(left.granted.contains_key(t));
        }
    }
}

impl View for LockManager {
    type V = Map<u64, EntryView>;

    closed spec fn view(&self) -> Map<u64, EntryView> {
        self.entries@.map_values(|entry: LockEntry| entry@)
    }
}

impl LockManager {
    /// The invariant: compatible locks, and nobody waits twice.
    pub open spec fn wf(&self) -> bool {
        locks_wf(self@)
    }

    /// No locks.
    pub fn new() -> (manager: Self)
        ensures
            manager@ == Map::<u64, EntryView>::empty(),
            manager.wf(),
    {
        let manager = LockManager { entries: HashMap::new() };
        assert(manager@ =~= Map::empty());
        manager
    }

    /// Asks for `mode` on `table`.
    ///
    /// The lock is granted when the transaction has it already, in this mode or a
    /// stronger one, or when nobody is queued before it and no other transaction's
    /// lock conflicts. Otherwise the transaction is queued, unless it is queued
    /// already, and keeps what it holds; it asks again each time locks are
    /// released.
    pub fn acquire(&mut self, xid: TxnId, table: Oid, mode: LockMode) -> (step: LockResult<
        LockStep,
    >)
        requires
            old(self).wf(),
        ensures
            final(self).wf(),
            ({
                let entry = locks_on(old(self)@, table.0);
                if entry.can_grant(xid.0, mode) {
                    &&& step == Ok::<LockStep, LockError>(LockStep::Granted)
                    &&& final(self)@ == old(self)@.insert(table.0, entry.grant(xid.0, mode))
                } else {
                    &&& step == Ok::<LockStep, LockError>(LockStep::Waiting)
                    &&& final(self)@ == old(self)@.insert(table.0, entry.enqueue(xid.0, mode))
                }
            }),
            step matches Ok(step) && acquired(
                old(self)@,
                xid.0,
                table.0,
                mode,
                step is Granted,
                final(self)@,
            ),
    {
        broadcast use vstd::std_specs::hash::group_hash_axioms;

        let mut entry = match self.entries.remove(&table.0) {
            Some(entry) => entry,
            None => LockEntry::new(),
        };
        let ghost before = entry@;
        assert(before == locks_on(old(self)@, table.0));
        assert(before.wf());
        let step = if entry.can_grant(xid.0, mode) {
            entry.grant(xid.0, mode);
            proof {
                grant_keeps_wf(before, xid.0, mode);
            }
            LockStep::Granted
        } else {
            entry.enqueue_if_absent(xid.0, mode);
            LockStep::Waiting
        };
        assert(entry@.wf());
        self.entries.insert(table.0, entry);
        assert(self@ =~= old(self)@.insert(table.0, entry@));
        Ok(step)
    }

    /// Asks for `mode` on `table` without waiting: whether it was granted, by the
    /// same rules as [`LockManager::acquire`]. A refusal leaves no trace.
    pub fn try_acquire(&mut self, xid: TxnId, table: Oid, mode: LockMode) -> (granted: LockResult<
        bool,
    >)
        requires
            old(self).wf(),
        ensures
            final(self).wf(),
            ({
                let entry = locks_on(old(self)@, table.0);
                if entry.can_grant(xid.0, mode) {
                    &&& granted == Ok::<bool, LockError>(true)
                    &&& final(self)@ == old(self)@.insert(table.0, entry.grant(xid.0, mode))
                } else {
                    &&& granted == Ok::<bool, LockError>(false)
                    &&& final(self)@ == old(self)@
                }
            }),
            granted matches Ok(granted) && tried(
                old(self)@,
                xid.0,
                table.0,
                mode,
                granted,
                final(self)@,
            ),
    {
        broadcast use vstd::std_specs::hash::group_hash_axioms;

        let grantable = match self.entries.get(&table.0) {
            Some(entry) => entry.can_grant(xid.0, mode),
            None => true,
        };
        if grantable {
            self.acquire(xid, table, mode)?;
        }
        Ok(grantable)
    }

    /// Gives up every lock and every request of a transaction, at its end. Requests
    /// at the head of a queue get their locks, in order, up to the first that still
    /// has to wait. Tables on which nothing is held or asked for are forgotten.
    pub fn release_all(&mut self, xid: TxnId)
        requires
            old(self).wf(),
        ensures
            final(self).wf(),
            final(self)@ == released(old(self)@, xid.0),
    {
        broadcast use vstd::std_specs::hash::group_hash_axioms;

        let tables = sorted_keys(&self.entries);
        let ghost before = self@;
        let ghost after = released(before, xid.0);
        let mut i: usize = 0;
        while i < tables.len()
            invariant
                i <= tables.len(),
                lists(tables@, before.dom()),
                after == released(before, xid.0),
                forall|t: u64|
                    !tables@.take(i as int).contains(t) ==> (#[trigger] self@.contains_key(t)
                        <==> before.contains_key(t)) && (before.contains_key(t) ==> self@[t]
                        == before[t]),
                forall|t: u64|
                    tables@.take(i as int).contains(t) ==> (#[trigger] self@.contains_key(t)
                        <==> after.contains_key(t)) && (after.contains_key(t) ==> self@[t]
                        == after[t]),
            decreases tables.len() - i,
        {
            broadcast use vstd::std_specs::hash::group_hash_axioms;

            let table: u64 = tables[i];
            let ghost start = self@;
            proof {
                walk_grows(tables@, i as int);
            }
            assert(tables@.contains(table));
            assert(self@.contains_key(table));
            if let Some(mut entry) = self.entries.remove(&table) {
                entry.release(xid.0);
                let unused = entry.is_unused();
                assert(unused == !after.contains_key(table));
                if !unused {
                    self.entries.insert(table, entry);
                    assert(self@ =~= start.insert(table, entry@));
                } else {
                    assert(self@ =~= start.remove(table));
                }
            }
            i += 1;
        }
        assert(tables@.take(i as int) =~= tables@);
        assert(self@ =~= after);
        proof {
            release_is_complete(before, xid.0, 0);
        }
    }

    /// Whether `xid` holds `mode`, or a stronger one, on `table`.
    pub fn is_granted(&self, xid: TxnId, table: Oid, mode: LockMode) -> (yes: bool)
        ensures
            yes <==> locks_on(self@, table.0).holds(xid.0, mode),
    {
        broadcast use vstd::std_specs::hash::group_hash_axioms;

        match self.entries.get(&table.0) {
            Some(entry) => entry.holds(xid.0, mode),
            None => false,
        }
    }

    /// The tables on which `xid` holds a lock, ascending, with the mode.
    pub fn held_by(&self, xid: TxnId) -> (held: Vec<(Oid, LockMode)>)
        ensures
            lists_held(held@, self@, xid.0),
    {
        broadcast use vstd::std_specs::hash::group_hash_axioms;

        let tables = sorted_keys(&self.entries);
        let mut held: Vec<(Oid, LockMode)> = Vec::new();
        let mut i: usize = 0;
        while i < tables.len()
            invariant
                i <= tables.len(),
                lists(tables@, self@.dom()),
                forall|k: int|
                    0 <= k < held@.len() ==> tables@.take(i as int).contains(
                        (#[trigger] held@[k]).0.0,
                    ) && self@[held@[k].0.0].granted.contains_key(xid.0) && held@[k].1
                        == self@[held@[k].0.0].granted[xid.0],
                forall|k: int, m: int|
                    0 <= k < m < held@.len() ==> (#[trigger] held@[k]).0.0 < (
                    #[trigger] held@[m]).0.0,
                forall|t: u64|
                    #![trigger tables@.take(i as int).contains(t)]
                    tables@.take(i as int).contains(t) && self@[t].granted.contains_key(xid.0)
                        ==> exists|k: int| 0 <= k < held@.len() && (#[trigger] held@[k]).0.0 == t,
            decreases tables.len() - i,
        {
            broadcast use vstd::std_specs::hash::group_hash_axioms;

            let table: u64 = tables[i];
            let ghost before = held@;
            proof {
                assert(tables@.contains(table));
                assert(self@.contains_key(table));
                walk_grows(tables@, i as int);
            }
            if let Some(entry) = self.entries.get(&table) {
                assert(self@[table] == entry@);
                if let Some(mode) = entry.granted.get(&xid.0) {
                    held.push((Oid(table), *mode));
                    assert(held@[held@.len() - 1].0.0 == table);
                }
            }
            proof {
                assert forall|t: u64|
                    #![trigger tables@.take(i + 1).contains(t)]
                    tables@.take(i + 1).contains(t) && self@[t].granted.contains_key(
                        xid.0,
                    ) implies exists|k: int| 0 <= k < held@.len() && (#[trigger] held@[k]).0.0
                    == t by {
                    if tables@.take(i as int).contains(t) {
                        let k = choose|k: int|
                            0 <= k < before.len() && (#[trigger] before[k]).0.0 == t;
                        assert(held@[k].0.0 == t);
                    }
                }
            }
            i += 1;
        }
        proof {
            assert(tables@.take(i as int) =~= tables@);
            let names = Seq::new(held@.len(), |k: int| held@[k].0.0);
            let locked = Set::new(
                |t: u64| self@.contains_key(t) && self@[t].granted.contains_key(xid.0),
            );
            assert forall|t: u64| locked.contains(t) implies names.contains(t) by {
                assert(tables@.contains(t));
                let k = choose|k: int| 0 <= k < held@.len() && (#[trigger] held@[k]).0.0 == t;
                assert(names[k] == t);
            }
            assert forall|t: u64| names.contains(t) implies locked.contains(t) by {
                let k = choose|k: int| 0 <= k < names.len() && names[k] == t;
                assert(held@[k].0.0 == t);
                assert(tables@.contains(t));
            }
        }
        held
    }

    /// Who holds the locks on `table`, by ascending transaction, and who waits for
    /// them, in order; `None` if nothing is held or asked for.
    pub fn table_lock_state(&self, table: Oid) -> (state: Option<TableLockState>)
        ensures
            state is Some <==> self@.contains_key(table.0),
            state matches Some(state) ==> lists_grants(
                state.granted@,
                self@[table.0].granted,
            ) && state.waiters@ == Seq::new(
                self@[table.0].queue.len(),
                |i: int| (TxnId(self@[table.0].queue[i].0), self@[table.0].queue[i].1),
            ),
    {
        broadcast use vstd::std_specs::hash::group_hash_axioms;

        let entry = match self.entries.get(&table.0) {
            Some(entry) => entry,
            None => {
                return None;
            },
        };
        assert(self@[table.0] == entry@);
        let holders = sorted_keys(&entry.granted);
        let mut granted: Vec<(TxnId, LockMode)> = Vec::new();
        let mut i: usize = 0;
        while i < holders.len()
            invariant
                i <= holders.len(),
                lists(holders@, entry.granted@.dom()),
                granted@.len() == i,
                forall|k: int|
                    0 <= k < i ==> (#[trigger] granted@[k]).0.0 == holders@[k] && granted@[k].1
                        == entry.granted@[holders@[k]],
            decreases holders.len() - i,
        {
            broadcast use vstd::std_specs::hash::group_hash_axioms;

            let holder: u64 = holders[i];
            assert(holders@.contains(holder));
            if let Some(mode) = entry.granted.get(&holder) {
                granted.push((TxnId(holder), *mode));
            }
            i += 1;
        }
        assert(Seq::new(granted@.len(), |k: int| granted@[k].0.0) =~= holders@);
        let mut waiters: Vec<(TxnId, LockMode)> = Vec::new();
        let mut j: usize = 0;
        while j < entry.wait_queue.len()
            invariant
                j <= entry.wait_queue.len(),
                waiters@.len() == j,
                forall|k: int|
                    0 <= k < j ==> (#[trigger] waiters@[k]).0.0 == entry.wait_queue@[k].0
                        && waiters@[k].1 == entry.wait_queue@[k].1,
            decreases entry.wait_queue.len() - j,
        {
            let (xid, mode) = entry.wait_queue[j];
            waiters.push((TxnId(xid), mode));
            j += 1;
        }
        Some(TableLockState { granted, waiters })
    }
}

impl Default for LockManager {
    fn default() -> (manager: Self)
        ensures
            manager@ == Map::<u64, EntryView>::empty(),
            manager.wf(),
    {
        LockManager::new()
    }
}

/// The list of who holds a lock names each holder once, ascending, with the mode that it holds.
pub proof fn holders_are_listed(
    pairs: Seq<(TxnId, LockMode)>,
    granted: Map<u64, LockMode>,
    xid: u64,
    mode: LockMode,
)
    requires
        lists_grants(pairs, granted),
    ensures
        granted.contains_key(xid) && granted[xid] == mode <==> exists|i: int|
            0 <= i < pairs.len() && #[trigger] pairs[i] == (TxnId(xid), mode),
        forall|i: int, j: int|
            0 <= i < j < pairs.len() ==> (#[trigger] pairs[i]).0.0 < (#[trigger] pairs[j]).0.0,
{
    let plain = Seq::new(pairs.len(), |i: int| pairs[i].0.0);
    assert(plain.contains(xid) <==> granted.dom().contains(xid));
    if granted.contains_key(xid) && granted[xid] == mode {
        let i = choose|i: int| 0 <= i < plain.len() && plain[i] == xid;
        assert(pairs[i] == (TxnId(xid), mode));
    }
    if exists|i: int| 0 <= i < pairs.len() && #[trigger] pairs[i] == (TxnId(xid), mode) {
        let i = choose|i: int| 0 <= i < pairs.len() && #[trigger] pairs[i] == (TxnId(xid), mode);
        assert(plain[i] == xid);
    }
    assert forall|i: int, j: int| 0 <= i < j < pairs.len() implies (#[trigger] pairs[i]).0.0 < (
    #[trigger] pairs[j]).0.0 by {
        assert(plain[i] < plain[j]);
    }
}

/// The list of what a transaction holds names each table once, ascending, with the mode in
/// which the table is locked by it.
pub proof fn held_locks_are_listed(
    pairs: Seq<(Oid, LockMode)>,
    locks: Map<u64, EntryView>,
    xid: u64,
    table: u64,
    mode: LockMode,
)
    requires
        lists_held(pairs, locks, xid),
    ensures
        locks.contains_key(table) && locks[table].granted.contains_key(xid)
            && locks[table].granted[xid] == mode <==> exists|i: int|
            0 <= i < pairs.len() && #[trigger] pairs[i] == (Oid(table), mode),
        forall|i: int, j: int|
            0 <= i < j < pairs.len() ==> (#[trigger] pairs[i]).0.0 < (#[trigger] pairs[j]).0.0,
{
    let plain = Seq::new(pairs.len(), |i: int| pairs[i].0.0);
    let tables = Set::new(
        |t: u64| locks.contains_key(t) && locks[t].granted.contains_key(xid),
    );
    assert(plain.contains(table) <==> tables.contains(table));
    if tables.contains(table) && locks[table].granted[xid] == mode {
        let i = choose|i: int| 0 <= i < plain.len() && plain[i] == table;
        assert(pairs[i] == (Oid(table), mode));
    }
    if exists|i: int| 0 <= i < pairs.len() && #[trigger] pairs[i] == (Oid(table), mode) {
        let i = choose|i: int| 0 <= i < pairs.len() && #[trigger] pairs[i] == (Oid(table), mode);
        assert(plain[i] == table);
    }
    assert forall|i: int, j: int| 0 <= i < j < pairs.len() implies (#[trigger] pairs[i]).0.0 < (
    #[trigger] pairs[j]).0.0 by {
        assert(plain[i] < plain[j]);
    }
}

} // verus!
