//! Visibility of tuple versions.

use vstd::prelude::*;

use crate::clog::{ClogAccessor, TxnState};
use crate::txn::snapshot::Snapshot;
use crate::types::{Tid, TxnId};

verus! {

/// The outcome of a visibility judgment.
#[derive(Debug, Clone, Copy, PartialEq, Eq, Structural)]
pub enum Visibility {
    /// The tuple version is visible to the snapshot.
    Visible,
    /// The tuple version is invisible to the snapshot.
    Invisible,
    /// The tuple version is being modified and the lock manager is to be asked.
    /// No judgment of this module is that.
    Uncertain,
}

/// A hint bit of a tuple header.
#[derive(Debug, Clone, Copy, PartialEq, Eq, Structural)]
pub enum HintBit {
    /// The inserting transaction is known committed.
    XminCommitted,
    /// The inserting transaction is known aborted.
    XminInvalid,
    /// The deleting transaction is known committed.
    XmaxCommitted,
    /// The deleting transaction is known aborted.
    XmaxInvalid,
}

/// Another transaction is over and committed for the snapshot: it was assigned
/// its XID before, was not in progress, and the commit log has it as committed.
pub open spec fn committed_before<C: ClogAccessor>(xid: TxnId, snapshot: Snapshot, clog: C) -> bool {
    &&& xid.0 < snapshot.xmax.0
    &&& !snapshot.xip@.contains(xid.0)
    &&& clog.state_of(xid) == TxnState::Committed
}

/// The snapshot sees what `xid` did in its command `t_cid`: its own transaction's
/// earlier commands, and transactions that committed before.
pub open spec fn sees<C: ClogAccessor>(xid: TxnId, t_cid: u32, snapshot: Snapshot, clog: C) -> bool {
    if xid == snapshot.current_xid {
        t_cid < snapshot.curcid
    } else {
        committed_before(xid, snapshot, clog)
    }
}

/// A tuple version is visible when its insertion is seen, and its deletion, if
/// there is one, is not.
pub open spec fn version_visible<C: ClogAccessor>(
    xmin: TxnId,
    xmax: TxnId,
    t_cid: u32,
    snapshot: Snapshot,
    clog: C,
) -> bool {
    sees(xmin, t_cid, snapshot, clog) && (xmax == TxnId::invalid() || !sees(
        xmax,
        t_cid,
        snapshot,
        clog,
    ))
}

/// The one place where tuple versions are judged.
pub trait VisibilityOracle {
    /// Whether the tuple version is visible under `snapshot`.
    spec fn judges_visible(&self, xmin: TxnId, xmax: TxnId, t_cid: u32, snapshot: Snapshot) -> bool;

    /// Judges a tuple version: the transactions that inserted and deleted it, and
    /// the command in which that happened.
    fn is_visible(&self, xmin: TxnId, xmax: TxnId, t_cid: u32, snapshot: &Snapshot) -> (judgment:
        Visibility)
        ensures
            judgment == (if self.judges_visible(xmin, xmax, t_cid, *snapshot) {
                Visibility::Visible
            } else {
                Visibility::Invisible
            }),
    ;

    /// Hands a hint bit on to be written back. Nothing is done with it: hint bits
    /// are a cache, and a judgment never relies on them.
    fn set_hint_bit(&self, _tid: Tid, _hint: HintBit) {
    }
}

/// Judges by the commit log.
#[derive(Debug)]
pub struct PgVisibilityOracle<C: ClogAccessor> {
    /// The commit log.
    pub clog: C,
}

impl<C: ClogAccessor> PgVisibilityOracle<C> {
    /// An oracle that looks transactions up in `clog`.
    pub fn new(clog: C) -> (oracle: Self)
        ensures
            oracle.clog == clog,
    {
        PgVisibilityOracle { clog }
    }
}

impl<C: ClogAccessor> VisibilityOracle for PgVisibilityOracle<C> {
    open spec fn judges_visible(
        &self,
        xmin: TxnId,
        xmax: TxnId,
        t_cid: u32,
        snapshot: Snapshot,
    ) -> bool {
        version_visible(xmin, xmax, t_cid, snapshot, self.clog)
    }

    fn is_visible(&self, xmin: TxnId, xmax: TxnId, t_cid: u32, snapshot: &Snapshot) -> (judgment:
        Visibility) {
        let self_xid = snapshot.current_xid;
        let curcid: u32 = snapshot.curcid;
        if xmin == self_xid {
            if t_cid >= curcid {
                return Visibility::Invisible;
            }
        } else {
            if xmin.0 >= snapshot.xmax.0 {
                return Visibility::Invisible;
            }
            if snapshot.xip.contains(xmin) {
                return Visibility::Invisible;
            }
            if self.clog.get_state(xmin) != TxnState::Committed {
                return Visibility::Invisible;
            }
        }
        if xmax == TxnId::invalid() {
            return Visibility::Visible;
        }
        if xmax == self_xid {
            return if t_cid < curcid {
                Visibility::Invisible
            } else {
                Visibility::Visible
            };
        }
        if xmax.0 >= snapshot.xmax.0 {
            return Visibility::Visible;
        }
        if snapshot.xip.contains(xmax) {
            return Visibility::Visible;
        }
        if self.clog.get_state(xmax) != TxnState::Committed {
            return Visibility::Visible;
        }
        Visibility::Invisible
    }
}

/// `xid` counts as committed for the snapshot: it is the snapshot's own
/// transaction, or it committed before.
pub open spec fn effectively_committed<C: ClogAccessor>(
    xid: TxnId,
    snapshot: Snapshot,
    clog: C,
) -> bool {
    xid != TxnId::invalid() && (xid == snapshot.current_xid || committed_before(
        xid,
        snapshot,
        clog,
    ))
}

/// Whether `xid` counts as committed for the snapshot.
pub fn is_effectively_committed<C: ClogAccessor>(xid: TxnId, snapshot: &Snapshot, clog: &C) -> (yes:
    bool)
    ensures
        yes <==> effectively_committed(xid, *snapshot, *clog),
{
    if xid == TxnId::invalid() {
        return false;
    }
    if xid == snapshot.current_xid {
        return true;
    }
    if xid.0 >= snapshot.xmax.0 {
        return false;
    }
    if snapshot.xip.contains(xid) {
        return false;
    }
    clog.get_state(xid) == TxnState::Committed
}

/// A tuple is visible where every statement is its own transaction.
pub open spec fn visible_at_once<C: ClogAccessor>(
    t_xmin: TxnId,
    t_xmax: TxnId,
    snapshot: Snapshot,
    clog: C,
) -> bool {
    effectively_committed(t_xmin, snapshot, clog) && (t_xmax == TxnId::invalid()
        || !effectively_committed(t_xmax, snapshot, clog))
}

/// Whether a tuple is visible where every statement is its own transaction: the
/// snapshot always sees its own writes, whatever the command.
pub fn is_visible<C: ClogAccessor>(
    t_xmin: TxnId,
    t_xmax: TxnId,
    snapshot: &Snapshot,
    clog: &C,
) -> (visible: bool)
    ensures
        visible <==> effectively_committed(t_xmin, *snapshot, *clog) && (t_xmax == TxnId::invalid()
            || !effectively_committed(t_xmax, *snapshot, *clog)),
        visible <==> visible_at_once(t_xmin, t_xmax, *snapshot, *clog),
{
    if !is_effectively_committed(t_xmin, snapshot, clog) {
        return false;
    }
    if t_xmax == TxnId::invalid() {
        return true;
    }
    !is_effectively_committed(t_xmax, snapshot, clog)
}

/// What an unfinished, aborted or later transaction inserted is invisible to
/// everyone else, and what such a transaction deleted is still there.
pub proof fn unfinished_work_is_hidden<C: ClogAccessor>(
    other: TxnId,
    xid: TxnId,
    t_cid: u32,
    snapshot: Snapshot,
    clog: C,
)
    requires
        other != snapshot.current_xid,
        other.0 >= snapshot.xmax.0 || snapshot.xip@.contains(other.0) || clog.state_of(other)
            != TxnState::Committed,
    ensures
        !version_visible(other, xid, t_cid, snapshot, clog),
        version_visible(xid, other, t_cid, snapshot, clog) <==> sees(xid, t_cid, snapshot, clog),
{
}

/// A statement does not see what it inserts itself, sees what earlier statements
/// of its transaction inserted, and no longer sees what they deleted.
pub proof fn statements_see_earlier_ones<C: ClogAccessor>(
    own: TxnId,
    t_cid: u32,
    snapshot: Snapshot,
    clog: C,
)
    requires
        own == snapshot.current_xid,
    ensures
        t_cid >= snapshot.curcid ==> !version_visible(
            own,
            TxnId::invalid(),
            t_cid,
            snapshot,
            clog,
        ),
        t_cid < snapshot.curcid ==> version_visible(own, TxnId::invalid(), t_cid, snapshot, clog),
        own != TxnId::invalid() && t_cid < snapshot.curcid ==> forall|xmin: TxnId|
            !version_visible(xmin, own, t_cid, snapshot, clog),
{
}

/// A judgment stays the same when the commit log learns of transactions that the
/// snapshot does not ask it about: those in progress when it was taken, and later
/// ones.
pub proof fn judgments_are_stable<C: ClogAccessor>(
    xmin: TxnId,
    xmax: TxnId,
    t_cid: u32,
    snapshot: Snapshot,
    before: C,
    after: C,
)
    requires
        forall|xid: TxnId|
            xid.0 < snapshot.xmax.0 && !snapshot.xip@.contains(xid.0) ==> #[trigger] after.state_of(
                xid,
            ) == before.state_of(xid),
    ensures
        version_visible(xmin, xmax, t_cid, snapshot, after) == version_visible(
            xmin,
            xmax,
            t_cid,
            snapshot,
            before,
        ),
{
}

/// Visibility is complete: what another transaction did is seen as soon as that transaction
/// has an XID below `xmax`, was not in progress when the snapshot was taken, and is
/// committed in the commit log, whoever else was in progress. A tuple that it inserted and
/// nobody deleted is visible, and a tuple that it deleted is not.
pub proof fn committed_work_is_seen<C: ClogAccessor>(
    oracle: PgVisibilityOracle<C>,
    other: TxnId,
    xmin: TxnId,
    t_cid: u32,
    snapshot: Snapshot,
)
    requires
        other != snapshot.current_xid,
        other.0 < snapshot.xmax.0,
        forall|i: int| 0 <= i < snapshot.xip@.len() ==> snapshot.xip@[i] != other.0,
        oracle.clog.state_of(other) == TxnState::Committed,
    ensures
        oracle.judges_visible(other, TxnId(0), t_cid, snapshot),
        other.0 != 0 ==> !oracle.judges_visible(xmin, other, t_cid, snapshot),
{
}

/// Nothing else of other transactions is seen: what was inserted by one that was in
/// progress when the snapshot was taken, that began later, or that is not committed in the
/// commit log is invisible, and what it deleted is there as if nobody had deleted it.
pub proof fn uncommitted_work_is_not_seen<C: ClogAccessor>(
    oracle: PgVisibilityOracle<C>,
    other: TxnId,
    xid: TxnId,
    t_cid: u32,
    snapshot: Snapshot,
    i: int,
)
    requires
        other != snapshot.current_xid,
        ({
            ||| other.0 >= snapshot.xmax.0
            ||| 0 <= i < snapshot.xip@.len() && snapshot.xip@[i] == other.0
            ||| oracle.clog.state_of(other) == TxnState::InProgress
            ||| oracle.clog.state_of(other) == TxnState::Aborted
            ||| oracle.clog.state_of(other) == TxnState::SubCommitted
        }),
    ensures
        !oracle.judges_visible(other, xid, t_cid, snapshot),
        oracle.judges_visible(xid, other, t_cid, snapshot) == oracle.judges_visible(
            xid,
            TxnId(0),
            t_cid,
            snapshot,
        ),
{
    if 0 <= i < snapshot.xip@.len() && snapshot.xip@[i] == other.0 {
        assert(snapshot.xip@.contains(other.0));
    }
}

/// A transaction sees what it did itself in earlier commands, and not what it does in the
/// present one or later ones, whatever the commit log says of it.
pub proof fn own_work_is_seen_by_command<C: ClogAccessor>(
    oracle: PgVisibilityOracle<C>,
    xmin: TxnId,
    t_cid: u32,
    snapshot: Snapshot,
)
    ensures
        ({
            let own = snapshot.current_xid;
            &&& oracle.judges_visible(own, TxnId(0), t_cid, snapshot) <==> t_cid
                < snapshot.curcid
            &&& own.0 != 0 && t_cid < snapshot.curcid ==> !oracle.judges_visible(
                xmin,
                own,
                t_cid,
                snapshot,
            )
            &&& t_cid >= snapshot.curcid ==> oracle.judges_visible(xmin, own, t_cid, snapshot)
                == oracle.judges_visible(xmin, TxnId(0), t_cid, snapshot)
        }),
{
}

/// Where every statement is its own transaction, a tuple is judged as the oracle judges it
/// for a command behind the one that wrote it.
pub proof fn statements_agree_with_the_oracle<C: ClogAccessor>(
    oracle: PgVisibilityOracle<C>,
    xmin: TxnId,
    xmax: TxnId,
    t_cid: u32,
    snapshot: Snapshot,
    later: Snapshot,
)
    requires
        xmin.0 != 0,
        later == (Snapshot { curcid: later.curcid, ..snapshot }),
        t_cid < later.curcid,
    ensures
        visible_at_once(xmin, xmax, snapshot, oracle.clog) == oracle.judges_visible(
            xmin,
            xmax,
            t_cid,
            later,
        ),
        !visible_at_once(TxnId(0), xmax, snapshot, oracle.clog),
{
}

/// Which transactions count as committed for a snapshot: never the invalid one, always its
/// own, and another exactly if it has an XID below `xmax`, was not in progress when the
/// snapshot was taken, and is committed in the commit log.
pub proof fn committed_for_a_snapshot<C: ClogAccessor>(
    xid: TxnId,
    snapshot: Snapshot,
    clog: C,
)
    ensures
        xid.0 == 0 ==> !effectively_committed(xid, snapshot, clog),
        xid.0 != 0 && xid == snapshot.current_xid ==> effectively_committed(xid, snapshot, clog),
        xid.0 != 0 && xid != snapshot.current_xid ==> (effectively_committed(xid, snapshot, clog)
            <==> xid.0 < snapshot.xmax.0 && !snapshot.xip@.contains(xid.0) && clog.state_of(xid)
            == TxnState::Committed),
{
}

} // verus!
