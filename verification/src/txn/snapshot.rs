//! MVCC snapshots.
//!
//! A snapshot is the set of transactions whose effects one scan sees:
//! - every XID below `xmin` is complete: the commit log decides;
//! - every XID from `xmax` on started later and is invisible;
//! - `xip` lists the XIDs that were in progress when the snapshot was taken;
//!   they stay invisible even if they commit later.

use vstd::prelude::*;

use crate::types::TxnId;

verus! {

/// The XIDs that were in progress when a snapshot was taken: a
/// `smallvec::SmallVec` with room for 32 of them inline.
#[verifier::external_body]
#[derive(Debug)]
pub struct XidList {
    list: smallvec::SmallVec<[u64; 32]>,
}

/// The XIDs in the list, in order.
pub uninterp spec fn listed(list: XidList) -> Seq<u64>;

impl View for XidList {
    type V = Seq<u64>;

    open spec fn view(&self) -> Seq<u64> {
        listed(*self)
    }
}

impl XidList {
    /// `SmallVec::new`: an empty list.
    #[verifier::external_body]
    pub(crate) fn new() -> (list: Self)
        ensures
            listed(list) == Seq::<u64>::empty(),
    {
        XidList { list: smallvec::SmallVec::new() }
    }

    /// `SmallVec::push`: adds an XID at the end.
    #[verifier::external_body]
    pub(crate) fn push(&mut self, xid: u64)
        ensures
            listed(*final(self)) == listed(*old(self)).push(xid),
    {
        self.list.push(xid)
    }

    /// `SmallVec::len`: the number of XIDs.
    #[verifier::external_body]
    pub(crate) fn len(&self) -> (len: usize)
        ensures
            len == listed(*self).len(),
    {
        self.list.len()
    }

    /// `SmallVec` indexed through its slice: the XID at a position.
    #[verifier::external_body]
    pub(crate) fn get(&self, i: usize) -> (xid: u64)
        requires
            i < listed(*self).len(),
        ensures
            xid == listed(*self)[i as int],
    {
        self.list[i]
    }

    /// A list of the given XIDs.
    pub fn from_xids(xids: &Vec<TxnId>) -> (list: Self)
        ensures
            list@ == Seq::new(xids@.len(), |i: int| xids@[i].0),
    {
        let mut list = XidList::new();
        let mut i: usize = 0;
        while i < xids.len()
            invariant
                i <= xids.len(),
                list@ =~= Seq::new(i as nat, |k: int| xids@[k].0),
            decreases xids.len() - i,
        {
            list.push(xids[i].0);
            i += 1;
        }
        list
    }

    /// The XIDs of the list.
    pub fn to_xids(&self) -> (xids: Vec<TxnId>)
        ensures
            xids@ == Seq::new(self@.len(), |i: int| TxnId(self@[i])),
    {
        let mut xids: Vec<TxnId> = Vec::new();
        let mut i: usize = 0;
        while i < self.len()
            invariant
                i <= self@.len(),
                xids@ =~= Seq::new(i as nat, |k: int| TxnId(self@[k])),
            decreases self@.len() - i,
        {
            xids.push(TxnId(self.get(i)));
            i += 1;
        }
        xids
    }

    /// Whether the list holds `xid`.
    pub fn contains(&self, xid: TxnId) -> (found: bool)
        ensures
            found <==> self@.contains(xid.0),
    {
        let mut i: usize = 0;
        while i < self.len()
            invariant
                i <= self@.len(),
                forall|k: int| 0 <= k < i ==> self@[k] != xid.0,
            decreases self@.len() - i,
        {
            if self.get(i) == xid.0 {
                return true;
            }
            i += 1;
        }
        false
    }

    /// Whether the list is empty.
    pub fn is_empty(&self) -> (empty: bool)
        ensures
            empty <==> self@.len() == 0,
    {
        self.len() == 0
    }
}

impl Clone for XidList {
    /// A list with the same XIDs.
    fn clone(&self) -> (copy: Self)
        ensures
            copy@ == self@,
    {
        let mut copy = XidList::new();
        let mut i: usize = 0;
        while i < self.len()
            invariant
                i <= self@.len(),
                copy@ == self@.take(i as int),
            decreases self@.len() - i,
        {
            copy.push(self.get(i));
            i += 1;
            assert(copy@ =~= self@.take(i as int));
        }
        assert(self@.take(i as int) =~= self@);
        copy
    }
}

/// An MVCC snapshot.
#[derive(Debug)]
pub struct Snapshot {
    /// Lowest XID that is still considered running.
    pub xmin: TxnId,
    /// First XID not yet assigned when the snapshot was taken.
    pub xmax: TxnId,
    /// XIDs in progress when the snapshot was taken, ascending.
    pub xip: XidList,
    /// The transaction that took the snapshot; it sees its own writes.
    pub current_xid: TxnId,
    /// Command counter within that transaction. It grows before each statement;
    /// what the statement writes carries it, and the statement does not see its
    /// own writes.
    pub curcid: u32,
}

impl Clone for Snapshot {
    fn clone(&self) -> (copy: Self)
        ensures
            copy.xmin == self.xmin,
            copy.xmax == self.xmax,
            copy.xip@ == self.xip@,
            copy.current_xid == self.current_xid,
            copy.curcid == self.curcid,
    {
        Snapshot {
            xmin: self.xmin,
            xmax: self.xmax,
            xip: self.xip.clone(),
            current_xid: self.current_xid,
            curcid: self.curcid,
        }
    }
}

impl Snapshot {
    /// A snapshot that sees every committed transaction.
    pub fn everything() -> (snapshot: Self)
        ensures
            snapshot.xmin == TxnId(0),
            snapshot.xmax == TxnId(u64::MAX),
            snapshot.xip@.len() == 0,
            snapshot.current_xid == TxnId::invalid(),
            snapshot.curcid == 0,
    {
        Snapshot {
            xmin: TxnId(0),
            xmax: TxnId(u64::MAX),
            xip: XidList::new(),
            current_xid: TxnId::invalid(),
            curcid: 0,
        }
    }

    /// Advances the command counter, before a statement begins, and returns its
    /// new value.
    pub fn advance_curcid(&mut self) -> (curcid: u32)
        requires
            old(self).curcid < u32::MAX,
        ensures
            curcid == old(self).curcid + 1,
            *final(self) == (Snapshot { curcid, ..*old(self) }),
    {
        self.curcid = self.curcid + 1;
        self.curcid
    }
}

} // verus!
