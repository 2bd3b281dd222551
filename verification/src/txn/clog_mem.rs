//! Commit log in memory.
//!
//! Garbage collection removes entries of committed transactions only. An aborted
//! transaction keeps its entry for good: without one it would read as in
//! progress.

use std::collections::HashMap;

use vstd::prelude::*;

use crate::clog::{ClogAccessor, TxnState};
use crate::keys::{lists, sorted_keys};
use crate::types::TxnId;

verus! {

/// A commit log in memory. An XID without an entry is in progress.
#[derive(Debug)]
pub struct InMemoryClogAccessor {
    states: HashMap<u64, TxnState>,
    never_gc: bool,
}

impl View for InMemoryClogAccessor {
    type V = Map<u64, TxnState>;

    closed spec fn view(&self) -> Map<u64, TxnState> {
        self.states@
    }
}

/// Garbage collection takes this entry: a committed transaction below the bound.
pub open spec fn collectable(xid: u64, state: TxnState, bound: TxnId) -> bool {
    state == TxnState::Committed && xid < bound.0
}

/// The log after garbage collection.
pub open spec fn collected(states: Map<u64, TxnState>, bound: TxnId) -> Map<u64, TxnState> {
    states.remove_keys(collectables(states, bound))
}

/// The XIDs whose entries garbage collection takes.
pub open spec fn collectables(states: Map<u64, TxnState>, bound: TxnId) -> Set<u64> {
    states.dom().filter(|xid: u64| collectable(xid, states[xid], bound))
}

/// Garbage collection never takes the entry of an aborted transaction, nor of any
/// transaction from the bound on.
pub proof fn collection_keeps_aborted(states: Map<u64, TxnState>, bound: TxnId, xid: u64)
    requires
        states.contains_key(xid),
        states[xid] == TxnState::Aborted || xid >= bound.0,
    ensures
        collected(states, bound).contains_key(xid),
        collected(states, bound)[xid] == states[xid],
{
}

/// Garbage collection takes exactly the entries of committed transactions below the bound,
/// and leaves all others as they are.
pub proof fn collection_takes_committed_below(
    states: Map<u64, TxnState>,
    bound: TxnId,
    xid: u64,
)
    ensures
        collected(states, bound).contains_key(xid) <==> states.contains_key(xid) && !(states[xid]
            == TxnState::Committed && xid < bound.0),
        collected(states, bound).contains_key(xid) ==> collected(states, bound)[xid]
            == states[xid],
        collectables(states, bound).contains(xid) <==> states.contains_key(xid) && states[xid]
            == TxnState::Committed && xid < bound.0,
{
}

/// What is recorded of a transaction is read of it from then on, and nothing changes for any
/// other; a transaction of which nothing was recorded is in progress.
pub proof fn recorded_state_is_read(
    before: InMemoryClogAccessor,
    xid: TxnId,
    state: TxnState,
    after: InMemoryClogAccessor,
    other: TxnId,
)
    ensures
        InMemoryClogAccessor::recorded(&before, xid, state, &after) ==> after.state_of(xid) == state
            && (other != xid ==> after.state_of(other) == before.state_of(other)),
        !before@.contains_key(other.0) ==> before.state_of(other) == TxnState::InProgress,
        before@.contains_key(other.0) ==> before.state_of(other) == before@[other.0],
{
}

impl InMemoryClogAccessor {
    /// Whether garbage collection is switched off.
    pub closed spec fn keeps_all(&self) -> bool {
        self.never_gc
    }

    /// An empty commit log with garbage collection switched off.
    pub fn new() -> (clog: Self)
        ensures
            clog@ == Map::<u64, TxnState>::empty(),
            clog.keeps_all(),
    {
        InMemoryClogAccessor { states: HashMap::new(), never_gc: true }
    }

    /// An empty commit log with garbage collection of committed entries switched
    /// on.
    pub fn with_gc_enabled() -> (clog: Self)
        ensures
            clog@ == Map::<u64, TxnState>::empty(),
            !clog.keeps_all(),
    {
        InMemoryClogAccessor { states: HashMap::new(), never_gc: false }
    }

    /// Whether garbage collection is switched off.
    pub fn never_gc(&self) -> (off: bool)
        ensures
            off == self.keeps_all(),
    {
        self.never_gc
    }

    /// The number of entries.
    pub fn len(&self) -> (len: usize)
        ensures
            len == self@.len(),
    {
        broadcast use vstd::std_specs::hash::group_hash_axioms;

        self.states.len()
    }

    /// Whether there are no entries.
    pub fn is_empty(&self) -> (empty: bool)
        ensures
            empty <==> self@.len() == 0,
    {
        broadcast use vstd::std_specs::hash::group_hash_axioms;

        self.states.len() == 0
    }

    /// Removes the entries of committed transactions below `bound`, unless
    /// garbage collection is switched off, and returns how many there were.
    pub fn gc_committed_below(&mut self, bound: TxnId) -> (removed: usize)
        ensures
            final(self).keeps_all() == old(self).keeps_all(),
            old(self).keeps_all() ==> removed == 0 && final(self)@ == old(self)@,
            !old(self).keeps_all() ==> removed == collectables(old(self)@, bound).len()
                && final(self)@ == collected(old(self)@, bound),
    {
        broadcast use vstd::std_specs::hash::group_hash_axioms;

        if self.never_gc {
            return 0;
        }
        let ghost before = self.states@;
        let keys = sorted_keys(&self.states);
        let mut removed: usize = 0;
        let ghost mut gone: Set<u64> = Set::empty();
        let mut i: usize = 0;
        assert(before.remove_keys(gone) =~= before);
        while i < keys.len()
            invariant
                i <= keys.len(),
                lists(keys@, before.dom()),
                !self.never_gc,
                !old(self).never_gc,
                before == old(self).states@,
                self.states@ == before.remove_keys(gone),
                gone.finite(),
                removed == gone.len() <= i,
                forall|xid: u64| #[trigger]
                    gone.contains(xid) <==> exists|k: int|
                        0 <= k < i && #[trigger] keys@[k] == xid && collectable(
                            xid,
                            before[xid],
                            bound,
                        ),
            decreases keys.len() - i,
        {
            broadcast use vstd::std_specs::hash::group_hash_axioms;

            let xid: u64 = keys[i];
            assert(keys@.contains(xid));
            let state = match self.states.get(&xid) {
                Some(state) => *state,
                None => TxnState::InProgress,
            };
            proof {
                if gone.contains(xid) {
                    let k = choose|k: int| 0 <= k < i && #[trigger] keys@[k] == xid;
                    assert(keys@[k] < keys@[i as int]);
                }
            }
            if state == TxnState::Committed && xid < bound.0 {
                self.states.remove(&xid);
                removed += 1;
                proof {
                    let wider = gone.insert(xid);
                    assert(before.remove_keys(gone).remove(xid) =~= before.remove_keys(wider));
                    assert forall|x: u64| #[trigger] wider.contains(x) <==> exists|k: int|
                        0 <= k < i + 1 && #[trigger] keys@[k] == x && collectable(
                            x,
                            before[x],
                            bound,
                        ) by {
                        if wider.contains(x) {
                            if x == xid {
                                assert(keys@[i as int] == x);
                            } else {
                                assert(gone.contains(x));
                            }
                        }
                    }
                    gone = wider;
                }
            }
            i += 1;
        }
        proof {
            assert forall|xid: u64| #[trigger] gone.contains(xid) <==> collectables(
                before,
                bound,
            ).contains(xid) by {
                if collectables(before, bound).contains(xid) {
                    assert(keys@.contains(xid));
                    let k = choose|k: int| 0 <= k < keys@.len() && keys@[k] == xid;
                    assert(keys@[k] == xid);
                }
                if gone.contains(xid) {
                    assert(keys@.contains(xid));
                }
            }
            assert(gone =~= collectables(before, bound));
        }
        removed
    }
}

impl Default for InMemoryClogAccessor {
    fn default() -> (clog: Self)
        ensures
            clog@ == Map::<u64, TxnState>::empty(),
            clog.keeps_all(),
    {
        Self::new()
    }
}

impl ClogAccessor for InMemoryClogAccessor {
    open spec fn state_of(&self, xid: TxnId) -> TxnState {
        if self@.contains_key(xid.0) {
            self@[xid.0]
        } else {
            TxnState::InProgress
        }
    }

    open spec fn recorded(before: &Self, xid: TxnId, state: TxnState, after: &Self) -> bool {
        &&& after@ == before@.insert(xid.0, state)
        &&& after.keeps_all() == before.keeps_all()
    }

    fn get_state(&self, xid: TxnId) -> (state: TxnState) {
        broadcast use vstd::std_specs::hash::group_hash_axioms;

        match self.states.get(&xid.0) {
            Some(state) => *state,
            None => TxnState::InProgress,
        }
    }

    fn set_state(&mut self, xid: TxnId, state: TxnState) {
        broadcast use vstd::std_specs::hash::group_hash_axioms;

        self.states.insert(xid.0, state);
    }
}

} // verus!
