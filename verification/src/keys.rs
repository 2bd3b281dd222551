//! Walking hash tables in key order.

use std::collections::{HashMap, HashSet};

use vstd::prelude::*;

verus! {

/// `list` is strictly ascending.
pub open spec fn ascending(list: Seq<u64>) -> bool {
    forall|i: int, j: int| 0 <= i < j < list.len() ==> list[i] < list[j]
}

/// `list` names each member of `members` once, in ascending order.
pub open spec fn lists(list: Seq<u64>, members: Set<u64>) -> bool {
    &&& ascending(list)
    &&& forall|k: u64| #[trigger] list.contains(k) <==> members.contains(k)
}

/// Only one list names the members of a set in ascending order.
pub proof fn listing_is_unique(a: Seq<u64>, b: Seq<u64>, members: Set<u64>)
    requires
        lists(a, members),
        lists(b, members),
    ensures
        a == b,
    decreases a.len(),
{
    if a.len() == 0 {
        if b.len() > 0 {
            assert(b.contains(b[0]));
            assert(a.contains(b[0]));
        }
        assert(a =~= b);
    } else {
        assert(a.contains(a.last()));
        assert(b.contains(a.last()));
        assert(b.contains(b.last()));
        assert(a.contains(b.last()));
        let i = choose|i: int| 0 <= i < a.len() && a[i] == b.last();
        let j = choose|j: int| 0 <= j < b.len() && b[j] == a.last();
        assert(a.last() == b.last());
        let rest = members.remove(a.last());
        assert forall|k: u64| #[trigger] a.drop_last().contains(k) <==> rest.contains(k) by {
            drop_last_members(a, members, k);
        }
        assert forall|k: u64| #[trigger] b.drop_last().contains(k) <==> rest.contains(k) by {
            drop_last_members(b, members, k);
        }
        listing_is_unique(a.drop_last(), b.drop_last(), rest);
        assert(a =~= a.drop_last().push(a.last()));
        assert(b =~= b.drop_last().push(b.last()));
    }
}

/// Walking on by one member adds it to what was walked, all of which is smaller.
pub proof fn walk_grows(list: Seq<u64>, i: int)
    requires
        ascending(list),
        0 <= i < list.len(),
    ensures
        forall|t: u64| #[trigger] list.take(i).contains(t) ==> t < list[i],
        forall|t: u64| #[trigger]
            list.take(i + 1).contains(t) <==> t == list[i] || list.take(i).contains(t),
{
    assert forall|t: u64| #[trigger] list.take(i).contains(t) implies t < list[i] by {
        let k = choose|k: int| 0 <= k < list.take(i).len() && list.take(i)[k] == t;
        assert(list[k] == t);
    }
    let next = list.take(i + 1);
    assert(next =~= list.take(i).push(list[i]));
    assert forall|t: u64| #[trigger] next.contains(t) <==> t == list[i] || list.take(i).contains(
        t,
    ) by {
        if next.contains(t) {
            let k = choose|k: int| 0 <= k < next.len() && next[k] == t;
            if k < i {
                assert(list.take(i)[k] == t);
            }
        }
        if list.take(i).contains(t) {
            let k = choose|k: int| 0 <= k < list.take(i).len() && list.take(i)[k] == t;
            assert(next[k] == t);
        }
        assert(next[i] == list[i]);
    }
}

proof fn drop_last_members(a: Seq<u64>, members: Set<u64>, k: u64)
    requires
        lists(a, members),
        a.len() > 0,
    ensures
        a.drop_last().contains(k) <==> members.remove(a.last()).contains(k),
{
    if a.drop_last().contains(k) {
        let i = choose|i: int| 0 <= i < a.drop_last().len() && a.drop_last()[i] == k;
        assert(a[i] == k);
        assert(a.contains(k));
    }
    if members.remove(a.last()).contains(k) {
        assert(a.contains(k));
        let i = choose|i: int| 0 <= i < a.len() && a[i] == k;
        assert(a.drop_last()[i] == k);
    }
}

/// Adds a member that is not there yet to an ascending list.
fn insert_ascending(list: &mut Vec<u64>, key: u64)
    requires
        ascending(old(list)@),
        !old(list)@.contains(key),
    ensures
        ascending(final(list)@),
        forall|k: u64| #[trigger]
            final(list)@.contains(k) <==> (old(list)@.contains(k) || k == key),
{
    let ghost before = list@;
    let mut at: usize = list.len();
    while at > 0 && list[at - 1] > key
        invariant
            at <= list.len(),
            list@ == before,
            forall|i: int| at <= i < before.len() ==> before[i] > key,
        decreases at,
    {
        at -= 1;
    }
    list.insert(at, key);
    proof {
        if at > 0 {
            assert(before.contains(before[at - 1]));
            assert(before[at - 1] < key);
        }
        assert(list@ =~= before.insert(at as int, key));
        assert forall|k: u64| #[trigger] list@.contains(k) <==> (before.contains(k) || k == key) by {
            if before.contains(k) {
                let i = choose|i: int| 0 <= i < before.len() && before[i] == k;
                if i < at {
                    assert(list@[i] == k);
                } else {
                    assert(list@[i + 1] == k);
                }
            }
            if k == key {
                assert(list@[at as int] == k);
            }
            if list@.contains(k) && k != key {
                let i = choose|i: int| 0 <= i < list@.len() && list@[i] == k;
                if i < at {
                    assert(before[i] == k);
                } else {
                    assert(before[i - 1] == k);
                }
            }
        }
    }
}

proof fn walked_members(walk: Seq<&u64>, members: Set<u64>)
    requires
        walk.unref().to_set() == members,
    ensures
        forall|k: u64| #[trigger]
            members.contains(k) <==> exists|i: int|
                0 <= i < walk.len() && #[trigger] *walk[i] == k,
{
    assert forall|k: u64| #[trigger] members.contains(k) <==> exists|i: int|
        0 <= i < walk.len() && #[trigger] *walk[i] == k by {
        if members.contains(k) {
            let i = choose|i: int| 0 <= i < walk.unref().len() && walk.unref()[i] == k;
            assert(*walk[i] == k);
        }
        if exists|i: int| 0 <= i < walk.len() && #[trigger] *walk[i] == k {
            let i = choose|i: int| 0 <= i < walk.len() && #[trigger] *walk[i] == k;
            assert(walk.unref()[i] == k);
        }
    }
}

/// The members of a set in ascending order.
pub fn sorted_members(set: &HashSet<u64>) -> (list: Vec<u64>)
    ensures
        lists(list@, set@),
{
    broadcast use vstd::std_specs::hash::group_hash_axioms;

    let mut list: Vec<u64> = Vec::new();
    proof {
        walked_members(vstd::std_specs::iter::IteratorSpec::remaining(&set.iter()), set@);
    }
    for key in keys: set.iter()
        invariant
            keys.seq().no_duplicates(),
            keys.seq().unref().to_set() == set@,
            forall|k: u64| #[trigger]
                set@.contains(k) <==> exists|i: int|
                    0 <= i < keys.seq().len() && #[trigger] *keys.seq()[i] == k,
            ascending(list@),
            forall|k: u64| #[trigger]
                list@.contains(k) <==> exists|i: int|
                    0 <= i < keys.index() && #[trigger] *keys.seq()[i] == k,
    {
        proof {
            if list@.contains(*key) {
                let i = choose|i: int| 0 <= i < keys.index() && #[trigger] *keys.seq()[i] == *key;
                assert(keys.seq()[i] == keys.seq()[keys.index() as int]);
            }
        }
        insert_ascending(&mut list, *key);
    }
    list
}

/// The keys of a table in ascending order.
pub fn sorted_keys<V>(table: &HashMap<u64, V>) -> (list: Vec<u64>)
    ensures
        lists(list@, table@.dom()),
{
    broadcast use vstd::std_specs::hash::group_hash_axioms;

    let mut list: Vec<u64> = Vec::new();
    proof {
        walked_members(vstd::std_specs::iter::IteratorSpec::remaining(&table.keys()), table@.dom());
    }
    for key in keys: table.keys()
        invariant
            keys.seq().no_duplicates(),
            keys.seq().unref().to_set() == table@.dom(),
            forall|k: u64| #[trigger]
                table@.dom().contains(k) <==> exists|i: int|
                    0 <= i < keys.seq().len() && #[trigger] *keys.seq()[i] == k,
            ascending(list@),
            forall|k: u64| #[trigger]
                list@.contains(k) <==> exists|i: int|
                    0 <= i < keys.index() && #[trigger] *keys.seq()[i] == k,
    {
        proof {
            if list@.contains(*key) {
                let i = choose|i: int| 0 <= i < keys.index() && #[trigger] *keys.seq()[i] == *key;
                assert(keys.seq()[i] == keys.seq()[keys.index() as int]);
            }
        }
        insert_ascending(&mut list, *key);
    }
    list
}

/// A list of the members of a set names exactly these, each once and in ascending order.
pub proof fn listing_names_each_member_once(list: Seq<u64>, members: Set<u64>, k: u64)
    requires
        lists(list, members),
    ensures
        members.contains(k) <==> exists|i: int| 0 <= i < list.len() && list[i] == k,
        forall|i: int, j: int| 0 <= i < j < list.len() ==> list[i] < list[j],
{
    assert(list.contains(k) <==> members.contains(k));
}

} // verus!
