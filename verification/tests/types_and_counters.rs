use std::cell::RefCell;
use std::rc::Rc;

use pg_rust::lsn_clock::LsnClock;
use pg_rust::oid::OidCounter;
use pg_rust::txn_id::TxnIdClock;
use pg_rust::types::{Lsn, Oid, Tid, TxnId, WAL_SEGMENT_SIZE};

#[test]
fn starts_at_first_lsn() {
    let clock = LsnClock::default();
    assert_eq!(clock.current(), Lsn::first());
}

#[test]
fn allocates_monotonic_aligned_lsns() {
    let mut clock = LsnClock::default();
    assert_eq!(clock.next(8), Lsn(8));
    assert_eq!(clock.next(24), Lsn(16));
    assert_eq!(clock.next(16), Lsn(40));
    assert_eq!(clock.current(), Lsn(56));
}

#[test]
fn reserve_allocates_without_writing() {
    let mut clock = LsnClock::default();
    let r1 = clock.reserve(8);
    let r2 = clock.reserve(16);
    assert_eq!(r1, Lsn(8));
    assert_eq!(r2, Lsn(16));
    assert_eq!(clock.current(), Lsn(32));
    let n1 = clock.next(8);
    assert_eq!(n1, Lsn(32));
    assert_eq!(clock.current(), Lsn(40));
}

#[test]
fn reserve_and_next_are_interchangeable_for_allocation() {
    let mut clock = LsnClock::default();
    let _ = clock.reserve(8);
    let _ = clock.next(8);
    let _ = clock.reserve(8);
    assert_eq!(clock.current(), Lsn(32));
}

#[test]
fn oid_alloc_is_monotonic_and_clones_share() {
    let counter = Rc::new(RefCell::new(OidCounter::new(Oid::first_user())));
    let clone = counter.clone();
    assert_eq!(counter.borrow_mut().allocate(), Oid(16384));
    assert_eq!(clone.borrow_mut().allocate(), Oid(16385));
    assert_eq!(counter.borrow().current(), Oid(16386));
    assert_eq!(clone.borrow().current(), Oid(16386));
}

#[test]
fn txn_id_alloc_is_monotonic_and_clones_share() {
    let clock = Rc::new(RefCell::new(TxnIdClock::new(TxnId::first())));
    let clone = clock.clone();
    assert_eq!(clock.borrow_mut().allocate(), TxnId(1));
    assert_eq!(clone.borrow_mut().allocate(), TxnId(2));
    assert_eq!(clock.borrow().current(), TxnId(3));
    assert_eq!(clone.borrow().current(), TxnId(3));
}

#[test]
fn seeds_from_superblock_value() {
    let mut clock = TxnIdClock::new(TxnId(42));
    assert_eq!(clock.allocate(), TxnId(42));
    assert_eq!(clock.current(), TxnId(43));
}

#[test]
fn lsn_segment_math() {
    let lsn = Lsn(42_000_000);
    assert_eq!(lsn.segment_id(WAL_SEGMENT_SIZE), 2);
    assert_eq!(lsn.segment_offset(WAL_SEGMENT_SIZE), 8_445_568);
}

#[test]
fn lsn_advance_requires_alignment() {
    let lsn = Lsn::first();
    let next = lsn.advance(32);
    assert_eq!(next.0, 8 + 32);
}

#[test]
fn oid_system_range() {
    assert!(Oid(1259).is_system());
    assert!(Oid(9999).is_system());
    assert!(!Oid(16384).is_system());
    assert!(!Oid::invalid().is_system());
    assert!(Oid(10000).is_system());
}

#[test]
fn oid_ordering() {
    assert!(Oid::invalid() < Oid::first_user());
    assert!(Oid(1259) < Oid(16384));
}

#[test]
fn oid_display() {
    assert_eq!(Oid(1259).to_text(), "Oid(1259)");
}

#[test]
fn tid_layout() {
    assert_eq!(std::mem::size_of::<Tid>(), 16);
    assert_eq!(std::mem::align_of::<Tid>(), 8);
}
