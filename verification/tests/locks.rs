use pg_rust::txn::lock_manager::{LockManager, LockMode, LockStep};
use pg_rust::types::{Oid, TxnId};

const ALL: [LockMode; 4] = [
    LockMode::AccessShare,
    LockMode::RowExclusive,
    LockMode::Exclusive,
    LockMode::AccessExclusive,
];

const CONFLICTS: [[bool; 4]; 4] = [
    [false, false, false, true],
    [false, false, true, true],
    [false, true, true, true],
    [true, true, true, true],
];

#[test]
fn conflict_matrix_matches_spec() {
    for (i, &a) in ALL.iter().enumerate() {
        for (j, &b) in ALL.iter().enumerate() {
            assert_eq!(a.conflicts_with(b), CONFLICTS[i][j], "{a:?} vs {b:?}");
            assert_eq!(
                a.conflicts_with(b),
                b.conflicts_with(a),
                "matrix must be symmetric"
            );
        }
    }
}

#[test]
fn strength_ordering() {
    assert!(LockMode::AccessShare < LockMode::RowExclusive);
    assert!(LockMode::RowExclusive < LockMode::Exclusive);
    assert!(LockMode::Exclusive < LockMode::AccessExclusive);
}

const TABLE: Oid = Oid(16_384);
const OTHER: Oid = Oid(16_400);

fn xid(n: u64) -> TxnId {
    TxnId(n)
}

#[test]
fn shared_locks_are_granted_together() {
    let mut locks = LockManager::new();
    for n in 1..=3 {
        assert_eq!(
            locks.acquire(xid(n), TABLE, LockMode::AccessShare),
            Ok(LockStep::Granted)
        );
    }
    assert_eq!(
        locks.try_acquire(xid(4), TABLE, LockMode::AccessExclusive),
        Ok(false)
    );
    let state = locks.table_lock_state(TABLE).unwrap();
    assert_eq!(
        state.granted,
        [
            (xid(1), LockMode::AccessShare),
            (xid(2), LockMode::AccessShare),
            (xid(3), LockMode::AccessShare)
        ]
    );
    assert!(state.waiters.is_empty());
}

#[test]
fn waiting_writer_holds_up_later_readers() {
    let mut locks = LockManager::new();
    locks
        .acquire(xid(1), TABLE, LockMode::AccessShare)
        .unwrap();
    assert_eq!(
        locks.acquire(xid(2), TABLE, LockMode::AccessExclusive),
        Ok(LockStep::Waiting)
    );
    assert_eq!(
        locks.acquire(xid(3), TABLE, LockMode::AccessShare),
        Ok(LockStep::Waiting)
    );
    assert_eq!(
        locks.try_acquire(xid(4), TABLE, LockMode::AccessShare),
        Ok(false)
    );
    let state = locks.table_lock_state(TABLE).unwrap();
    assert_eq!(
        state.waiters,
        [
            (xid(2), LockMode::AccessExclusive),
            (xid(3), LockMode::AccessShare)
        ]
    );

    locks.release_all(xid(1));
    assert!(locks.is_granted(xid(2), TABLE, LockMode::AccessExclusive));
    assert!(!locks.is_granted(xid(3), TABLE, LockMode::AccessShare));
    locks.release_all(xid(2));
    assert!(locks.is_granted(xid(3), TABLE, LockMode::AccessShare));
    locks.release_all(xid(3));
    assert!(locks.table_lock_state(TABLE).is_none());
}

#[test]
fn locks_are_kept_and_strengthened() {
    let mut locks = LockManager::default();
    locks.acquire(xid(1), TABLE, LockMode::Exclusive).unwrap();
    assert_eq!(
        locks.acquire(xid(1), TABLE, LockMode::AccessShare),
        Ok(LockStep::Granted)
    );
    assert!(locks.is_granted(xid(1), TABLE, LockMode::Exclusive));
    assert_eq!(
        locks.acquire(xid(1), TABLE, LockMode::AccessExclusive),
        Ok(LockStep::Granted)
    );
    assert!(locks.is_granted(xid(1), TABLE, LockMode::RowExclusive));
    locks
        .acquire(xid(1), OTHER, LockMode::RowExclusive)
        .unwrap();
    assert_eq!(
        locks.held_by(xid(1)),
        [
            (TABLE, LockMode::AccessExclusive),
            (OTHER, LockMode::RowExclusive)
        ]
    );
    assert!(locks.held_by(xid(2)).is_empty());
}

#[test]
fn release_gives_up_requests_too() {
    let mut locks = LockManager::new();
    locks.acquire(xid(1), TABLE, LockMode::Exclusive).unwrap();
    locks.acquire(xid(2), TABLE, LockMode::Exclusive).unwrap();
    locks
        .acquire(xid(3), TABLE, LockMode::AccessShare)
        .unwrap();
    locks.release_all(xid(2));
    assert!(locks.is_granted(xid(3), TABLE, LockMode::AccessShare));
    assert!(locks.is_granted(xid(1), TABLE, LockMode::Exclusive));
    assert!(locks.table_lock_state(TABLE).unwrap().waiters.is_empty());
}
