use povertygres::types::page_types::{NullBitmap, TupleHeader};
use povertygres::types::transaction_types::{Snapshot, TransactionManager, TxStatus};
use std::collections::HashMap;

fn header(xmin: u32, xmax: Option<u32>) -> TupleHeader {
    TupleHeader { xmin, xmax, nullmap_bytes: NullBitmap::new(0), flags: 0 }
}

#[test]
fn xids_are_handed_out_in_order() {
    let mut tm = TransactionManager::new();
    assert_eq!(tm.next_xid, 1);
    assert_eq!(tm.alloc_xid(), 1);
    assert_eq!(tm.alloc_xid(), 2);
    assert_eq!(tm.next_xid, 3);
}

#[test]
fn statuses_follow_the_life_of_a_transaction() {
    let mut tm = TransactionManager::new();
    let a = tm.alloc_xid();
    let b = tm.alloc_xid();
    tm.begin(a);
    tm.begin(b);
    assert_eq!(tm.status(a), TxStatus::InProgress);
    assert_eq!(tm.active_xids, vec![a, b]);
    tm.commit(a);
    assert_eq!(tm.status(a), TxStatus::Committed);
    assert_eq!(tm.active_xids, vec![b]);
    tm.rollback(b);
    assert_eq!(tm.status(b), TxStatus::Aborted);
    assert!(tm.active_xids.is_empty());
}

#[test]
fn unknown_xids_count_as_committed() {
    let tm = TransactionManager::new();
    assert_eq!(tm.status(77), TxStatus::Committed);
}

#[test]
fn snapshot_lists_the_transactions_in_flight() {
    let mut tm = TransactionManager::new();
    let s0 = tm.snapshot();
    assert_eq!((s0.xmin, s0.xmax), (1, 1));
    assert!(s0.active_xids.is_empty());
    let a = tm.alloc_xid();
    let b = tm.alloc_xid();
    let c = tm.alloc_xid();
    tm.begin(c);
    tm.begin(a);
    tm.begin(b);
    tm.commit(a);
    let s = tm.snapshot();
    assert_eq!(s.xmin, 2);
    assert_eq!(s.xmax, 4);
    assert_eq!(s.active_xids, vec![c, b]);
}

#[test]
fn from_map_restores_the_transactions_in_progress() {
    let mut m = HashMap::new();
    m.insert(1, TxStatus::Committed);
    m.insert(2, TxStatus::InProgress);
    m.insert(3, TxStatus::Aborted);
    m.insert(4, TxStatus::InProgress);
    let tm = TransactionManager::from_map(m, 5);
    assert_eq!(tm.next_xid, 5);
    let mut active = tm.active_xids.clone();
    active.sort();
    assert_eq!(active, vec![2, 4]);
    assert_eq!(tm.status(1), TxStatus::Committed);
    assert_eq!(tm.status(3), TxStatus::Aborted);
}

fn tm_with(statuses: &[(u32, TxStatus)], next: u32) -> TransactionManager {
    let mut m = HashMap::new();
    for (x, s) in statuses {
        m.insert(*x, *s);
    }
    TransactionManager::from_map(m, next)
}

#[test]
fn own_writes_are_visible() {
    let tm = tm_with(&[(5, TxStatus::InProgress)], 6);
    let snap = Snapshot { xmin: 5, xmax: 5, active_xids: vec![] };
    assert!(header(5, None).is_visible(5, &snap, &tm));
}

#[test]
fn inserts_of_transactions_in_flight_are_invisible() {
    let tm = tm_with(&[(3, TxStatus::Committed)], 6);
    let snap = Snapshot { xmin: 3, xmax: 6, active_xids: vec![3] };
    assert!(!header(3, None).is_visible(5, &snap, &tm));
}

#[test]
fn inserts_of_later_transactions_are_invisible() {
    let tm = tm_with(&[(7, TxStatus::Committed)], 8);
    let snap = Snapshot { xmin: 6, xmax: 6, active_xids: vec![] };
    assert!(!header(7, None).is_visible(5, &snap, &tm));
    assert!(!header(6, None).is_visible(5, &snap, &tm));
}

#[test]
fn inserts_count_by_the_status_of_the_inserter() {
    let tm = tm_with(
        &[(1, TxStatus::Committed), (2, TxStatus::Aborted), (3, TxStatus::InProgress)],
        9,
    );
    let snap = Snapshot { xmin: 9, xmax: 9, active_xids: vec![] };
    assert!(header(1, None).is_visible(8, &snap, &tm));
    assert!(!header(2, None).is_visible(8, &snap, &tm));
    assert!(!header(3, None).is_visible(8, &snap, &tm));
}

#[test]
fn own_deletes_hide_the_tuple() {
    let tm = tm_with(&[(1, TxStatus::Committed), (5, TxStatus::InProgress)], 6);
    let snap = Snapshot { xmin: 5, xmax: 6, active_xids: vec![5] };
    assert!(!header(1, Some(5)).is_visible(5, &snap, &tm));
    assert!(!header(5, Some(5)).is_visible(5, &snap, &tm));
}

#[test]
fn deletes_of_others_count_only_when_settled_and_committed() {
    let tm = tm_with(
        &[
            (1, TxStatus::Committed),
            (2, TxStatus::Committed),
            (3, TxStatus::Aborted),
            (4, TxStatus::Committed),
            (7, TxStatus::Committed),
        ],
        9,
    );
    let snap = Snapshot { xmin: 4, xmax: 6, active_xids: vec![4] };
    // committed before the snapshot: deleted
    assert!(!header(1, Some(2)).is_visible(5, &snap, &tm));
    // aborted deleter: still there
    assert!(header(1, Some(3)).is_visible(5, &snap, &tm));
    // deleter in flight when the snapshot was taken
    assert!(header(1, Some(4)).is_visible(5, &snap, &tm));
    // deleter began after the snapshot
    assert!(header(1, Some(7)).is_visible(5, &snap, &tm));
    assert!(header(1, Some(6)).is_visible(5, &snap, &tm));
}

#[test]
fn dead_tuples_have_a_committed_deleter() {
    let tm = tm_with(
        &[(2, TxStatus::Committed), (3, TxStatus::Aborted), (4, TxStatus::InProgress)],
        5,
    );
    assert!(!header(1, None).is_dead(&tm));
    assert!(header(1, Some(2)).is_dead(&tm));
    assert!(!header(1, Some(3)).is_dead(&tm));
    assert!(!header(1, Some(4)).is_dead(&tm));
    assert!(header(1, Some(99)).is_dead(&tm));
}
