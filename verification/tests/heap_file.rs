use povertygres::errors::storage_error::StorageError;
use povertygres::storage::heap_file::HeapFile;
use povertygres::types::b_tree::BTreeIndex;
use povertygres::types::page_types::Page;
use povertygres::types::storage_types::{Column, ColumnType, Row, Value};
use povertygres::types::transaction_types::TransactionManager;

fn cols() -> Vec<Column> {
    vec![
        Column { name: "id".to_string(), column_type: ColumnType::Int, not_null: false, default: None },
        Column { name: "t".to_string(), column_type: ColumnType::Text, not_null: false, default: None },
    ]
}

fn row(id: i64, t: &str) -> Row {
    Row { values: vec![Value::Int(id), Value::Text(t.to_string())] }
}

#[test]
fn new_heap_file_has_one_empty_page() {
    let h = HeapFile::new("data/u.tbl");
    assert_eq!(h.path, "data/u.tbl");
    assert_eq!(h.page_count(), 1);
    assert_eq!(h.pages[0].header.slot_count, 0);
    assert_eq!(h.pages[0].header.page_no, 0);
    assert!(h.scan_all(&cols()).is_empty());
}

#[test]
fn rows_go_to_the_last_page_in_order() {
    let mut h = HeapFile::new("x");
    assert_eq!(h.insert_row(row(1, "a"), 5), Ok((0, 0)));
    assert_eq!(h.insert_row(row(2, "b"), 5), Ok((0, 1)));
    let all = h.scan_all(&cols());
    assert_eq!(all.len(), 2);
    assert_eq!((all[0].0, all[0].1), (0, 0));
    assert_eq!(all[0].3.values, row(1, "a").values);
    assert_eq!((all[1].0, all[1].1), (0, 1));
    assert_eq!(all[1].3.values, row(2, "b").values);
    assert_eq!(all[0].2.xmin, 5);
    assert_eq!(all[0].2.xmax, None);
}

#[test]
fn a_full_page_makes_the_file_grow() {
    let mut h = HeapFile::new("x");
    let big = "z".repeat(3000);
    assert_eq!(h.insert_row(row(1, &big), 1), Ok((0, 0)));
    assert_eq!(h.insert_row(row(2, &big), 1), Ok((0, 1)));
    assert_eq!(h.insert_row(row(3, &big), 1), Ok((1, 0)));
    assert_eq!(h.page_count(), 2);
    assert_eq!(h.pages[1].header.page_no, 1);
    // earlier pages are not searched for room
    assert_eq!(h.insert_row(row(4, "small"), 1), Ok((1, 1)));
    let ids: Vec<Value> = h.scan_all(&cols()).into_iter().map(|t| t.3.values[0].clone()).collect();
    assert_eq!(ids, vec![Value::Int(1), Value::Int(2), Value::Int(3), Value::Int(4)]);
}

#[test]
fn a_row_larger_than_a_page_finds_no_space() {
    let mut h = HeapFile::new("x");
    let huge = "z".repeat(9000);
    assert_eq!(h.insert_row(row(1, &huge), 1), Err(StorageError::NoSpace));
    assert_eq!(h.page_count(), 1);
    assert_eq!(h.pages[0].header.slot_count, 0);
}

#[test]
fn get_tuple_reads_a_position() {
    let mut h = HeapFile::new("x");
    h.insert_row(row(1, "a"), 1).unwrap();
    assert_eq!(h.get_tuple(0, 0, &cols()).unwrap().1.values, row(1, "a").values);
    assert!(h.get_tuple(0, 1, &cols()).is_none());
    assert!(h.get_tuple(1, 0, &cols()).is_none());
}

#[test]
fn delete_at_records_the_deleter_and_keeps_the_slot() {
    let mut h = HeapFile::new("x");
    h.insert_row(row(1, "a"), 1).unwrap();
    h.insert_row(row(2, "b"), 1).unwrap();
    assert_eq!(h.delete_at(0, 0, 7), Ok(()));
    let all = h.scan_all(&cols());
    assert_eq!(all.len(), 2);
    assert_eq!(all[0].2.xmax, Some(7));
    assert_eq!(all[0].3.values, row(1, "a").values);
    assert_eq!(all[1].2.xmax, None);
    assert_eq!(h.delete_at(0, 5, 7), Err(StorageError::InvalidSlot));
    assert_eq!(h.delete_at(3, 0, 7), Err(StorageError::InvalidSlot));
}

#[test]
fn update_row_gives_the_new_version_a_position_of_its_own() {
    let mut h = HeapFile::new("x");
    h.insert_row(row(1, "a"), 1).unwrap();
    h.insert_row(row(2, "b"), 1).unwrap();
    assert_eq!(h.update_row(0, 0, row(1, "aa"), 9), Ok((0, 2)));
    let all = h.scan_all(&cols());
    assert_eq!(all.len(), 3);
    assert_eq!(all[0].2.xmax, Some(9));
    assert_eq!(all[2].2.xmin, 9);
    assert_eq!(all[2].2.xmax, None);
    assert_eq!(all[2].3.values, row(1, "aa").values);
    assert_eq!(h.update_row(0, 9, row(1, "x"), 9), Err(StorageError::InvalidSlot));
}

#[test]
fn update_row_moves_to_a_new_page_when_the_page_is_full() {
    let mut h = HeapFile::new("x");
    let big = "z".repeat(3500);
    h.insert_row(row(1, &big), 1).unwrap();
    h.insert_row(row(2, &big), 1).unwrap();
    assert_eq!(h.update_row(0, 0, row(1, &big), 2), Ok((1, 0)));
    assert_eq!(h.get_tuple(0, 0, &cols()).unwrap().0.xmax, Some(2));
    assert_eq!(h.get_tuple(1, 0, &cols()).unwrap().0.xmin, 2);
}

#[test]
fn check_update_foresees_failures() {
    let mut h = HeapFile::new("x");
    h.insert_row(row(1, "a"), 1).unwrap();
    assert_eq!(h.check_update(0, 0, 100), None);
    assert_eq!(h.check_update(0, 1, 100), Some(StorageError::InvalidSlot));
    assert_eq!(h.check_update(2, 0, 100), Some(StorageError::InvalidSlot));
    assert_eq!(h.check_update(0, 0, 9000), Some(StorageError::NoSpace));
}

#[test]
fn vacuum_reclaims_dead_tuples_and_keeps_slot_numbers() {
    let mut tm = TransactionManager::new();
    let x1 = tm.alloc_xid();
    tm.begin(x1);
    let mut h = HeapFile::new("x");
    h.insert_row(row(1, "aaaa"), x1).unwrap();
    h.insert_row(row(2, "bbbb"), x1).unwrap();
    h.insert_row(row(3, "cccc"), x1).unwrap();
    tm.commit(x1);
    let x2 = tm.alloc_xid();
    tm.begin(x2);
    h.delete_at(0, 0, x2).unwrap();
    let x3 = tm.alloc_xid();
    tm.begin(x3);
    h.delete_at(0, 2, x3).unwrap();
    tm.commit(x2);
    tm.rollback(x3);
    let before_start = h.pages[0].header.free_start;
    let before_end = h.pages[0].header.free_end;
    let mut indexes: Vec<BTreeIndex> = Vec::new();
    let removed = h.vacuum(&tm, &cols(), "t", &mut indexes);
    assert_eq!(removed, 1);
    assert_eq!(h.pages[0].header.slot_count, 3);
    assert_eq!(h.pages[0].header.free_end, before_end);
    // one tuple of 13 + 4 + 2 + 4 = 23 bytes is gone
    assert_eq!(h.pages[0].header.free_start, before_start - 23);
    assert!(h.get_tuple(0, 0, &cols()).is_none());
    assert_eq!(h.get_tuple(0, 1, &cols()).unwrap().1.values, row(2, "bbbb").values);
    let third = h.get_tuple(0, 2, &cols()).unwrap();
    assert_eq!(third.1.values, row(3, "cccc").values);
    assert_eq!(third.0.xmax, Some(x3));
    assert!(h.pages[0].is_well_formed());
    assert_eq!(h.delete_at(0, 0, 9), Err(StorageError::SlotAlreadyUnused));
    // a new row takes a new slot
    assert_eq!(h.insert_row(row(4, "dddd"), 9), Ok((0, 3)));
    assert_eq!(h.vacuum(&tm, &cols(), "t", &mut indexes), 0);
}

#[test]
fn from_pages_checks_the_pages() {
    let mut first = Page::new(0);
    first.insert_tuple(row(1, "a"), 1).unwrap();
    let second = Page::new(1);
    let h = HeapFile::from_pages("f", vec![first.copy(), second.copy()]).unwrap();
    assert_eq!(h.page_count(), 2);
    assert_eq!(h.scan_all(&cols()).len(), 1);
    assert!(HeapFile::from_pages("f", vec![]).is_none());
    assert!(HeapFile::from_pages("f", vec![second.copy()]).is_none());
    let mut bad = Page::new(0);
    bad.header.free_start = 3;
    assert!(HeapFile::from_pages("f", vec![bad]).is_none());
}

#[test]
fn pages_are_read_written_and_appended() {
    let mut h = HeapFile::new("x");
    h.insert_row(row(1, "a"), 1).unwrap();
    let mut first = h.read_page(0);
    assert_eq!(first.header.page_no, 0);
    assert_eq!(first.header.slot_count, 1);
    assert_eq!(first.insert_tuple(row(2, "b"), 1), Ok(1));
    // the copy changed, the file did not
    assert_eq!(h.scan_all(&cols()).len(), 1);
    h.write_page(&first);
    assert_eq!(h.scan_all(&cols()).len(), 2);
    assert_eq!(h.read_page(0).to_bytes(), first.to_bytes());
    let added = h.append_page();
    assert_eq!(added.header.page_no, 1);
    assert_eq!(added.header.slot_count, 0);
    assert_eq!(h.page_count(), 2);
    assert_eq!(h.read_page(1).to_bytes(), Page::new(1).to_bytes());
    // rows go to the last page from now on
    assert_eq!(h.insert_row(row(3, "c"), 1), Ok((1, 0)));
}
