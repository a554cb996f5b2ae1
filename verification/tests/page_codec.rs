use povertygres::consts::{ITEM_ID_SIZE, PAGE_HEADER_SIZE, PAGE_SIZE};
use povertygres::errors::storage_error::StorageError;
use povertygres::types::page_types::{ItemId, NullBitmap, Page, PageHeader, TupleHeader};
use povertygres::types::storage_types::{Column, ColumnType, Row, Value};

fn col(name: &str, ty: ColumnType) -> Column {
    Column { name: name.to_string(), column_type: ty, not_null: false, default: None }
}

fn schema() -> Vec<Column> {
    vec![
        col("id", ColumnType::Int),
        col("name", ColumnType::Text),
        col("ok", ColumnType::Bool),
        col("note", ColumnType::Text),
    ]
}

fn sample_row() -> Row {
    Row {
        values: vec![
            Value::Int(-7),
            Value::Text("alice".to_string()),
            Value::Bool(true),
            Value::Null,
        ],
    }
}

#[test]
fn new_page_is_empty() {
    let p = Page::new(3);
    assert_eq!(p.header.page_no, 3);
    assert_eq!(p.header.slot_count, 0);
    assert_eq!(p.header.free_start as usize, PAGE_HEADER_SIZE);
    assert_eq!(p.header.free_end as usize, PAGE_SIZE);
    assert_eq!(p.header.checksum, 0);
    assert!(p.is_well_formed());
    assert_eq!(&p.data[0..4], &[3, 0, 0, 0]);
    assert!(p.data[16..].iter().all(|b| *b == 0));
}

#[test]
fn page_header_bytes_are_little_endian() {
    let h = PageHeader {
        page_no: 0x01020304,
        slot_count: 0x0506,
        free_start: 0x0708,
        free_end: 0x090a,
        checksum: 0x0b0c0d0e,
    };
    let b = h.to_bytes();
    assert_eq!(
        b,
        [0x04, 0x03, 0x02, 0x01, 0x06, 0x05, 0x08, 0x07, 0x0a, 0x09, 0x0e, 0x0d, 0x0c, 0x0b, 0, 0]
    );
    let back = PageHeader::from_bytes(&b);
    assert_eq!(back, h);
}

#[test]
fn item_id_bytes_round_trip() {
    let mut item = ItemId { offset: 0x1234, len: 0x0056, flags: 1 };
    let b = item.to_bytes();
    assert_eq!(b, [0x34, 0x12, 0x56, 0x00, 0x01, 0x00]);
    assert_eq!(ItemId::from_bytes(&b), item);
    assert!(item.is_used());
    item.mark_unused();
    assert!(!item.is_used());
    assert_eq!(item.offset, 0x1234);
    assert_eq!(item.len, 0x0056);
}

#[test]
fn null_bitmap_marks_columns() {
    let mut m = NullBitmap::new(10);
    assert_eq!(m.size(), 2);
    assert!(!m.is_null(0));
    m.set_null(0);
    m.set_null(9);
    assert!(m.is_null(0));
    assert!(!m.is_null(1));
    assert!(m.is_null(9));
    assert_eq!(m.bytes, vec![0b0000_0001, 0b0000_0010]);
    assert_eq!(NullBitmap::new(0).size(), 0);
    assert_eq!(NullBitmap::new(8).size(), 1);
    assert_eq!(NullBitmap::new(9).size(), 2);
}

#[test]
fn tuple_header_bytes_round_trip() {
    let h = TupleHeader {
        xmin: 5,
        xmax: Some(9),
        nullmap_bytes: NullBitmap { bytes: vec![0b101] },
        flags: 0x0201,
    };
    let b = h.to_bytes();
    assert_eq!(b, vec![5, 0, 0, 0, 9, 0, 0, 0, 1, 0, 0b101, 0x01, 0x02]);
    assert!(TupleHeader::fits(&b));
    let back = TupleHeader::from_bytes(&b);
    assert_eq!(back.xmin, 5);
    assert_eq!(back.xmax, Some(9));
    assert_eq!(back.nullmap_bytes.bytes, vec![0b101]);
    assert_eq!(back.flags, 0x0201);
    assert!(!TupleHeader::fits(&b[..12]));
    assert!(!TupleHeader::fits(&b[..5]));
}

#[test]
fn tuple_header_without_deleter_stores_zero() {
    let h = TupleHeader { xmin: 7, xmax: None, nullmap_bytes: NullBitmap::new(0), flags: 0 };
    let b = h.to_bytes();
    assert_eq!(b, vec![7, 0, 0, 0, 0, 0, 0, 0, 0, 0, 0, 0]);
    assert_eq!(TupleHeader::from_bytes(&b).xmax, None);
}

#[test]
fn insert_tuple_writes_the_documented_layout() {
    let mut p = Page::new(0);
    let slot = p.insert_tuple(sample_row(), 42).unwrap();
    assert_eq!(slot, 0);
    // header 4 + 4 + 2 + 1 (bitmap) + 2, then Int 4, Text 2 + 5, Bool 1
    let tuple_len = 13 + 4 + 7 + 1;
    assert_eq!(p.header.slot_count, 1);
    assert_eq!(p.header.free_start as usize, PAGE_HEADER_SIZE + tuple_len);
    assert_eq!(p.header.free_end as usize, PAGE_SIZE - ITEM_ID_SIZE);
    let t = &p.data[16..16 + tuple_len];
    assert_eq!(&t[0..4], &[42, 0, 0, 0]);
    assert_eq!(&t[4..8], &[0, 0, 0, 0]);
    assert_eq!(&t[8..10], &[1, 0]);
    assert_eq!(t[10], 0b0000_1000);
    assert_eq!(&t[11..13], &[0, 0]);
    assert_eq!(&t[13..17], &(-7i32).to_le_bytes());
    assert_eq!(&t[17..19], &[5, 0]);
    assert_eq!(&t[19..24], b"alice");
    assert_eq!(t[24], 1);
    let item = ItemId::from_bytes(&p.data[PAGE_SIZE - 6..]);
    assert_eq!(item, ItemId { offset: 16, len: tuple_len as u16, flags: 1 });
    assert!(p.is_well_formed());
}

#[test]
fn inserted_row_is_read_back() {
    let mut p = Page::new(0);
    let a = p.insert_tuple(sample_row(), 3).unwrap();
    let b = p
        .insert_tuple(
            Row {
                values: vec![
                    Value::Null,
                    Value::Text("h\u{e9}llo \u{4e16}\u{754c}".to_string()),
                    Value::Bool(false),
                    Value::Text(String::new()),
                ],
            },
            4,
        )
        .unwrap();
    assert_eq!((a, b), (0, 1));
    let (h0, r0) = p.get_tuple(0, &schema()).unwrap();
    assert_eq!(h0.xmin, 3);
    assert_eq!(h0.xmax, None);
    assert_eq!(r0.values, sample_row().values);
    let (h1, r1) = p.get_tuple(1, &schema()).unwrap();
    assert_eq!(h1.xmin, 4);
    assert_eq!(
        r1.values,
        vec![
            Value::Null,
            Value::Text("h\u{e9}llo \u{4e16}\u{754c}".to_string()),
            Value::Bool(false),
            Value::Text(String::new()),
        ]
    );
}

#[test]
fn integers_are_stored_in_32_bits() {
    let cols = vec![col("n", ColumnType::Int)];
    let mut p = Page::new(0);
    p.insert_tuple(Row { values: vec![Value::Int(i32::MAX as i64)] }, 1).unwrap();
    p.insert_tuple(Row { values: vec![Value::Int(i32::MIN as i64)] }, 1).unwrap();
    p.insert_tuple(Row { values: vec![Value::Int(1i64 << 32)] }, 1).unwrap();
    assert_eq!(p.get_tuple(0, &cols).unwrap().1.values, vec![Value::Int(i32::MAX as i64)]);
    assert_eq!(p.get_tuple(1, &cols).unwrap().1.values, vec![Value::Int(i32::MIN as i64)]);
    assert_eq!(p.get_tuple(2, &cols).unwrap().1.values, vec![Value::Int(0)]);
}

#[test]
fn get_tuple_of_missing_slot_is_none() {
    let mut p = Page::new(0);
    assert!(p.get_tuple(0, &schema()).is_none());
    p.insert_tuple(sample_row(), 1).unwrap();
    assert!(p.get_tuple(0, &schema()).is_some());
    assert!(p.get_tuple(1, &schema()).is_none());
    assert!(p.get_tuple(70000, &schema()).is_none());
}

#[test]
fn text_that_is_not_utf8_is_not_read() {
    let cols = vec![col("t", ColumnType::Text)];
    let mut p = Page::new(0);
    p.insert_tuple(Row { values: vec![Value::Text("ab".to_string())] }, 1).unwrap();
    assert!(p.get_tuple(0, &cols).is_some());
    // header is 13 bytes, then two bytes of length, then the text
    p.data[16 + 13 + 2] = 0xff;
    assert!(p.get_tuple(0, &cols).is_none());
}

#[test]
fn page_reports_no_space() {
    let cols = vec![col("t", ColumnType::Text)];
    let mut p = Page::new(0);
    let big = "x".repeat(4000);
    assert_eq!(p.insert_tuple(Row { values: vec![Value::Text(big.clone())] }, 1), Ok(0));
    assert_eq!(p.insert_tuple(Row { values: vec![Value::Text(big.clone())] }, 1), Ok(1));
    let before_start = p.header.free_start;
    let before_end = p.header.free_end;
    assert_eq!(
        p.insert_tuple(Row { values: vec![Value::Text(big)] }, 1),
        Err(StorageError::NoSpace)
    );
    assert_eq!(p.header.slot_count, 2);
    assert_eq!(p.header.free_start, before_start);
    assert_eq!(p.header.free_end, before_end);
    assert_eq!(p.get_tuple(1, &cols).unwrap().1.values.len(), 1);
}

#[test]
fn tuple_fits_exactly_into_the_free_space() {
    // free space of an empty page: 8192 - 16 = 8176; item id 6; header 13; length prefix 2
    let exact = 8176 - 6 - 13 - 2;
    let mut p = Page::new(0);
    assert_eq!(
        p.insert_tuple(Row { values: vec![Value::Text("y".repeat(exact))] }, 1),
        Ok(0)
    );
    assert_eq!(p.header.free_start, p.header.free_end);
    let mut q = Page::new(0);
    assert_eq!(
        q.insert_tuple(Row { values: vec![Value::Text("y".repeat(exact + 1))] }, 1),
        Err(StorageError::NoSpace)
    );
}

#[test]
fn page_bytes_round_trip() {
    let mut p = Page::new(9);
    p.insert_tuple(sample_row(), 2).unwrap();
    let bytes = p.to_bytes();
    assert_eq!(&bytes[0..4], &[9, 0, 0, 0]);
    assert_eq!(&bytes[4..6], &[1, 0]);
    let q = Page::from_bytes(bytes);
    assert_eq!(q.header, p.header);
    assert_eq!(q.get_tuple(0, &schema()).unwrap().1.values, sample_row().values);
    assert!(q.is_well_formed());
}

#[test]
fn stamp_xmax_marks_the_tuple_in_place() {
    let mut p = Page::new(0);
    p.insert_tuple(sample_row(), 2).unwrap();
    assert_eq!(p.stamp_xmax(0, 11), Ok(()));
    let (h, r) = p.get_tuple(0, &schema()).unwrap();
    assert_eq!(h.xmin, 2);
    assert_eq!(h.xmax, Some(11));
    assert_eq!(r.values, sample_row().values);
    assert_eq!(p.stamp_xmax(1, 11), Err(StorageError::InvalidSlot));
    assert!(p.is_well_formed());
}

#[test]
fn corrupt_pages_are_not_well_formed() {
    let mut p = Page::new(0);
    p.insert_tuple(sample_row(), 2).unwrap();
    p.insert_tuple(sample_row(), 2).unwrap();
    assert!(p.is_well_formed());
    let mut a = p.copy();
    a.header.free_start = 10;
    assert!(!a.is_well_formed());
    let mut b = p.copy();
    b.header.free_end = 8000;
    assert!(!b.is_well_formed());
    let mut c = p.copy();
    // let the second tuple begin inside the first
    let at = PAGE_SIZE - 2 * ITEM_ID_SIZE;
    c.data[at] = 20;
    c.data[at + 1] = 0;
    assert!(!c.is_well_formed());
    let mut d = p.copy();
    d.header.slot_count = 3;
    assert!(!d.is_well_formed());
}

#[test]
fn a_tuple_too_short_for_a_header_cannot_be_stamped() {
    let mut p = Page::new(0);
    p.insert_tuple(sample_row(), 2).unwrap();
    // shorten the tuple to four bytes: too few to hold xmin and xmax
    let at = PAGE_SIZE - ITEM_ID_SIZE;
    p.data[at + 2] = 4;
    p.data[at + 3] = 0;
    assert!(p.is_well_formed());
    let before = p.copy();
    assert_eq!(p.stamp_xmax(0, 11), Err(StorageError::CorruptTupleHeader));
    assert_eq!(p.to_bytes(), before.to_bytes());
    assert!(p.get_tuple(0, &schema()).is_none());
}
