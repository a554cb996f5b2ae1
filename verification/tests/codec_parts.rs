use povertygres::consts::PAGE_SIZE;
use povertygres::storage::bytes::{
    append_bytes, copy_range, read_u16, read_u32, u16_le, u32_le, write_bytes,
};
use povertygres::storage::codec::{encode_row, encode_value_into, read_tuple, read_value};
use povertygres::types::catalog_types::{Catalog, IndexMeta};
use povertygres::types::filter_types::CmpOp;
use povertygres::types::page_types::Page;
use povertygres::types::storage_types::{
    copy_values, find_column, value_fits_type, Column, ColumnType, Database, Row, Value, ValueType,
};
use povertygres::types::value_order::{order_bytes, order_keys, order_values, Order};

fn col(name: &str, ty: ColumnType) -> Column {
    Column { name: name.to_string(), column_type: ty, not_null: false, default: None }
}

fn t(s: &str) -> Value {
    Value::Text(s.to_string())
}

#[test]
fn numbers_are_read_low_byte_first() {
    let data = [0x34u8, 0x12, 0x78, 0x56, 0xff, 0xff];
    assert_eq!(read_u16(&data, 0), 0x1234);
    assert_eq!(read_u16(&data, 1), 0x7812);
    assert_eq!(read_u16(&data, 4), 0xffff);
    assert_eq!(read_u32(&data, 0), 0x5678_1234);
    assert_eq!(read_u32(&data, 2), 0xffff_5678);
    assert_eq!(u16_le(0x1234), vec![0x34, 0x12]);
    assert_eq!(u16_le(0), vec![0, 0]);
    assert_eq!(u16_le(0xffff), vec![0xff, 0xff]);
    assert_eq!(u32_le(0x1234_5678), vec![0x78, 0x56, 0x34, 0x12]);
    assert_eq!(u32_le(u32::MAX), vec![0xff, 0xff, 0xff, 0xff]);
    assert_eq!(u32_le(256), vec![0, 1, 0, 0]);
    assert_eq!(read_u32(&u32_le(0xdead_beef), 0), 0xdead_beef);
    assert_eq!(read_u16(&u16_le(0xbeef), 0), 0xbeef);
    assert_eq!(copy_range(&data, 1, 3), vec![0x12, 0x78]);
    assert_eq!(copy_range(&data, 2, 2), Vec::<u8>::new());
    let mut v = vec![1u8];
    append_bytes(&mut v, &[2, 3]);
    append_bytes(&mut v, &[]);
    assert_eq!(v, vec![1, 2, 3]);
}

#[test]
fn bytes_are_written_over_a_page() {
    let mut data = [7u8; PAGE_SIZE];
    write_bytes(&mut data, 10, &[1, 2, 3]);
    write_bytes(&mut data, PAGE_SIZE - 1, &[9]);
    write_bytes(&mut data, 0, &[]);
    assert_eq!(&data[8..15], &[7, 7, 1, 2, 3, 7, 7]);
    assert_eq!(data[PAGE_SIZE - 1], 9);
    assert_eq!(data[PAGE_SIZE - 2], 7);
    assert_eq!(data[0], 7);
}

#[test]
fn values_have_their_bytes() {
    let mut buf = vec![0xaau8];
    encode_value_into(&mut buf, &Value::Int(-2));
    assert_eq!(buf, vec![0xaa, 0xfe, 0xff, 0xff, 0xff]);
    encode_value_into(&mut buf, &Value::Null);
    assert_eq!(buf.len(), 5);
    encode_value_into(&mut buf, &Value::Bool(true));
    encode_value_into(&mut buf, &Value::Bool(false));
    assert_eq!(&buf[5..], &[1, 0]);
    let mut text = Vec::new();
    encode_value_into(&mut text, &t("h\u{e9}"));
    assert_eq!(text, vec![3, 0, b'h', 0xc3, 0xa9]);
    // an integer is stored as its low 32 bits
    let mut wide = Vec::new();
    encode_value_into(&mut wide, &Value::Int((1 << 32) + 5));
    assert_eq!(wide, vec![5, 0, 0, 0]);
    assert_eq!(read_value(&wide, 0, ColumnType::Int), Some((Value::Int(5), 4)));
    assert_eq!(read_value(&text, 0, ColumnType::Text), Some((t("h\u{e9}"), 5)));
    assert_eq!(read_value(&[0xfe, 0xff, 0xff, 0xff], 0, ColumnType::Int), Some((Value::Int(-2), 4)));
    assert_eq!(read_value(&[9, 1], 1, ColumnType::Bool), Some((Value::Bool(true), 2)));
    assert_eq!(read_value(&[9, 0], 1, ColumnType::Bool), Some((Value::Bool(false), 2)));
    // too few bytes, or bytes that are no text
    assert_eq!(read_value(&[1, 2, 3], 0, ColumnType::Int), None);
    assert_eq!(read_value(&[1], 1, ColumnType::Bool), None);
    assert_eq!(read_value(&[3, 0, b'a'], 0, ColumnType::Text), None);
    assert_eq!(read_value(&[1, 0, 0xff], 0, ColumnType::Text), None);
}

#[test]
fn a_tuple_is_its_header_and_its_values() {
    let row = Row { values: vec![Value::Int(1), Value::Null, t("ab"), Value::Bool(true)] };
    let bytes = encode_row(&row, 7);
    assert_eq!(
        bytes,
        vec![
            7, 0, 0, 0, // xmin
            0, 0, 0, 0, // xmax
            1, 0, // length of the null bitmap
            0b0000_0010, // the second value is NULL
            0, 0, // flags
            1, 0, 0, 0, // 1
            2, 0, b'a', b'b', // "ab"
            1, // TRUE
        ]
    );
    let columns = vec![
        col("a", ColumnType::Int),
        col("b", ColumnType::Int),
        col("c", ColumnType::Text),
        col("d", ColumnType::Bool),
    ];
    let (header, back) = read_tuple(&bytes, &columns).unwrap();
    assert_eq!(header.xmin, 7);
    assert_eq!(header.xmax, None);
    assert_eq!(header.flags, 0);
    assert_eq!(back.values, row.values);
    // a tuple that ends too early cannot be read
    assert!(read_tuple(&bytes[..bytes.len() - 1], &columns).is_none());
    assert!(read_tuple(&bytes[..5], &columns).is_none());
    // a page reads the item ids that it wrote
    let mut p = Page::new(0);
    p.insert_tuple(Row { values: row.values.clone() }, 7).unwrap();
    let item = p.read_item(0);
    assert_eq!(item.offset, 16);
    assert_eq!(item.len as usize, bytes.len());
    assert!(item.is_used());
}

#[test]
fn values_know_their_kind() {
    assert_eq!(Value::Int(1).vtype(), ValueType::Int);
    assert_eq!(t("x").vtype(), ValueType::Text);
    assert_eq!(Value::Bool(true).vtype(), ValueType::Bool);
    assert_eq!(Value::Null.vtype(), ValueType::Null);
    assert_eq!(ValueType::Int.name(), "INT");
    assert_eq!(ValueType::Text.name(), "TEXT");
    assert_eq!(ValueType::Bool.name(), "BOOL");
    assert_eq!(ValueType::Null.name(), "NULL");
    assert!(Value::Null.is_null());
    assert!(!Value::Int(0).is_null());
    assert!(Value::Null.same(&Value::Null));
    assert!(t("a").same(&t("a")));
    assert!(!t("a").same(&t("b")));
    assert!(!Value::Int(1).same(&Value::Bool(true)));
    assert_eq!(Value::Int(3).copy(), Value::Int(3));
    assert_eq!(copy_values(&vec![Value::Null, t("a")]), vec![Value::Null, t("a")]);
    assert!(value_fits_type(&Value::Int(1), ColumnType::Int));
    assert!(!value_fits_type(&Value::Int(1), ColumnType::Text));
    assert!(value_fits_type(&t("x"), ColumnType::Text));
    assert!(value_fits_type(&Value::Bool(true), ColumnType::Bool));
    assert!(!value_fits_type(&Value::Bool(true), ColumnType::Int));
    assert!(value_fits_type(&Value::Null, ColumnType::Bool));
    let ops = [CmpOp::Eq, CmpOp::Ne, CmpOp::Lt, CmpOp::Lte, CmpOp::Gt, CmpOp::Gte];
    let symbols: Vec<&str> = ops.iter().map(|o| o.symbol()).collect();
    assert_eq!(symbols, vec!["=", "!=", "<", "<=", ">", ">="]);
}

#[test]
fn values_and_bytes_have_their_order() {
    assert_eq!(order_bytes(b"ab", b"ab"), Order::Equal);
    assert_eq!(order_bytes(b"ab", b"abc"), Order::Less);
    assert_eq!(order_bytes(b"b", b"abc"), Order::Greater);
    assert_eq!(order_bytes(b"", b""), Order::Equal);
    assert_eq!(order_values(&Value::Int(-1), &Value::Int(1)), Order::Less);
    assert_eq!(order_values(&t("b"), &t("a")), Order::Greater);
    assert_eq!(order_values(&Value::Bool(false), &Value::Bool(true)), Order::Less);
    assert_eq!(order_values(&Value::Null, &Value::Null), Order::Equal);
    // values of different kinds are ordered as the kinds are declared
    assert_eq!(order_values(&Value::Int(9), &t("")), Order::Less);
    assert_eq!(order_values(&t("z"), &Value::Bool(false)), Order::Less);
    assert_eq!(order_values(&Value::Bool(true), &Value::Null), Order::Less);
    assert_eq!(order_values(&Value::Null, &Value::Int(0)), Order::Greater);
    assert_eq!(order_keys(&vec![Value::Int(1), t("a")], &vec![Value::Int(1), t("b")]), Order::Less);
    assert_eq!(order_keys(&vec![Value::Int(1)], &vec![Value::Int(1), t("b")]), Order::Less);
    assert_eq!(order_keys(&vec![Value::Int(2)], &vec![Value::Int(1), t("b")]), Order::Greater);
    assert_eq!(order_keys(&vec![], &vec![]), Order::Equal);
}

#[test]
fn tables_indexes_and_columns_are_found_by_name() {
    let columns = vec![col("id", ColumnType::Int), col("name", ColumnType::Text), col("id", ColumnType::Bool)];
    assert_eq!(find_column(&columns, "id"), Some(0));
    assert_eq!(find_column(&columns, "name"), Some(1));
    assert_eq!(find_column(&columns, "Name"), None);
    let mut db = Database::new();
    assert_eq!(db.find_table("u"), None);
    db.create_table("u", vec![col("id", ColumnType::Int)], povertygres::storage::heap_file::HeapFile::new("u"), None, vec![])
        .unwrap();
    db.create_table("v", vec![], povertygres::storage::heap_file::HeapFile::new("v"), None, vec![]).unwrap();
    db.create_index("u_id_idx", "u", vec!["id".to_string()]).unwrap();
    assert_eq!(db.find_table("v"), Some(1));
    assert_eq!(db.find_table("w"), None);
    assert_eq!(db.find_index("u_id_idx"), Some(0));
    assert_eq!(db.find_index("u"), None);
    let mut cat = Catalog::empty(8192);
    assert_eq!(cat.find_table("u"), None);
    assert!(!cat.has_table("u"));
    cat.indexes.push(IndexMeta {
        name: "i".to_string(),
        table: "u".to_string(),
        columns: vec!["id".to_string()],
    });
    assert_eq!(cat.find_index("i"), Some(0));
    assert_eq!(cat.find_index("j"), None);
}

#[test]
fn the_order_of_values_is_the_order_of_keys() {
    let values = vec![
        Value::Int(i64::MIN),
        Value::Int(-1),
        Value::Int(0),
        Value::Int(7),
        t(""),
        t("a"),
        t("ab"),
        t("b"),
        t("\u{e9}"),
        Value::Bool(false),
        Value::Bool(true),
        Value::Null,
    ];
    for (i, a) in values.iter().enumerate() {
        for (j, b) in values.iter().enumerate() {
            let expected = if i < j {
                Order::Less
            } else if i == j {
                Order::Equal
            } else {
                Order::Greater
            };
            assert_eq!(order_values(a, b), expected, "{:?} and {:?}", a, b);
            assert_eq!(a < b, i < j, "{:?} and {:?}", a, b);
            assert_eq!(a == b, i == j);
            assert_eq!(a.cmp(b) as i32, (i as i32 - j as i32).signum());
        }
    }
    let keys = vec![
        vec![],
        vec![Value::Int(1)],
        vec![Value::Int(1), Value::Null],
        vec![Value::Int(2)],
        vec![Value::Null],
    ];
    for (i, a) in keys.iter().enumerate() {
        for (j, b) in keys.iter().enumerate() {
            assert_eq!(order_keys(a, b) == Order::Less, a < b);
            assert_eq!(a < b, i < j);
        }
    }
}
