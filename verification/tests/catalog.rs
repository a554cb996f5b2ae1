use povertygres::catalog::catalog_manager::CatalogManager;
use povertygres::catalog::validate::validate_catalog;
use povertygres::errors::catalog_error::CatalogError;
use povertygres::errors::engine_error::EngineError;
use povertygres::types::catalog_types::{
    CatColumnType, Catalog, ColumnMeta, NamedTable, TableMeta,
};
use povertygres::types::storage_types::ColumnType;
use povertygres::types::transaction_types::TxStatus;

fn cm(name: &str) -> ColumnMeta {
    ColumnMeta { name: name.to_string(), ty: CatColumnType::Int32, not_null: false, default: None }
}

fn table(name: &str, oid: u32, file: &str, cols: &[&str]) -> NamedTable {
    NamedTable {
        name: name.to_string(),
        meta: TableMeta {
            oid,
            file: file.to_string(),
            columns: cols.iter().map(|c| cm(c)).collect(),
            next_rowid: 1,
            primary_key: None,
            foreign_keys: vec![],
        },
    }
}

#[test]
fn empty_catalog_has_the_documented_start_values() {
    let c = Catalog::empty(8192);
    assert_eq!(c.version, 1);
    assert_eq!(c.page_size, 8192);
    assert_eq!(c.next_table_oid, 1);
    assert_eq!(c.next_xid, 1);
    assert!(c.tables.is_empty());
    assert!(c.indexes.is_empty());
    assert!(c.transactions.is_empty());
    assert!(!c.has_table("u"));
    assert_eq!(validate_catalog(&c), Ok(()));
}

#[test]
fn validation_finds_each_fault() {
    let mut c = Catalog::empty(8192);
    c.version = 2;
    assert_eq!(validate_catalog(&c), Err(CatalogError::UnsupportedVersion));
    let c = Catalog::empty(4096);
    assert_eq!(validate_catalog(&c), Err(CatalogError::PageSizeMismatch));
    let mut c = Catalog::empty(8192);
    c.tables.push(table("a", 1, "a.tbl", &["x", "y"]));
    c.tables.push(table("b", 1, "b.tbl", &["x"]));
    assert_eq!(validate_catalog(&c), Err(CatalogError::DuplicateOid));
    c.tables[1].meta.oid = 2;
    c.tables[1].meta.file = "a.tbl".to_string();
    assert_eq!(validate_catalog(&c), Err(CatalogError::FileReused));
    c.tables[1].meta.file = "b.tbl".to_string();
    assert_eq!(validate_catalog(&c), Ok(()));
    c.tables[0].meta.columns.push(cm("x"));
    assert_eq!(validate_catalog(&c), Err(CatalogError::DuplicateColumn));
    assert!(CatalogError::DuplicateColumn.is_invalid());
    assert!(!CatalogError::TableExists("u".to_string()).is_invalid());
    assert!(CatalogError::DuplicateTable.is_invalid());
    assert!(!CatalogError::HeapFilesMismatch.is_invalid());
}

#[test]
fn manager_opens_on_nothing_or_on_a_sound_catalog() {
    let m = CatalogManager::open("data", None).unwrap();
    assert_eq!(m.data_dir, "data");
    assert_eq!(m.catalog().version, 1);
    assert_eq!(m.catalog().page_size, 8192);
    let mut c = Catalog::empty(8192);
    c.tables.push(table("a", 1, "a.tbl", &["x"]));
    c.next_table_oid = 2;
    let m = CatalogManager::open("data", Some(c)).unwrap();
    assert!(m.catalog().has_table("a"));
    match CatalogManager::open("data", Some(Catalog::empty(4096))) {
        Err(e) => assert_eq!(e, CatalogError::PageSizeMismatch),
        Ok(_) => panic!("a catalog of another page size was accepted"),
    }
    let mut old = Catalog::empty(8192);
    old.version = 0;
    assert!(matches!(
        CatalogManager::open("data", Some(old)),
        Err(CatalogError::UnsupportedVersion)
    ));
}

#[test]
fn tables_get_ids_and_files() {
    let mut m = CatalogManager::open("data", None).unwrap();
    {
        let meta = m.create_table("users", vec![cm("id")], Some("id".to_string()), vec![]).unwrap();
        assert_eq!(meta.oid, 1);
        assert_eq!(meta.file, "data/users.tbl");
        assert_eq!(meta.next_rowid, 1);
        assert_eq!(meta.primary_key, Some("id".to_string()));
    }
    {
        let meta = m.create_table("orders", vec![cm("id")], None, vec![]).unwrap();
        assert_eq!(meta.oid, 2);
        assert_eq!(meta.file, "data/orders.tbl");
    }
    assert_eq!(m.catalog().next_table_oid, 3);
    assert_eq!(
        m.create_table("users", vec![], None, vec![]).err(),
        Some(CatalogError::TableExists("users".to_string()))
    );
    assert_eq!(m.catalog().tables.len(), 2);
}

#[test]
fn indexes_need_a_table_and_a_new_name() {
    let mut m = CatalogManager::open("data", None).unwrap();
    assert_eq!(
        m.create_index("i", "users", &vec!["id".to_string()]).err(),
        Some(CatalogError::TableNotFound("users".to_string()))
    );
    m.create_table("users", vec![cm("id")], None, vec![]).unwrap();
    {
        let im = m.create_index("i", "users", &vec!["id".to_string()]).unwrap();
        assert_eq!(im.name, "i");
        assert_eq!(im.table, "users");
        assert_eq!(im.columns, vec!["id".to_string()]);
    }
    assert_eq!(
        m.create_index("i", "users", &vec!["id".to_string()]).err(),
        Some(CatalogError::IndexExists("i".to_string()))
    );
    assert_eq!(m.get_indexes().len(), 1);
}

#[test]
fn statuses_and_the_next_xid_are_recorded() {
    let mut m = CatalogManager::open("data", None).unwrap();
    m.set_next_xid(9);
    m.set_status(8, TxStatus::Aborted);
    assert_eq!(m.catalog().next_xid, 9);
    assert_eq!(m.catalog().transactions.get(&8), Some(&TxStatus::Aborted));
}

#[test]
fn catalog_types_name_column_types() {
    assert_eq!(CatColumnType::Int32.column_type(), ColumnType::Int);
    assert_eq!(CatColumnType::Text.column_type(), ColumnType::Text);
    assert_eq!(CatColumnType::Bool.column_type(), ColumnType::Bool);
    assert_eq!(CatColumnType::of(ColumnType::Int), CatColumnType::Int32);
    assert_eq!(CatColumnType::of(ColumnType::Text), CatColumnType::Text);
    assert_eq!(CatColumnType::of(ColumnType::Bool), CatColumnType::Bool);
}

#[test]
fn catalog_type_names_convert_to_column_types() {
    assert_eq!(ColumnType::from(CatColumnType::Int32), ColumnType::Int);
    assert_eq!(ColumnType::from(CatColumnType::Text), ColumnType::Text);
    assert_eq!(ColumnType::from(CatColumnType::Bool), ColumnType::Bool);
    assert_eq!(CatColumnType::of(ColumnType::Int), CatColumnType::Int32);
    assert_eq!(CatColumnType::of(ColumnType::Text), CatColumnType::Text);
    assert_eq!(CatColumnType::of(ColumnType::Bool), CatColumnType::Bool);
}

#[test]
fn engine_error_from_text_is_other() {
    match EngineError::from(String::from("bad")) {
        EngineError::Other(s) => assert_eq!(s, "bad"),
        _ => panic!("expected the text to be kept"),
    }
}

#[test]
fn no_table_id_is_left_after_the_last() {
    let mut cat = Catalog::empty(8192);
    cat.next_table_oid = u32::MAX;
    let mut m = CatalogManager::open("data", Some(cat)).unwrap();
    assert!(matches!(
        m.create_table("u", vec![cm("id")], None, vec![]),
        Err(CatalogError::TableIdsExhausted)
    ));
    assert!(m.catalog().tables.is_empty());
    assert_eq!(m.catalog().next_table_oid, u32::MAX);
}
