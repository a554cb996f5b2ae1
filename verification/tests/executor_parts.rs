use povertygres::errors::engine_error::DbError;
use povertygres::errors::eval_error::EvalError;
use povertygres::executer::filter::{eval_operand, search_column, Found};
use povertygres::executer::help_functions::{
    any_match, build_key, ensure_not_referenced, is_all_null, matches_row, pick_values,
    resolve_columns, validate_foreign_keys,
};
use povertygres::executer::insert::apply_defaults;
use povertygres::executer::join::{join_tables, keep_visible, single_meta, JoinTable, JoinTableColumn};
use povertygres::executer::select::{
    extract_eq_conditions, extract_range_condition, find_idx, phys_to_join, rows_at, TableArg,
};
use povertygres::executer::update::{normalize_col, resolve_targets};
use povertygres::parser::where_parser::parse_where;
use povertygres::storage::heap_file::HeapFile;
use povertygres::types::b_tree::KeyBound;
use povertygres::types::parser_types::{Aliases, FromItem, JoinKind, Operand};
use povertygres::types::storage_types::{
    Column, ColumnType, Database, ForeignKeyConstraint, Row, Value,
};
use povertygres::types::transaction_types::{Snapshot, TransactionManager};

fn col(name: &str, ty: ColumnType) -> Column {
    Column { name: name.to_string(), column_type: ty, not_null: false, default: None }
}

fn names(ns: &[&str]) -> Vec<String> {
    ns.iter().map(|n| n.to_string()).collect()
}

fn t(s: &str) -> Value {
    Value::Text(s.to_string())
}

fn jc(alias: &str, name: &str) -> JoinTableColumn {
    JoinTableColumn { table_alias: alias.to_string(), column_name: name.to_string() }
}

/// A database with a parent table `p (id)` and a child table `c (id, pid)`
/// whose `pid` refers to `p (id)`.
fn family() -> Database {
    let mut db = Database::new();
    db.create_table(
        "p",
        vec![col("id", ColumnType::Int)],
        HeapFile::new("data/p.tbl"),
        Some("id".to_string()),
        vec![],
    )
    .unwrap();
    db.create_table(
        "c",
        vec![col("id", ColumnType::Int), col("pid", ColumnType::Int)],
        HeapFile::new("data/c.tbl"),
        None,
        vec![ForeignKeyConstraint {
            local_columns: names(&["pid"]),
            referenced_table: "p".to_string(),
            referenced_columns: names(&["id"]),
        }],
    )
    .unwrap();
    db
}

fn begin(db: &mut Database) -> (u32, Snapshot) {
    let xid = db.transaction_manager.alloc_xid();
    db.transaction_manager.begin(xid);
    (xid, db.transaction_manager.snapshot())
}

fn all_rows(db: &Database, table: &str, xid: u32, snapshot: &Snapshot) -> Vec<Vec<Value>> {
    let (_, rows) = db
        .select(TableArg::TableName(table.to_string()), &names(&["*"]), None, xid, snapshot)
        .unwrap();
    rows.into_iter().map(|r| r.values).collect()
}

#[test]
fn a_key_takes_the_values_of_the_index_columns_in_their_order() {
    let columns = vec![col("a", ColumnType::Int), col("b", ColumnType::Text), col("c", ColumnType::Bool)];
    let row = vec![Value::Int(1), t("x"), Value::Bool(true)];
    assert_eq!(build_key(&names(&["c", "a"]), &columns, &row, "u").unwrap(), vec![Value::Bool(true), Value::Int(1)]);
    assert_eq!(build_key(&names(&[]), &columns, &row, "u").unwrap(), Vec::<Value>::new());
    assert!(matches!(
        build_key(&names(&["a", "z"]), &columns, &row, "u"),
        Err(DbError::IndexColumnMissing(_))
    ));
}

#[test]
fn columns_are_resolved_and_values_picked_by_position() {
    let columns = vec![col("a", ColumnType::Int), col("b", ColumnType::Text)];
    assert_eq!(resolve_columns(&names(&["b", "a", "b"]), &columns), Ok(vec![1, 0, 1]));
    assert_eq!(resolve_columns(&names(&["b", "z", "y"]), &columns), Err("z".to_string()));
    let row = vec![Value::Int(1), t("x")];
    assert_eq!(pick_values(&row, &vec![1, 0]), Some(vec![t("x"), Value::Int(1)]));
    assert_eq!(pick_values(&row, &vec![2]), None);
    assert!(is_all_null(&vec![Value::Null, Value::Null]));
    assert!(is_all_null(&vec![]));
    assert!(!is_all_null(&vec![Value::Null, Value::Int(0)]));
    assert!(matches_row(&row, &vec![1], &vec![t("x")]));
    assert!(!matches_row(&row, &vec![1], &vec![t("y")]));
    assert!(!matches_row(&row, &vec![5], &vec![t("x")]));
}

#[test]
fn a_scan_is_searched_for_a_matching_row() {
    let mut heap = HeapFile::new("x");
    heap.insert_row(Row { values: vec![Value::Int(1), t("a")] }, 1).unwrap();
    heap.insert_row(Row { values: vec![Value::Int(2), t("b")] }, 1).unwrap();
    let schema = vec![col("id", ColumnType::Int), col("name", ColumnType::Text)];
    let scanned = heap.scan_all(&schema);
    assert!(any_match(&scanned, &vec![0], &vec![Value::Int(2)]));
    assert!(any_match(&scanned, &vec![1, 0], &vec![t("a"), Value::Int(1)]));
    assert!(!any_match(&scanned, &vec![1, 0], &vec![t("a"), Value::Int(2)]));
    assert!(!any_match(&scanned, &vec![0], &vec![Value::Int(3)]));
}

#[test]
fn foreign_keys_are_validated_against_the_parent() {
    let mut db = family();
    let (xid, snapshot) = begin(&mut db);
    let child = vec![Value::Int(10), Value::Int(1)];
    assert!(matches!(
        validate_foreign_keys(&db, &db.tables[1], &child),
        Err(DbError::FkViolation(_))
    ));
    // a key that is NULL refers to nothing
    assert!(validate_foreign_keys(&db, &db.tables[1], &vec![Value::Int(10), Value::Null]).is_ok());
    db.insert_into("p", None, vec![Value::Int(1)], xid, &snapshot).unwrap();
    assert!(validate_foreign_keys(&db, &db.tables[1], &child).is_ok());
    // the parent has no foreign key of its own
    assert!(validate_foreign_keys(&db, &db.tables[0], &vec![Value::Int(5)]).is_ok());
}

#[test]
fn a_referenced_row_may_not_go() {
    let mut db = family();
    let (xid, snapshot) = begin(&mut db);
    db.insert_into("p", None, vec![Value::Int(1)], xid, &snapshot).unwrap();
    db.insert_into("p", None, vec![Value::Int(2)], xid, &snapshot).unwrap();
    db.insert_into("c", None, vec![Value::Int(10), Value::Int(1)], xid, &snapshot).unwrap();
    assert!(matches!(
        ensure_not_referenced(&db, "p", &vec![Value::Int(1)]),
        Err(DbError::FkReferenced(_))
    ));
    assert!(ensure_not_referenced(&db, "p", &vec![Value::Int(2)]).is_ok());
    // nothing refers to the child table
    assert!(ensure_not_referenced(&db, "c", &vec![Value::Int(10), Value::Int(1)]).is_ok());
    let filter = parse_where("id = 1").unwrap();
    assert!(matches!(db.delete("p", Some(filter), xid, &snapshot), Err(DbError::FkReferenced(_))));
    let other = parse_where("id = 2").unwrap();
    assert_eq!(db.delete("p", Some(other), xid, &snapshot).unwrap(), 1);
    assert_eq!(all_rows(&db, "p", xid, &snapshot), vec![vec![Value::Int(1)]]);
}

#[test]
fn defaults_fill_what_is_null() {
    let columns = vec![
        Column { name: "a".to_string(), column_type: ColumnType::Int, not_null: true, default: Some(Value::Int(7)) },
        Column { name: "b".to_string(), column_type: ColumnType::Text, not_null: false, default: Some(t("d")) },
        Column { name: "c".to_string(), column_type: ColumnType::Bool, not_null: false, default: None },
    ];
    assert_eq!(
        apply_defaults(&columns, vec![Value::Null, Value::Null, Value::Null]).unwrap(),
        vec![Value::Int(7), t("d"), Value::Null]
    );
    assert_eq!(
        apply_defaults(&columns, vec![Value::Int(1), t("x"), Value::Bool(true)]).unwrap(),
        vec![Value::Int(1), t("x"), Value::Bool(true)]
    );
    let strict = vec![Column { name: "a".to_string(), column_type: ColumnType::Int, not_null: true, default: None }];
    assert!(matches!(apply_defaults(&strict, vec![Value::Null]), Err(DbError::NotNullViolation(_))));
    assert_eq!(apply_defaults(&strict, vec![Value::Int(3)]).unwrap(), vec![Value::Int(3)]);
}

#[test]
fn assignments_are_resolved_to_the_columns() {
    assert_eq!(normalize_col("id", "u"), Some("id".to_string()));
    assert_eq!(normalize_col("u.id", "u"), Some("id".to_string()));
    assert_eq!(normalize_col("v.id", "u"), None);
    let columns = vec![col("id", ColumnType::Int), col("name", ColumnType::Text)];
    // the last assignment to a column wins
    assert_eq!(
        resolve_targets(&columns, "u", &names(&["name", "u.name"]), &vec![t("a"), t("b")]).unwrap(),
        vec![None, Some(t("b"))]
    );
    assert_eq!(
        resolve_targets(&columns, "u", &names(&["id"]), &vec![Value::Null]).unwrap(),
        vec![Some(Value::Null), None]
    );
    assert!(matches!(
        resolve_targets(&columns, "u", &names(&["id", "name"]), &vec![Value::Int(1)]),
        Err(DbError::ColumnCountMismatch)
    ));
    assert!(matches!(
        resolve_targets(&columns, "u", &names(&["age"]), &vec![Value::Int(1)]),
        Err(DbError::ColumnUnknown(_))
    ));
    assert!(matches!(
        resolve_targets(&columns, "u", &names(&["v.id"]), &vec![Value::Int(1)]),
        Err(DbError::ColumnUnknown(_))
    ));
    assert!(matches!(
        resolve_targets(&columns, "u", &names(&["id"]), &vec![t("x")]),
        Err(DbError::TypeMismatch(_))
    ));
}

#[test]
fn columns_of_a_result_are_found_by_name() {
    let meta = vec![jc("u", "id"), jc("u", "name"), jc("o", "id")];
    assert_eq!(find_idx(&meta, "name").unwrap(), 1);
    assert_eq!(find_idx(&meta, "o.id").unwrap(), 2);
    assert_eq!(find_idx(&meta, "u.id").unwrap(), 0);
    assert!(matches!(find_idx(&meta, "age"), Err(DbError::ColumnUnknown(_))));
    assert!(matches!(find_idx(&meta, "x.id"), Err(DbError::ColumnUnknown(_))));
    assert!(matches!(find_idx(&meta, "a.b.c"), Err(DbError::ColumnUnknown(_))));
    match find_idx(&meta, "id") {
        Err(DbError::Eval(EvalError::AmbiguousColumn(name))) => assert_eq!(name, "id"),
        other => panic!("expected ambiguity, got {:?}", other),
    }
    assert!(matches!(search_column(&meta, None, "id"), Found::Many));
    assert!(matches!(search_column(&meta, Some("o"), "id"), Found::One(2)));
    assert!(matches!(search_column(&meta, Some("o"), "name"), Found::Missing));
    assert_eq!(single_meta("u", &vec![col("id", ColumnType::Int)]).len(), 1);
    assert_eq!(single_meta("u", &vec![col("id", ColumnType::Int)])[0].table_alias, "u");
    assert_eq!(single_meta("u", &vec![col("id", ColumnType::Int)])[0].column_name, "id");
}

#[test]
fn operands_are_columns_or_literals() {
    let meta = vec![jc("u", "id")];
    let row = Row { values: vec![Value::Int(4)] };
    assert_eq!(
        eval_operand(&Operand::Column("id".to_string()), &row, &meta, None, None).unwrap(),
        Value::Int(4)
    );
    assert_eq!(
        eval_operand(&Operand::Literal(t("x")), &row, &meta, None, None).unwrap(),
        t("x")
    );
    let right_meta = vec![jc("o", "uid")];
    let right = Row { values: vec![Value::Int(9)] };
    assert_eq!(
        eval_operand(&Operand::Column("o.uid".to_string()), &row, &meta, Some(&right), Some(&right_meta))
            .unwrap(),
        Value::Int(9)
    );
    assert!(matches!(
        eval_operand(&Operand::Column("age".to_string()), &row, &meta, None, None),
        Err(EvalError::UnknownColumn(_))
    ));
}

#[test]
fn predicates_that_an_index_can_answer() {
    let both = parse_where("a = 1 AND b = \"x\"").unwrap();
    assert_eq!(
        extract_eq_conditions(&both),
        Some(vec![("a".to_string(), Value::Int(1)), ("b".to_string(), t("x"))])
    );
    assert_eq!(extract_eq_conditions(&parse_where("a = 1 OR b = 2").unwrap()), None);
    assert_eq!(extract_eq_conditions(&parse_where("a = 1 AND b > 2").unwrap()), None);
    assert_eq!(extract_eq_conditions(&parse_where("1 = a").unwrap()), None);
    assert!(extract_range_condition(&both).is_none());
    match extract_range_condition(&parse_where("a > 5").unwrap()) {
        Some((name, KeyBound::Excluded(lo), KeyBound::Unbounded)) => {
            assert_eq!(name, "a");
            assert_eq!(lo, vec![Value::Int(5)]);
        }
        other => panic!("unexpected range: {:?}", other),
    }
    match extract_range_condition(&parse_where("a >= 5").unwrap()) {
        Some((_, KeyBound::Included(lo), KeyBound::Unbounded)) => assert_eq!(lo, vec![Value::Int(5)]),
        other => panic!("unexpected range: {:?}", other),
    }
    match extract_range_condition(&parse_where("a < 5").unwrap()) {
        Some((_, KeyBound::Unbounded, KeyBound::Excluded(hi))) => assert_eq!(hi, vec![Value::Int(5)]),
        other => panic!("unexpected range: {:?}", other),
    }
    match extract_range_condition(&parse_where("a <= 5").unwrap()) {
        Some((_, KeyBound::Unbounded, KeyBound::Included(hi))) => assert_eq!(hi, vec![Value::Int(5)]),
        other => panic!("unexpected range: {:?}", other),
    }
    assert!(extract_range_condition(&parse_where("a = 5").unwrap()).is_none());
    assert!(extract_range_condition(&parse_where("a != 5").unwrap()).is_none());
}

#[test]
fn index_lookups_follow_the_set_of_columns() {
    let mut db = Database::new();
    db.create_table(
        "k",
        vec![col("a", ColumnType::Int), col("b", ColumnType::Int)],
        HeapFile::new("data/k.tbl"),
        None,
        vec![],
    )
    .unwrap();
    db.create_index("k_a_b_idx", "k", names(&["a", "b"])).unwrap();
    db.create_index("k_a_idx", "k", names(&["a"])).unwrap();
    let (xid, snapshot) = begin(&mut db);
    db.insert_into("k", None, vec![Value::Int(1), Value::Int(10)], xid, &snapshot).unwrap();
    db.insert_into("k", None, vec![Value::Int(2), Value::Int(20)], xid, &snapshot).unwrap();
    db.insert_into("k", None, vec![Value::Int(3), Value::Int(30)], xid, &snapshot).unwrap();
    // the order of the comparisons does not matter, the key has the index's order
    let swapped = Some(parse_where("b = 20 AND a = 2").unwrap());
    assert_eq!(db.try_index_lookup(&db.tables[0], &swapped), Some(vec![(0, 1)]));
    let absent = Some(parse_where("a = 2 AND b = 21").unwrap());
    assert_eq!(db.try_index_lookup(&db.tables[0], &absent), Some(vec![]));
    let one = Some(parse_where("a = 3").unwrap());
    assert_eq!(db.try_index_lookup(&db.tables[0], &one), Some(vec![(0, 2)]));
    let range = Some(parse_where("a >= 2").unwrap());
    assert_eq!(db.try_index_lookup(&db.tables[0], &range), Some(vec![(0, 1), (0, 2)]));
    let below = Some(parse_where("a < 2").unwrap());
    assert_eq!(db.try_index_lookup(&db.tables[0], &below), Some(vec![(0, 0)]));
    // no index is on b alone, none answers a disjunction, none a missing predicate
    assert_eq!(db.try_index_lookup(&db.tables[0], &Some(parse_where("b = 20").unwrap())), None);
    assert_eq!(db.try_index_lookup(&db.tables[0], &Some(parse_where("b > 20").unwrap())), None);
    assert_eq!(
        db.try_index_lookup(&db.tables[0], &Some(parse_where("a = 1 OR a = 2").unwrap())),
        None
    );
    assert_eq!(db.try_index_lookup(&db.tables[0], &None), None);
    let rows = rows_at(&db.tables[0], &vec![(0, 2), (0, 0), (0, 9)], xid, &snapshot, &db.transaction_manager);
    let values: Vec<Vec<Value>> = rows.into_iter().map(|r| r.values).collect();
    assert_eq!(values, vec![vec![Value::Int(3), Value::Int(30)], vec![Value::Int(1), Value::Int(10)]]);
}

#[test]
fn only_visible_tuples_are_kept() {
    let mut tm = TransactionManager::new();
    let writer = tm.alloc_xid();
    tm.begin(writer);
    let mut heap = HeapFile::new("x");
    heap.insert_row(Row { values: vec![Value::Int(1)] }, writer).unwrap();
    heap.insert_row(Row { values: vec![Value::Int(2)] }, writer).unwrap();
    heap.delete_at(0, 1, writer).unwrap();
    let schema = vec![col("id", ColumnType::Int)];
    let own = tm.snapshot();
    let seen: Vec<Vec<Value>> =
        keep_visible(heap.scan_all(&schema), writer, &own, &tm).into_iter().map(|r| r.values).collect();
    assert_eq!(seen, vec![vec![Value::Int(1)]]);
    // another transaction sees nothing while the writer is in flight
    let reader = tm.alloc_xid();
    tm.begin(reader);
    let early = tm.snapshot();
    assert!(keep_visible(heap.scan_all(&schema), reader, &early, &tm).is_empty());
    tm.commit(writer);
    // by its old snapshot it still sees nothing, by a new one the row that is left
    assert!(keep_visible(heap.scan_all(&schema), reader, &early, &tm).is_empty());
    let late = tm.snapshot();
    let seen: Vec<Vec<Value>> =
        keep_visible(heap.scan_all(&schema), reader, &late, &tm).into_iter().map(|r| r.values).collect();
    assert_eq!(seen, vec![vec![Value::Int(1)]]);
}

#[test]
fn a_table_is_read_under_an_alias() {
    let mut db = family();
    let (xid, snapshot) = begin(&mut db);
    db.insert_into("p", None, vec![Value::Int(1)], xid, &snapshot).unwrap();
    let j = phys_to_join(&db.tables[0], "parent", xid, &snapshot, &db.transaction_manager);
    assert_eq!(j.columns.len(), 1);
    assert_eq!(j.columns[0].table_alias, "parent");
    assert_eq!(j.columns[0].column_name, "id");
    assert_eq!(j.rows.len(), 1);
    assert_eq!(j.rows[0].values, vec![Value::Int(1)]);
}

#[test]
fn joins_pair_the_rows_left_first() {
    let left = JoinTable {
        columns: vec![jc("u", "id")],
        rows: vec![Row { values: vec![Value::Int(1)] }, Row { values: vec![Value::Int(2)] }],
    };
    let right = JoinTable {
        columns: vec![jc("o", "uid"), jc("o", "what")],
        rows: vec![
            Row { values: vec![Value::Int(1), t("a")] },
            Row { values: vec![Value::Int(3), t("c")] },
            Row { values: vec![Value::Int(1), t("b")] },
        ],
    };
    let on = parse_where("u.id = o.uid").unwrap();
    let inner = join_tables(&left, &right, JoinKind::Inner, &on).unwrap();
    assert_eq!(inner.columns.len(), 3);
    assert_eq!(inner.columns[2].column_name, "what");
    let rows: Vec<Vec<Value>> = inner.rows.into_iter().map(|r| r.values).collect();
    assert_eq!(
        rows,
        vec![vec![Value::Int(1), Value::Int(1), t("a")], vec![Value::Int(1), Value::Int(1), t("b")]]
    );
    let outer = join_tables(&left, &right, JoinKind::Left, &on).unwrap();
    let rows: Vec<Vec<Value>> = outer.rows.into_iter().map(|r| r.values).collect();
    assert_eq!(
        rows,
        vec![
            vec![Value::Int(1), Value::Int(1), t("a")],
            vec![Value::Int(1), Value::Int(1), t("b")],
            vec![Value::Int(2), Value::Null, Value::Null],
        ]
    );
    let bad = parse_where("u.id = o.what").unwrap();
    assert!(matches!(
        join_tables(&left, &right, JoinKind::Inner, &bad),
        Err(DbError::Eval(EvalError::TypeMismatch { .. }))
    ));
}

#[test]
fn a_join_tree_is_materialized_from_the_tables() {
    let mut db = family();
    let (xid, snapshot) = begin(&mut db);
    db.insert_into("p", None, vec![Value::Int(1)], xid, &snapshot).unwrap();
    db.insert_into("p", None, vec![Value::Int(2)], xid, &snapshot).unwrap();
    db.insert_into("c", None, vec![Value::Int(10), Value::Int(1)], xid, &snapshot).unwrap();
    let mut aliases = Aliases::new();
    aliases.insert("x".to_string(), "p".to_string());
    let from = FromItem::Join {
        left: Box::new(FromItem::Table("p".to_string())),
        right: Box::new(FromItem::Table("c".to_string())),
        kind: JoinKind::Left,
        on: parse_where("x.id = c.pid").unwrap(),
    };
    let j = db.collect_join_table(&from, &aliases, xid, &snapshot).unwrap();
    let heads: Vec<String> =
        j.columns.iter().map(|c| format!("{}.{}", c.table_alias, c.column_name)).collect();
    assert_eq!(heads, vec!["x.id", "c.id", "c.pid"]);
    let rows: Vec<Vec<Value>> = j.rows.iter().map(|r| r.values.clone()).collect();
    assert_eq!(
        rows,
        vec![
            vec![Value::Int(1), Value::Int(10), Value::Int(1)],
            vec![Value::Int(2), Value::Null, Value::Null],
        ]
    );
    let (cols, picked) = db
        .select(TableArg::JoinTable(j), &names(&["c.id", "x.id"]), Some(parse_where("x.id = 1").unwrap()), xid, &snapshot)
        .unwrap();
    assert_eq!(cols.len(), 3);
    assert_eq!(picked.len(), 1);
    assert_eq!(picked[0].values, vec![Value::Int(10), Value::Int(1)]);
    let missing = FromItem::Table("nobody".to_string());
    assert!(matches!(
        db.collect_join_table(&missing, &aliases, xid, &snapshot),
        Err(DbError::TableDoesNotExist(_))
    ));
}

#[test]
fn rows_are_written_and_read_under_a_transaction() {
    let mut db = family();
    let (xid, snapshot) = begin(&mut db);
    db.insert_into("p", Some(names(&["id"])), vec![Value::Int(1)], xid, &snapshot).unwrap();
    assert!(matches!(
        db.insert_into("p", None, vec![Value::Int(1)], xid, &snapshot),
        Err(DbError::PkConflict(_))
    ));
    assert!(matches!(
        db.insert_into("q", None, vec![Value::Int(1)], xid, &snapshot),
        Err(DbError::TableDoesNotExist(_))
    ));
    db.insert_into("c", None, vec![Value::Int(10), Value::Int(1)], xid, &snapshot).unwrap();
    db.update("c", names(&["id"]), vec![Value::Int(11)], None, xid, &snapshot).unwrap();
    assert_eq!(all_rows(&db, "c", xid, &snapshot), vec![vec![Value::Int(11), Value::Int(1)]]);
    assert!(matches!(
        db.update("c", names(&["pid"]), vec![Value::Int(5)], None, xid, &snapshot),
        Err(DbError::FkViolation(_))
    ));
    assert!(matches!(
        db.update("q", names(&["pid"]), vec![Value::Int(5)], None, xid, &snapshot),
        Err(DbError::TableDoesNotExist(_))
    ));
    assert_eq!(db.delete("c", None, xid, &snapshot).unwrap(), 1);
    assert!(all_rows(&db, "c", xid, &snapshot).is_empty());
    assert!(matches!(db.delete("q", None, xid, &snapshot), Err(DbError::TableDoesNotExist(_))));
    // the versions that the transaction left behind are dead once it has committed
    db.transaction_manager.commit(xid);
    assert_eq!(db.vacuum("c").unwrap(), 2);
    assert_eq!(db.vacuum("c").unwrap(), 0);
    assert!(matches!(db.vacuum("q"), Err(DbError::TableDoesNotExist(_))));
}

#[test]
fn child_rows_are_held_against_a_row_pair_by_pair() {
    let parent = |db: &mut Database| {
        db.create_table(
            "p",
            vec![col("a", ColumnType::Int), col("b", ColumnType::Int)],
            HeapFile::new("p"),
            None,
            vec![],
        )
        .unwrap();
    };
    let child = |db: &mut Database, local: &[&str], referenced: &[&str]| {
        db.create_table(
            "c",
            vec![col("x", ColumnType::Int), col("y", ColumnType::Int)],
            HeapFile::new("c"),
            None,
            vec![ForeignKeyConstraint {
                local_columns: names(local),
                referenced_table: "p".to_string(),
                referenced_columns: names(referenced),
            }],
        )
        .unwrap();
    };
    let row = vec![Value::Int(1), Value::Int(2)];

    // the second column of the key is no column of the child
    let mut db = Database::new();
    parent(&mut db);
    child(&mut db, &["x", "nope"], &["a", "b"]);
    // no child row: no failure
    assert!(ensure_not_referenced(&db, "p", &row).is_ok());
    // a row that differs in the first column never reaches the second
    db.tables[1].heap.insert_row(Row { values: vec![Value::Int(9), Value::Int(2)] }, 1).unwrap();
    assert!(ensure_not_referenced(&db, "p", &row).is_ok());
    // a row that matches in the first column does
    db.tables[1].heap.insert_row(Row { values: vec![Value::Int(1), Value::Int(0)] }, 1).unwrap();
    match ensure_not_referenced(&db, "p", &row) {
        Err(DbError::ColumnUnknown(name)) => assert_eq!(name, "nope"),
        other => panic!("unexpected: {:?}", other),
    }

    // the rows decide in the order of the scan
    let mut db = Database::new();
    parent(&mut db);
    child(&mut db, &["x", "y"], &["a", "b"]);
    db.tables[1].heap.insert_row(Row { values: vec![Value::Int(1), Value::Int(3)] }, 1).unwrap();
    assert!(ensure_not_referenced(&db, "p", &row).is_ok());
    db.tables[1].heap.insert_row(Row { values: vec![Value::Int(1), Value::Int(2)] }, 1).unwrap();
    match ensure_not_referenced(&db, "p", &row) {
        Err(DbError::FkReferenced(name)) => assert_eq!(name, "c"),
        other => panic!("unexpected: {:?}", other),
    }

    // an unknown referenced column is an error at once
    let mut db = Database::new();
    parent(&mut db);
    child(&mut db, &["x"], &["zip"]);
    match ensure_not_referenced(&db, "p", &row) {
        Err(DbError::ColumnUnknown(name)) => assert_eq!(name, "zip"),
        other => panic!("unexpected: {:?}", other),
    }

    // names and values are paired as far as both lists go
    let mut db = Database::new();
    parent(&mut db);
    child(&mut db, &["x", "y"], &["a"]);
    db.tables[1].heap.insert_row(Row { values: vec![Value::Int(1), Value::Int(77)] }, 1).unwrap();
    assert!(matches!(ensure_not_referenced(&db, "p", &row), Err(DbError::FkReferenced(_))));
}
