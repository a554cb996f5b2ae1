use povertygres::catalog::catalog_manager::CatalogManager;
use povertygres::engine::Engine;
use povertygres::errors::engine_error::{DbError, EngineError};
use povertygres::errors::storage_error::StorageError;
use povertygres::executer::executer::{execute, Outcome};
use povertygres::parser::main_parser::parse_query;
use povertygres::storage::heap_file::HeapFile;
use povertygres::catalog::validate::validate_catalog;
use povertygres::errors::catalog_error::CatalogError;
use povertygres::types::catalog_types::{Catalog, IndexMeta, NamedTable, TableMeta};
use povertygres::types::storage_types::{Database, Value};
use povertygres::types::transaction_types::{IsolationLevel, TxStatus};

fn engine() -> Engine {
    Engine::open(CatalogManager::open("data", None).unwrap(), vec![]).unwrap()
}

fn run(e: &mut Engine, sql: &str) -> Result<Outcome, EngineError> {
    execute(e, parse_query(sql).unwrap())
}

fn ok(e: &mut Engine, sql: &str) -> Outcome {
    match run(e, sql) {
        Ok(o) => o,
        Err(err) => panic!("{} failed: {:?}", sql, err),
    }
}

fn rows(e: &mut Engine, sql: &str) -> Vec<Vec<Value>> {
    match ok(e, sql) {
        Outcome::Selected { rows, .. } => rows.into_iter().map(|r| r.values).collect(),
        other => panic!("unexpected outcome: {:?}", other),
    }
}

fn db_error(e: &mut Engine, sql: &str) -> DbError {
    match run(e, sql) {
        Err(EngineError::Database(d)) => d,
        other => panic!("{} gave {:?}", sql, other),
    }
}

fn t(s: &str) -> Value {
    Value::Text(s.to_string())
}

#[test]
fn autocommit_insert_and_select() {
    let mut e = engine();
    assert!(matches!(
        ok(&mut e, "CREATE TABLE u (id INT PRIMARY KEY, name TEXT NOT NULL)"),
        Outcome::TableCreated
    ));
    assert!(matches!(ok(&mut e, r#"INSERT INTO u (id, name) VALUES (1, "a")"#), Outcome::Inserted));
    ok(&mut e, r#"INSERT INTO u (id, name) VALUES (2, "b")"#);
    match ok(&mut e, "SELECT * FROM u") {
        Outcome::Selected { headers, rows } => {
            assert_eq!(headers, vec!["u.id", "u.name"]);
            let got: Vec<Vec<Value>> = rows.into_iter().map(|r| r.values).collect();
            assert_eq!(
                got,
                vec![vec![Value::Int(1), t("a")], vec![Value::Int(2), t("b")]]
            );
        }
        other => panic!("unexpected outcome: {:?}", other),
    }
    assert!(e.current_xid.is_none());
    assert_eq!(e.db.transaction_manager.status(1), TxStatus::Committed);
    assert_eq!(e.db.transaction_manager.status(2), TxStatus::Committed);
    assert_eq!(e.db.transaction_manager.next_xid, 3);
    assert_eq!(e.cat.catalog().next_xid, 3);
    assert!(e.db.transaction_manager.active_xids.is_empty());
    assert_eq!(e.db.tables[0].heap.path, "data/u.tbl");
}

#[test]
fn primary_key_duplicates_are_rejected() {
    let mut e = engine();
    ok(&mut e, "CREATE TABLE u (id INT PRIMARY KEY)");
    ok(&mut e, "INSERT INTO u VALUES (1)");
    assert!(matches!(db_error(&mut e, "INSERT INTO u VALUES (1)"), DbError::PkConflict(_)));
    // a primary key that is declared with its column makes the column NOT NULL
    assert!(matches!(db_error(&mut e, "INSERT INTO u VALUES (null)"), DbError::NotNullViolation(_)));
    assert_eq!(rows(&mut e, "SELECT * FROM u"), vec![vec![Value::Int(1)]]);
}

#[test]
fn primary_key_must_not_be_null() {
    let mut e = engine();
    ok(&mut e, "CREATE TABLE u (id INT, name TEXT, PRIMARY KEY id)");
    assert_eq!(e.db.tables[0].primary_key, Some("id".to_string()));
    assert!(matches!(db_error(&mut e, r#"INSERT INTO u VALUES (null, "a")"#), DbError::PkNull(_)));
    ok(&mut e, r#"INSERT INTO u VALUES (1, "a")"#);
    assert!(matches!(db_error(&mut e, r#"INSERT INTO u VALUES (1, "b")"#), DbError::PkConflict(_)));
    assert!(matches!(db_error(&mut e, "UPDATE u SET id = null WHERE id = 1"), DbError::PkNull(_)));
    assert_eq!(rows(&mut e, "SELECT * FROM u"), vec![vec![Value::Int(1), t("a")]]);
}

#[test]
fn foreign_keys_are_enforced() {
    let mut e = engine();
    ok(&mut e, "CREATE TABLE p (id INT PRIMARY KEY)");
    ok(&mut e, "CREATE TABLE c (id INT, pid INT REFERENCES p(id))");
    assert!(matches!(db_error(&mut e, "INSERT INTO c VALUES (10, 1)"), DbError::FkViolation(_)));
    ok(&mut e, "INSERT INTO p VALUES (1)");
    ok(&mut e, "INSERT INTO c VALUES (10, 1)");
    assert!(matches!(db_error(&mut e, "DELETE FROM p WHERE id = 1"), DbError::FkReferenced(_)));
    assert_eq!(rows(&mut e, "SELECT * FROM p"), vec![vec![Value::Int(1)]]);
    // a key that is all NULL binds nothing
    ok(&mut e, "INSERT INTO c VALUES (11, null)");
    // a parent that nothing references can go
    ok(&mut e, "INSERT INTO p VALUES (2)");
    assert!(matches!(ok(&mut e, "DELETE FROM p WHERE id = 2"), Outcome::Deleted(1)));
}

#[test]
fn foreign_key_to_a_missing_table() {
    let mut e = engine();
    ok(&mut e, "CREATE TABLE c (id INT, pid INT REFERENCES missing(id))");
    assert!(matches!(db_error(&mut e, "INSERT INTO c VALUES (1, 1)"), DbError::FkMissingRef(_)));
}

#[test]
fn repeatable_read_pins_the_snapshot() {
    let mut e = engine();
    ok(&mut e, "CREATE TABLE u (id INT)");
    ok(&mut e, "INSERT INTO u VALUES (1)");
    ok(&mut e, "INSERT INTO u VALUES (2)");
    match ok(&mut e, "BEGIN ISOLATION LEVEL REPEATABLE READ") {
        Outcome::Began(xid) => assert_eq!(xid, 3),
        other => panic!("unexpected outcome: {:?}", other),
    }
    assert_eq!(e.current_xid, Some(3));
    assert_eq!(e.tx_isolation, Some(IsolationLevel::RepeatableRead));
    let pinned = e.repeatable_snapshot.clone().unwrap();
    assert_eq!((pinned.xmin, pinned.xmax), (3, 4));
    assert_eq!(pinned.active_xids, vec![3]);
    assert_eq!(rows(&mut e, "SELECT * FROM u").len(), 2);
    ok(&mut e, "INSERT INTO u VALUES (3)");
    assert_eq!(
        rows(&mut e, "SELECT * FROM u"),
        vec![vec![Value::Int(1)], vec![Value::Int(2)], vec![Value::Int(3)]]
    );
    ok(&mut e, "DELETE FROM u WHERE id = 1");
    assert_eq!(
        rows(&mut e, "SELECT * FROM u"),
        vec![vec![Value::Int(2)], vec![Value::Int(3)]]
    );
    assert!(matches!(ok(&mut e, "COMMIT"), Outcome::Committed(3)));
    assert!(e.current_xid.is_none());
    assert!(e.repeatable_snapshot.is_none());
    assert!(e.tx_isolation.is_none());
    assert_eq!(
        rows(&mut e, "SELECT * FROM u"),
        vec![vec![Value::Int(2)], vec![Value::Int(3)]]
    );
}

#[test]
fn rollback_hides_what_the_transaction_wrote() {
    let mut e = engine();
    ok(&mut e, "CREATE TABLE u (id INT)");
    ok(&mut e, "INSERT INTO u VALUES (1)");
    ok(&mut e, "BEGIN");
    assert_eq!(e.tx_isolation, Some(IsolationLevel::ReadCommitted));
    ok(&mut e, "INSERT INTO u VALUES (2)");
    ok(&mut e, "DELETE FROM u WHERE id = 1");
    assert_eq!(rows(&mut e, "SELECT * FROM u"), vec![vec![Value::Int(2)]]);
    assert!(matches!(ok(&mut e, "ROLLBACK"), Outcome::RolledBack(2)));
    assert_eq!(e.db.transaction_manager.status(2), TxStatus::Aborted);
    assert_eq!(rows(&mut e, "SELECT * FROM u"), vec![vec![Value::Int(1)]]);
}

#[test]
fn session_state_machine() {
    let mut e = engine();
    assert!(matches!(run(&mut e, "COMMIT"), Err(EngineError::NoActiveTransaction)));
    assert!(matches!(run(&mut e, "ROLLBACK"), Err(EngineError::NoActiveTransaction)));
    ok(&mut e, "BEGIN");
    assert!(matches!(run(&mut e, "BEGIN"), Err(EngineError::TransactionInProgress)));
    assert_eq!(e.current_xid, Some(1));
    ok(&mut e, "COMMIT");
    assert!(matches!(
        ok(&mut e, "SET SESSION CHARACTERISTICS AS TRANSACTION ISOLATION LEVEL REPEATABLE READ"),
        Outcome::SessionIsolationSet(IsolationLevel::RepeatableRead)
    ));
    assert_eq!(e.session_isolation, IsolationLevel::RepeatableRead);
    ok(&mut e, "BEGIN");
    assert_eq!(e.tx_isolation, Some(IsolationLevel::RepeatableRead));
    assert!(e.repeatable_snapshot.is_some());
    ok(&mut e, "ROLLBACK");
    ok(&mut e, "BEGIN ISOLATION LEVEL READ COMMITTED");
    assert_eq!(e.tx_isolation, Some(IsolationLevel::ReadCommitted));
    assert!(e.repeatable_snapshot.is_none());
}

#[test]
fn index_assisted_lookup() {
    let mut e = engine();
    ok(&mut e, "CREATE TABLE k (id INT, v INT)");
    assert!(matches!(ok(&mut e, "CREATE INDEX ON k(id)"), Outcome::IndexCreated));
    assert_eq!(e.db.indexes[0].name, "k_id_idx");
    ok(&mut e, "INSERT INTO k VALUES (1, 100)");
    ok(&mut e, "INSERT INTO k VALUES (2, 200)");
    ok(&mut e, "INSERT INTO k VALUES (3, 300)");
    assert_eq!(rows(&mut e, "SELECT v FROM k WHERE id = 2"), vec![vec![Value::Int(200)]]);
    assert_eq!(
        rows(&mut e, "SELECT v FROM k WHERE id > 1"),
        vec![vec![Value::Int(200)], vec![Value::Int(300)]]
    );
    assert_eq!(rows(&mut e, "SELECT v FROM k WHERE id <= 1"), vec![vec![Value::Int(100)]]);
    assert_eq!(rows(&mut e, "SELECT v FROM k WHERE id = 9"), Vec::<Vec<Value>>::new());
    // the index is what answers: take a position out of it
    let key = vec![Value::Int(2)];
    e.db.indexes[0].remove(&key, (0, 1));
    assert_eq!(rows(&mut e, "SELECT v FROM k WHERE id = 2"), Vec::<Vec<Value>>::new());
    assert_eq!(rows(&mut e, "SELECT v FROM k WHERE v = 200"), vec![vec![Value::Int(200)]]);
}

#[test]
fn indexes_follow_the_heap() {
    let mut e = engine();
    ok(&mut e, "CREATE TABLE k (id INT, v TEXT)");
    ok(&mut e, "CREATE INDEX on k(id, v)");
    ok(&mut e, "CREATE INDEX byv ON k(v)");
    ok(&mut e, r#"INSERT INTO k VALUES (1, "a")"#);
    ok(&mut e, r#"INSERT INTO k VALUES (2, "b")"#);
    ok(&mut e, r#"INSERT INTO k VALUES (3, "a")"#);
    ok(&mut e, r#"UPDATE k SET v = "c" WHERE id = 1"#);
    ok(&mut e, "DELETE FROM k WHERE id = 2");
    let by_v = &e.db.indexes[1];
    assert_eq!(by_v.search_eq(&vec![t("a")]), Some(&vec![(0, 2)]));
    assert_eq!(by_v.search_eq(&vec![t("b")]), None);
    assert_eq!(by_v.search_eq(&vec![t("c")]), Some(&vec![(0, 3)]));
    let both = &e.db.indexes[0];
    assert_eq!(both.search_eq(&vec![Value::Int(1), t("c")]), Some(&vec![(0, 3)]));
    assert_eq!(both.search_eq(&vec![Value::Int(1), t("a")]), None);
    assert_eq!(both.search_prefix(&vec![Value::Int(3)]), vec![(0, 2)]);
    // every entry of an index is a live tuple of that key, and the other way round
    let table = &e.db.tables[0];
    let live: Vec<((usize, usize), Vec<Value>)> = table
        .heap
        .scan_all(&table.columns)
        .into_iter()
        .filter(|t| t.2.xmax.is_none())
        .map(|t| ((t.0 as usize, t.1), vec![t.3.values[1].clone()]))
        .collect();
    let mut held: Vec<((usize, usize), Vec<Value>)> = Vec::new();
    for entry in &by_v.map {
        for pos in &entry.positions {
            held.push((*pos, entry.key.clone()));
        }
    }
    held.sort_by_key(|h| h.0);
    assert_eq!(held, live);
    assert_eq!(
        rows(&mut e, r#"SELECT id FROM k WHERE v = "a""#),
        vec![vec![Value::Int(3)]]
    );
}

#[test]
fn vacuum_reclaims_dead_tuples() {
    let mut e = engine();
    ok(&mut e, "CREATE TABLE t (id INT)");
    ok(&mut e, "CREATE INDEX ON t(id)");
    ok(&mut e, "INSERT INTO t VALUES (1)");
    ok(&mut e, "INSERT INTO t VALUES (2)");
    assert!(matches!(ok(&mut e, "DELETE FROM t WHERE id = 1"), Outcome::Deleted(1)));
    match ok(&mut e, "VACUUM t") {
        Outcome::Vacuumed { table_name, removed } => {
            assert_eq!(table_name, "t");
            assert_eq!(removed, 1);
        }
        other => panic!("unexpected outcome: {:?}", other),
    }
    assert_eq!(rows(&mut e, "SELECT * FROM t"), vec![vec![Value::Int(2)]]);
    assert_eq!(e.db.indexes[0].search_eq(&vec![Value::Int(1)]), None);
    assert_eq!(e.db.indexes[0].search_eq(&vec![Value::Int(2)]), Some(&vec![(0, 1)]));
    let table = &e.db.tables[0];
    assert!(table.heap.get_tuple(0, 0, &table.columns).is_none());
    assert!(table.heap.get_tuple(0, 1, &table.columns).is_some());
    assert!(matches!(ok(&mut e, "VACUUM t"), Outcome::Vacuumed { removed: 0, .. }));
    assert!(matches!(db_error(&mut e, "VACUUM nothing"), DbError::TableDoesNotExist(_)));
}

#[test]
fn vacuum_keeps_what_a_transaction_in_flight_deleted() {
    let mut e = engine();
    ok(&mut e, "CREATE TABLE t (id INT)");
    ok(&mut e, "INSERT INTO t VALUES (1)");
    ok(&mut e, "BEGIN");
    ok(&mut e, "DELETE FROM t");
    assert!(matches!(ok(&mut e, "VACUUM t"), Outcome::Vacuumed { removed: 0, .. }));
    ok(&mut e, "ROLLBACK");
    assert_eq!(rows(&mut e, "SELECT * FROM t"), vec![vec![Value::Int(1)]]);
}

#[test]
fn defaults_and_not_null() {
    let mut e = engine();
    ok(&mut e, r#"CREATE TABLE t (a INT NOT NULL, b TEXT DEFAULT "x", c BOOL NOT NULL DEFAULT true)"#);
    ok(&mut e, "INSERT INTO t (a) VALUES (1)");
    assert_eq!(
        rows(&mut e, "SELECT * FROM t"),
        vec![vec![Value::Int(1), t("x"), Value::Bool(true)]]
    );
    assert!(matches!(
        db_error(&mut e, r#"INSERT INTO t (b) VALUES ("y")"#),
        DbError::NotNullViolation(_)
    ));
    ok(&mut e, r#"INSERT INTO t VALUES (2, null, null)"#);
    assert_eq!(
        rows(&mut e, "SELECT b, c FROM t WHERE a = 2"),
        vec![vec![t("x"), Value::Bool(true)]]
    );
}

#[test]
fn insert_errors() {
    let mut e = engine();
    ok(&mut e, "CREATE TABLE t (a INT, b TEXT)");
    assert!(matches!(db_error(&mut e, "INSERT INTO nope VALUES (1)"), DbError::TableDoesNotExist(_)));
    assert!(matches!(db_error(&mut e, "INSERT INTO t VALUES (1)"), DbError::ColumnCountMismatch));
    assert!(matches!(
        db_error(&mut e, "INSERT INTO t (a, b) VALUES (1)"),
        DbError::ColumnCountMismatch
    ));
    assert!(matches!(db_error(&mut e, "INSERT INTO t (z) VALUES (1)"), DbError::ColumnUnknown(_)));
    assert!(matches!(
        db_error(&mut e, r#"INSERT INTO t VALUES ("one", "b")"#),
        DbError::TypeMismatch(_)
    ));
    assert!(rows(&mut e, "SELECT * FROM t").is_empty());
    // of two values for one column the later one stays
    ok(&mut e, "INSERT INTO t (a, a) VALUES (1, 2)");
    assert_eq!(rows(&mut e, "SELECT * FROM t"), vec![vec![Value::Int(2), Value::Null]]);
}

#[test]
fn a_row_that_fits_no_page_finds_no_space() {
    let mut e = engine();
    ok(&mut e, "CREATE TABLE t (b TEXT)");
    let big = "x".repeat(9000);
    let sql = format!("INSERT INTO t VALUES (\"{}\")", big);
    assert!(matches!(
        db_error(&mut e, &sql),
        DbError::Storage(StorageError::NoSpace)
    ));
    assert!(rows(&mut e, "SELECT * FROM t").is_empty());
}

#[test]
fn create_errors() {
    let mut e = engine();
    ok(&mut e, "CREATE TABLE t (a INT)");
    assert!(matches!(
        run(&mut e, "CREATE TABLE t (a INT)"),
        Err(EngineError::Catalog(CatalogError::TableExists(name))) if name == "t"
    ));
    assert!(matches!(
        run(&mut e, "CREATE INDEX i ON nope(a)"),
        Err(EngineError::Catalog(CatalogError::TableNotFound(name))) if name == "nope"
    ));
    assert!(matches!(db_error(&mut e, "CREATE INDEX i ON t(z)"), DbError::IndexColumnMissing(_)));
    assert!(matches!(
        run(&mut e, "CREATE INDEX i ON t(a)"),
        Err(EngineError::Catalog(CatalogError::IndexExists(name))) if name == "i"
    ));
    assert!(matches!(
        e.db.create_index("j", "t", vec!["a".to_string()]),
        Ok(())
    ));
    assert!(matches!(
        e.db.create_index("j", "t", vec!["a".to_string()]),
        Err(DbError::IndexExists(_))
    ));
    assert!(matches!(
        e.db.create_index("k", "nope", vec!["a".to_string()]),
        Err(DbError::TableDoesNotExist(_))
    ));
}

#[test]
fn update_changes_the_rows_that_match() {
    let mut e = engine();
    ok(&mut e, "CREATE TABLE u (id INT PRIMARY KEY, name TEXT, age INT)");
    ok(&mut e, r#"INSERT INTO u VALUES (1, "a", 10)"#);
    ok(&mut e, r#"INSERT INTO u VALUES (2, "b", 20)"#);
    assert!(matches!(ok(&mut e, r#"UPDATE u SET age = 30, name = "z" WHERE id = 2"#), Outcome::Updated));
    assert_eq!(
        rows(&mut e, "SELECT * FROM u"),
        vec![vec![Value::Int(1), t("a"), Value::Int(10)], vec![Value::Int(2), t("z"), Value::Int(30)]]
    );
    // of two assignments to one column the later one counts
    ok(&mut e, "UPDATE u SET age = 1, age = 2");
    assert_eq!(
        rows(&mut e, "SELECT age FROM u"),
        vec![vec![Value::Int(2)], vec![Value::Int(2)]]
    );
    ok(&mut e, "UPDATE u SET u.age = 5 WHERE id = 1");
    assert_eq!(rows(&mut e, "SELECT age FROM u WHERE id = 1"), vec![vec![Value::Int(5)]]);
    assert!(matches!(db_error(&mut e, "UPDATE u SET zip = 1"), DbError::ColumnUnknown(_)));
    assert!(matches!(db_error(&mut e, "UPDATE u SET x.age = 1"), DbError::ColumnUnknown(_)));
    assert!(matches!(db_error(&mut e, r#"UPDATE u SET age = "old""#), DbError::TypeMismatch(_)));
    assert!(matches!(db_error(&mut e, "UPDATE nope SET a = 1"), DbError::TableDoesNotExist(_)));
    assert!(matches!(
        db_error(&mut e, "UPDATE u SET id = null WHERE id = 1"),
        DbError::NotNullViolation(_)
    ));
    // the old versions stay in the heap file until they are reclaimed
    let table = &e.db.tables[0];
    assert_eq!(table.heap.scan_all(&table.columns).len(), 6);
}

#[test]
fn update_checks_foreign_keys_on_the_new_version() {
    let mut e = engine();
    ok(&mut e, "CREATE TABLE p (id INT)");
    ok(&mut e, "CREATE TABLE c (id INT, pid INT REFERENCES p(id))");
    ok(&mut e, "INSERT INTO p VALUES (1)");
    ok(&mut e, "INSERT INTO c VALUES (1, 1)");
    assert!(matches!(db_error(&mut e, "UPDATE c SET pid = 2"), DbError::FkViolation(_)));
    ok(&mut e, "INSERT INTO p VALUES (2)");
    ok(&mut e, "UPDATE c SET pid = 2");
    assert_eq!(rows(&mut e, "SELECT pid FROM c"), vec![vec![Value::Int(2)]]);
}

#[test]
fn delete_without_a_predicate_takes_every_visible_row() {
    let mut e = engine();
    ok(&mut e, "CREATE TABLE t (id INT)");
    ok(&mut e, "INSERT INTO t VALUES (1)");
    ok(&mut e, "INSERT INTO t VALUES (2)");
    ok(&mut e, "INSERT INTO t VALUES (3)");
    assert!(matches!(ok(&mut e, "DELETE FROM t WHERE id > 1"), Outcome::Deleted(2)));
    assert!(matches!(ok(&mut e, "DELETE FROM t"), Outcome::Deleted(1)));
    assert!(matches!(ok(&mut e, "DELETE FROM t"), Outcome::Deleted(0)));
    assert!(matches!(db_error(&mut e, "DELETE FROM nope"), DbError::TableDoesNotExist(_)));
}

#[test]
fn joins_are_materialized_left_first() {
    let mut e = engine();
    ok(&mut e, "CREATE TABLE users (id INT, name TEXT)");
    ok(&mut e, "CREATE TABLE orders (id INT, user_id INT, amount INT)");
    ok(&mut e, r#"INSERT INTO users VALUES (1, "a")"#);
    ok(&mut e, r#"INSERT INTO users VALUES (2, "b")"#);
    ok(&mut e, r#"INSERT INTO users VALUES (3, "c")"#);
    ok(&mut e, "INSERT INTO orders VALUES (10, 1, 5)");
    ok(&mut e, "INSERT INTO orders VALUES (11, 3, 7)");
    ok(&mut e, "INSERT INTO orders VALUES (12, 1, 9)");
    assert_eq!(
        rows(
            &mut e,
            "SELECT u.name, o.amount FROM users AS u INNER JOIN orders AS o ON u.id = o.user_id"
        ),
        vec![
            vec![t("a"), Value::Int(5)],
            vec![t("a"), Value::Int(9)],
            vec![t("c"), Value::Int(7)],
        ]
    );
    assert_eq!(
        rows(
            &mut e,
            "SELECT u.name, o.amount FROM users AS u LEFT JOIN orders AS o ON u.id = o.user_id"
        ),
        vec![
            vec![t("a"), Value::Int(5)],
            vec![t("a"), Value::Int(9)],
            vec![t("b"), Value::Null],
            vec![t("c"), Value::Int(7)],
        ]
    );
    match ok(
        &mut e,
        "SELECT * FROM users AS u LEFT JOIN orders AS o ON u.id = o.user_id WHERE amount > 6",
    ) {
        Outcome::Selected { headers, rows } => {
            assert_eq!(headers, vec!["u.id", "u.name", "o.id", "o.user_id", "o.amount"]);
            assert_eq!(rows.len(), 2);
        }
        other => panic!("unexpected outcome: {:?}", other),
    }
    // a table without an alias is known by its name
    assert_eq!(
        rows(
            &mut e,
            "SELECT users.name FROM users LEFT JOIN orders ON users.id = orders.user_id WHERE orders.amount = 7"
        ),
        vec![vec![t("c")]]
    );
    assert!(matches!(
        db_error(&mut e, "SELECT * FROM users INNER JOIN nope ON users.id = nope.id"),
        DbError::TableDoesNotExist(_)
    ));
    assert!(matches!(
        db_error(
            &mut e,
            "SELECT id FROM users AS u INNER JOIN orders AS o ON u.id = o.user_id"
        ),
        DbError::Eval(_)
    ));
}

#[test]
fn select_errors() {
    let mut e = engine();
    ok(&mut e, "CREATE TABLE t (a INT, b BOOL)");
    ok(&mut e, "INSERT INTO t VALUES (1, true)");
    assert!(matches!(db_error(&mut e, "SELECT * FROM nope"), DbError::TableDoesNotExist(_)));
    assert!(matches!(db_error(&mut e, "SELECT z FROM t"), DbError::ColumnUnknown(_)));
    assert!(matches!(db_error(&mut e, "SELECT a FROM t WHERE z = 1"), DbError::Eval(_)));
    assert!(matches!(db_error(&mut e, "SELECT a FROM t WHERE b > true"), DbError::Eval(_)));
    assert!(matches!(db_error(&mut e, r#"SELECT a FROM t WHERE a = "x""#), DbError::Eval(_)));
    assert_eq!(rows(&mut e, "SELECT b, a FROM t"), vec![vec![Value::Bool(true), Value::Int(1)]]);
    assert_eq!(rows(&mut e, "SELECT t.a FROM t"), vec![vec![Value::Int(1)]]);
}

#[test]
fn inserts_are_invisible_to_older_snapshots() {
    let mut e = engine();
    ok(&mut e, "CREATE TABLE t (id INT)");
    let before = e.db.transaction_manager.snapshot();
    ok(&mut e, "INSERT INTO t VALUES (1)");
    let table = &e.db.tables[0];
    let (header, _) = table.heap.get_tuple(0, 0, &table.columns).unwrap();
    assert_eq!(header.xmin, 1);
    // the snapshot was taken before the inserter began
    assert!(!header.is_visible(0, &before, &e.db.transaction_manager));
    let after = e.db.transaction_manager.snapshot();
    assert!(header.is_visible(0, &after, &e.db.transaction_manager));
}

#[test]
fn engine_reopens_on_its_catalog_and_heap_files() {
    let mut e = engine();
    ok(&mut e, "CREATE TABLE t (id INT, v TEXT)");
    ok(&mut e, "CREATE INDEX ON t(id)");
    ok(&mut e, r#"INSERT INTO t VALUES (1, "a")"#);
    ok(&mut e, r#"INSERT INTO t VALUES (2, "b")"#);
    ok(&mut e, "DELETE FROM t WHERE id = 1");
    let Engine { db, cat, .. } = e;
    let heaps: Vec<_> = db.tables.into_iter().map(|t| t.heap).collect();
    let mut again = Engine::open(cat, heaps).unwrap();
    assert_eq!(again.db.transaction_manager.next_xid, 4);
    assert!(again.current_xid.is_none());
    assert_eq!(again.session_isolation, IsolationLevel::ReadCommitted);
    assert_eq!(rows(&mut again, "SELECT * FROM t"), vec![vec![Value::Int(2), t("b")]]);
    assert_eq!(again.db.indexes.len(), 1);
    assert_eq!(again.db.indexes[0].search_eq(&vec![Value::Int(2)]), Some(&vec![(0, 1)]));
    assert_eq!(again.db.indexes[0].search_eq(&vec![Value::Int(1)]), None);
    assert_eq!(rows(&mut again, "SELECT v FROM t WHERE id = 2"), vec![vec![t("b")]]);
    let cat = CatalogManager::open("data", None).unwrap();
    assert!(Engine::open(cat, vec![povertygres::storage::heap_file::HeapFile::new("x")]).is_err());
}

#[test]
fn the_database_refuses_a_second_table_of_a_name() {
    let mut db = Database::new();
    assert!(db.create_table("u", vec![], HeapFile::new("data/u.tbl"), None, vec![]).is_ok());
    assert!(matches!(
        db.create_table("u", vec![], HeapFile::new("data/u.tbl"), None, vec![]),
        Err(DbError::TableAlreadyExists(_))
    ));
    assert_eq!(db.tables.len(), 1);
}

#[test]
fn no_xid_is_left_after_the_last() {
    let mut cat = Catalog::empty(8192);
    cat.next_xid = u32::MAX;
    let mut e = Engine::open(CatalogManager::open("data", Some(cat)).unwrap(), vec![]).unwrap();
    ok(&mut e, "CREATE TABLE u (id INT)");
    assert!(matches!(run(&mut e, "BEGIN"), Err(EngineError::XidsExhausted)));
    assert!(matches!(run(&mut e, "INSERT INTO u VALUES (1)"), Err(EngineError::XidsExhausted)));
    assert!(matches!(run(&mut e, "DELETE FROM u"), Err(EngineError::XidsExhausted)));
    assert!(matches!(run(&mut e, "UPDATE u SET id = 2"), Err(EngineError::XidsExhausted)));
    assert!(e.current_xid.is_none());
    assert_eq!(e.db.transaction_manager.next_xid, u32::MAX);
    assert!(rows(&mut e, "SELECT * FROM u").is_empty());
}

#[test]
fn create_table_leaves_the_session_as_it_is() {
    let mut e = engine();
    ok(&mut e, "BEGIN ISOLATION LEVEL REPEATABLE READ");
    let xid = e.current_xid;
    let pinned = e.repeatable_snapshot.clone().map(|s| (s.xmin, s.xmax, s.active_xids));
    ok(&mut e, "CREATE TABLE u (id INT PRIMARY KEY, name TEXT)");
    ok(&mut e, "CREATE INDEX ON u(name)");
    ok(&mut e, "INSERT INTO u VALUES (1, \"a\")");
    ok(&mut e, "UPDATE u SET name = \"b\" WHERE id = 1");
    ok(&mut e, "SET SESSION CHARACTERISTICS AS TRANSACTION ISOLATION LEVEL READ COMMITTED");
    assert_eq!(e.current_xid, xid);
    assert_eq!(e.tx_isolation, Some(IsolationLevel::RepeatableRead));
    assert_eq!(e.repeatable_snapshot.clone().map(|s| (s.xmin, s.xmax, s.active_xids)), pinned);
    assert_eq!(e.statement_snapshot().active_xids, pinned.clone().unwrap().2);
    assert_eq!(e.statement_snapshot().xmax, pinned.unwrap().1);
    let table = e.db.tables.last().unwrap();
    assert_eq!(table.name, "u");
    assert_eq!(table.primary_key, Some("id".to_string()));
    assert_eq!(table.heap.path, "data/u.tbl");
    let meta = &e.cat.catalog().tables.last().unwrap().meta;
    assert_eq!(meta.oid, 1);
    assert_eq!(meta.file, "data/u.tbl");
    assert_eq!(meta.next_rowid, 1);
    assert_eq!(meta.primary_key, Some("id".to_string()));
    assert_eq!(e.cat.catalog().next_table_oid, 2);
    assert_eq!(e.cat.catalog().indexes.last().unwrap().name, "u_name_idx");
}

#[test]
fn update_may_not_take_the_key_of_another_row() {
    let mut e = engine();
    ok(&mut e, "CREATE TABLE u (id INT PRIMARY KEY, name TEXT)");
    ok(&mut e, "CREATE INDEX ON u(id)");
    ok(&mut e, r#"INSERT INTO u VALUES (1, "a")"#);
    ok(&mut e, r#"INSERT INTO u VALUES (2, "b")"#);
    assert!(matches!(db_error(&mut e, "UPDATE u SET id = 1 WHERE id = 2"), DbError::PkConflict(_)));
    // nothing changed, in the heap file or in the index
    assert_eq!(
        rows(&mut e, "SELECT * FROM u"),
        vec![vec![Value::Int(1), t("a")], vec![Value::Int(2), t("b")]]
    );
    assert_eq!(rows(&mut e, "SELECT name FROM u WHERE id = 2"), vec![vec![t("b")]]);
    assert_eq!(rows(&mut e, "SELECT name FROM u WHERE id = 1"), vec![vec![t("a")]]);
    let table = &e.db.tables[0];
    assert_eq!(table.heap.scan_all(&table.columns).len(), 2);
    // a row may keep its own key, and take a free one
    ok(&mut e, r#"UPDATE u SET id = 2, name = "c" WHERE id = 2"#);
    ok(&mut e, "UPDATE u SET id = 3 WHERE id = 2");
    assert_eq!(
        rows(&mut e, "SELECT * FROM u"),
        vec![vec![Value::Int(1), t("a")], vec![Value::Int(3), t("c")]]
    );
    // the key that the row gave up is free again
    ok(&mut e, "UPDATE u SET id = 2 WHERE id = 1");
    // new versions follow the old ones in the heap file
    assert_eq!(rows(&mut e, "SELECT id FROM u"), vec![vec![Value::Int(3)], vec![Value::Int(2)]]);
}

#[test]
fn update_of_many_rows_to_one_key_stops_at_the_second() {
    let mut e = engine();
    ok(&mut e, "CREATE TABLE u (id INT PRIMARY KEY, name TEXT)");
    ok(&mut e, r#"INSERT INTO u VALUES (1, "a")"#);
    ok(&mut e, r#"INSERT INTO u VALUES (2, "b")"#);
    ok(&mut e, "BEGIN");
    assert!(matches!(db_error(&mut e, "UPDATE u SET id = 9"), DbError::PkConflict(_)));
    // the first row has its new version, the second is as it was
    assert_eq!(
        rows(&mut e, "SELECT * FROM u"),
        vec![vec![Value::Int(2), t("b")], vec![Value::Int(9), t("a")]]
    );
    ok(&mut e, "ROLLBACK");
    assert_eq!(
        rows(&mut e, "SELECT * FROM u"),
        vec![vec![Value::Int(1), t("a")], vec![Value::Int(2), t("b")]]
    );
}

#[test]
fn update_ignores_keys_that_it_cannot_see() {
    let mut e = engine();
    ok(&mut e, "CREATE TABLE u (id INT PRIMARY KEY)");
    ok(&mut e, "INSERT INTO u VALUES (1)");
    ok(&mut e, "INSERT INTO u VALUES (2)");
    ok(&mut e, "DELETE FROM u WHERE id = 1");
    // the deleted row is still in the heap file, but no longer visible
    ok(&mut e, "UPDATE u SET id = 1 WHERE id = 2");
    assert_eq!(rows(&mut e, "SELECT * FROM u"), vec![vec![Value::Int(1)]]);
}

#[test]
fn the_engine_restores_the_transactions_in_progress() {
    let mut cat = Catalog::empty(8192);
    cat.next_xid = 9;
    cat.transactions.insert(3, TxStatus::InProgress);
    cat.transactions.insert(4, TxStatus::Committed);
    cat.transactions.insert(5, TxStatus::Aborted);
    cat.transactions.insert(7, TxStatus::InProgress);
    let e = Engine::open(CatalogManager::open("data", Some(cat)).unwrap(), vec![]).unwrap();
    let mut active = e.db.transaction_manager.active_xids.clone();
    active.sort();
    assert_eq!(active, vec![3, 7]);
    assert_eq!(e.db.transaction_manager.next_xid, 9);
    assert_eq!(e.db.transaction_manager.status(4), TxStatus::Committed);
    assert_eq!(e.db.transaction_manager.status(5), TxStatus::Aborted);
    assert_eq!(e.db.transaction_manager.status(7), TxStatus::InProgress);
    let s = e.statement_snapshot();
    assert_eq!(s.xmin, 3);
    assert_eq!(s.xmax, 9);
}

#[test]
fn the_engine_refuses_a_catalog_with_a_name_twice() {
    let manager = |cat: Catalog| CatalogManager { data_dir: "data".to_string(), catalog: cat };
    let table = |name: &str, oid: u32| NamedTable {
        name: name.to_string(),
        meta: TableMeta {
            oid,
            file: format!("data/{}{}.tbl", name, oid),
            columns: vec![],
            next_rowid: 1,
            primary_key: None,
            foreign_keys: vec![],
        },
    };
    let index = |name: &str| IndexMeta {
        name: name.to_string(),
        table: "u".to_string(),
        columns: vec![],
    };
    let mut twice = Catalog::empty(8192);
    twice.tables.push(table("u", 1));
    twice.tables.push(table("u", 2));
    let heaps = || vec![HeapFile::new("a"), HeapFile::new("b")];
    assert!(matches!(
        Engine::open(manager(twice.clone()), heaps()),
        Err(EngineError::Catalog(CatalogError::DuplicateTable))
    ));
    assert_eq!(validate_catalog(&twice), Err(CatalogError::DuplicateTable));
    assert!(CatalogManager::open("data", Some(twice)).is_err());
    let mut indexes = Catalog::empty(8192);
    indexes.tables.push(table("u", 1));
    indexes.indexes.push(index("i"));
    indexes.indexes.push(index("i"));
    assert!(matches!(
        Engine::open(manager(indexes.clone()), vec![HeapFile::new("a")]),
        Err(EngineError::Catalog(CatalogError::DuplicateIndex))
    ));
    assert_eq!(validate_catalog(&indexes), Err(CatalogError::DuplicateIndex));
    // one heap file for each table
    let mut one = Catalog::empty(8192);
    one.tables.push(table("u", 1));
    assert!(matches!(
        Engine::open(manager(one), heaps()),
        Err(EngineError::Catalog(CatalogError::HeapFilesMismatch))
    ));
}

#[test]
fn errors_name_what_they_are_about() {
    let mut e = engine();
    ok(&mut e, "CREATE TABLE p (id INT PRIMARY KEY)");
    ok(&mut e, "CREATE TABLE c (id INT, pid INT REFERENCES p(id))");
    ok(&mut e, "CREATE TABLE d (id INT, oid INT REFERENCES o(id))");
    ok(&mut e, "INSERT INTO p VALUES (1)");
    ok(&mut e, "INSERT INTO p VALUES (2)");
    for sql in [
        "INSERT INTO q VALUES (1)",
        "SELECT * FROM q",
        "UPDATE q SET a = 1",
        "DELETE FROM q",
        "VACUUM q",
        "SELECT * FROM p JOIN q ON p.id = q.id",
    ] {
        match db_error(&mut e, sql) {
            DbError::TableDoesNotExist(name) => assert_eq!(name, "q", "{}", sql),
            other => panic!("{}: {:?}", sql, other),
        }
    }
    match db_error(&mut e, "INSERT INTO p VALUES (1)") {
        DbError::PkConflict(name) => assert_eq!(name, "id"),
        other => panic!("unexpected: {:?}", other),
    }
    match db_error(&mut e, "UPDATE p SET id = 1 WHERE id = 2") {
        DbError::PkConflict(name) => assert_eq!(name, "id"),
        other => panic!("unexpected: {:?}", other),
    }
    match db_error(&mut e, "INSERT INTO c VALUES (1, 9)") {
        DbError::FkViolation(name) => assert_eq!(name, "p"),
        other => panic!("unexpected: {:?}", other),
    }
    match db_error(&mut e, "INSERT INTO d VALUES (1, 9)") {
        DbError::FkMissingRef(name) => assert_eq!(name, "o"),
        other => panic!("unexpected: {:?}", other),
    }
    ok(&mut e, "INSERT INTO c VALUES (1, 1)");
    match db_error(&mut e, "DELETE FROM p WHERE id = 1") {
        DbError::FkReferenced(name) => assert_eq!(name, "c"),
        other => panic!("unexpected: {:?}", other),
    }
    match e.db.create_table("p", vec![], HeapFile::new("x"), None, vec![]) {
        Err(DbError::TableAlreadyExists(name)) => assert_eq!(name, "p"),
        other => panic!("unexpected: {:?}", other),
    }
    e.db.create_index("i", "p", vec!["id".to_string()]).unwrap();
    match e.db.create_index("i", "p", vec!["id".to_string()]) {
        Err(DbError::IndexExists(name)) => assert_eq!(name, "i"),
        other => panic!("unexpected: {:?}", other),
    }
    match e.db.create_index("j", "p", vec!["id".to_string(), "x".to_string(), "y".to_string()]) {
        Err(DbError::IndexColumnMissing(name)) => assert_eq!(name, "x"),
        other => panic!("unexpected: {:?}", other),
    }
    ok(&mut e, "CREATE TABLE n (a INT NOT NULL, b TEXT, c BOOL NOT NULL, PRIMARY KEY b)");
    match db_error(&mut e, r#"INSERT INTO n (a, z, y) VALUES (1, 2, 3)"#) {
        DbError::ColumnUnknown(name) => assert_eq!(name, "z"),
        other => panic!("unexpected: {:?}", other),
    }
    match db_error(&mut e, r#"INSERT INTO n VALUES (1, 2, 3)"#) {
        DbError::TypeMismatch(name) => assert_eq!(name, "b"),
        other => panic!("unexpected: {:?}", other),
    }
    match db_error(&mut e, r#"INSERT INTO n VALUES (1, "x", null)"#) {
        DbError::NotNullViolation(name) => assert_eq!(name, "c"),
        other => panic!("unexpected: {:?}", other),
    }
    match db_error(&mut e, r#"INSERT INTO n VALUES (null, "x", null)"#) {
        DbError::NotNullViolation(name) => assert_eq!(name, "a"),
        other => panic!("unexpected: {:?}", other),
    }
    match db_error(&mut e, r#"INSERT INTO n VALUES (1, null, true)"#) {
        DbError::PkNull(name) => assert_eq!(name, "b"),
        other => panic!("unexpected: {:?}", other),
    }
    ok(&mut e, r#"INSERT INTO n VALUES (1, "x", true)"#);
    match db_error(&mut e, r#"UPDATE n SET a = 1, q = 2"#) {
        DbError::ColumnUnknown(name) => assert_eq!(name, "q"),
        other => panic!("unexpected: {:?}", other),
    }
    match db_error(&mut e, r#"UPDATE n SET b = "y", c = 3, a = "z""#) {
        DbError::TypeMismatch(name) => assert_eq!(name, "a"),
        other => panic!("unexpected: {:?}", other),
    }
    match db_error(&mut e, r#"UPDATE n SET c = null"#) {
        DbError::NotNullViolation(name) => assert_eq!(name, "c"),
        other => panic!("unexpected: {:?}", other),
    }
    match db_error(&mut e, "SELECT zip FROM n") {
        DbError::ColumnUnknown(name) => assert_eq!(name, "zip"),
        other => panic!("unexpected: {:?}", other),
    }
    match db_error(&mut e, "SELECT m.a FROM n") {
        DbError::ColumnUnknown(name) => assert_eq!(name, "m.a"),
        other => panic!("unexpected: {:?}", other),
    }
}

#[test]
fn a_key_of_a_missing_column_matters_only_where_a_row_reaches_it() {
    let mut e = engine();
    ok(&mut e, "CREATE TABLE p (id INT PRIMARY KEY)");
    ok(&mut e, "CREATE TABLE c (id INT, FOREIGN KEY nope REFERENCES p(id))");
    ok(&mut e, "INSERT INTO p VALUES (1)");
    // the child holds no row: nothing references the parent's row
    assert!(matches!(ok(&mut e, "DELETE FROM p WHERE id = 1"), Outcome::Deleted(1)));
    assert!(rows(&mut e, "SELECT * FROM p").is_empty());
}

#[test]
fn an_index_shows_what_a_scan_shows() {
    let fill = |e: &mut Engine| {
        ok(e, "CREATE TABLE k (id INT, v INT)");
    };
    let load = |e: &mut Engine| {
        for (id, v) in [(1, 10), (2, 20), (3, 30), (2, 21), (4, 40)] {
            ok(e, &format!("INSERT INTO k VALUES ({}, {})", id, v));
        }
        ok(e, "DELETE FROM k WHERE v = 30");
        ok(e, "UPDATE k SET v = 22 WHERE v = 21");
    };
    let mut scanned = engine();
    fill(&mut scanned);
    load(&mut scanned);
    let mut indexed = engine();
    fill(&mut indexed);
    ok(&mut indexed, "CREATE INDEX ON k(id)");
    load(&mut indexed);
    for sql in [
        "SELECT v FROM k WHERE id = 2",
        "SELECT v FROM k WHERE id = 3",
        "SELECT v FROM k WHERE id = 9",
        "SELECT v FROM k WHERE id > 1",
        "SELECT v FROM k WHERE id >= 2",
        "SELECT v FROM k WHERE id < 3",
        "SELECT v FROM k WHERE id <= 0",
    ] {
        let mut by_scan = rows(&mut scanned, sql);
        let mut by_index = rows(&mut indexed, sql);
        by_scan.sort();
        by_index.sort();
        assert_eq!(by_scan, by_index, "{}", sql);
    }
    assert_eq!(
        rows(&mut indexed, "SELECT v FROM k WHERE id = 2"),
        vec![vec![Value::Int(20)], vec![Value::Int(22)]]
    );
}
