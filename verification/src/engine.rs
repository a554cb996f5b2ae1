use crate::catalog::catalog_manager::{table_file, CatalogManager};
use crate::errors::catalog_error::{CatalogError, CatalogFault};
use crate::errors::engine_error::{DbError, EngineError};
use crate::executer::help_functions::build_key;
use crate::storage::heap_file::HeapFile;
use crate::types::b_tree::BTreeIndex;
use crate::types::catalog_types::{CatColumnType, Catalog, ColumnMeta, NamedTable};
use crate::types::storage_types::{
    names_view, opt_name_view, table_position, Column, ColumnType, Database, ForeignKeyConstraint, Table,
};
use crate::types::transaction_types::{
    IsolationLevel, Snapshot, TransactionManager, TransactionManagerView, TxStatus,
};
use vstd::prelude::*;

verus! {

broadcast use vstd::std_specs::hash::group_hash_axioms;

/// The engine of one session: the database in memory, the catalog, and
/// the state of the session's transaction.
pub struct Engine {
    pub db: Database,
    pub cat: CatalogManager,
    pub current_xid: Option<u32>,
    pub session_isolation: IsolationLevel,
    pub tx_isolation: Option<IsolationLevel>,
    pub repeatable_snapshot: Option<Snapshot>,
}

/// Why the engine refused something: the view of an [`EngineError`].
pub enum EngineFault {
    Catalog(CatalogFault),
    Storage(crate::errors::storage_error::StorageError),
    Database(crate::errors::engine_error::DbErrorView),
    Parser(crate::errors::parse_error::ParseError),
    TransactionInProgress,
    NoActiveTransaction,
    XidsExhausted,
    Other(Seq<char>),
}

/// The fault that an error reports.
pub open spec fn fault_of(e: EngineError) -> Option<EngineFault> {
    Some(
        match e {
            EngineError::Catalog(c) => EngineFault::Catalog(c@),
            EngineError::Storage(s) => EngineFault::Storage(s),
            EngineError::Database(d) => EngineFault::Database(d@),
            EngineError::Parser(p) => EngineFault::Parser(p),
            EngineError::TransactionInProgress => EngineFault::TransactionInProgress,
            EngineError::NoActiveTransaction => EngineFault::NoActiveTransaction,
            EngineError::XidsExhausted => EngineFault::XidsExhausted,
            EngineError::Other(s) => EngineFault::Other(s@),
        },
    )
}

/// The column that a column of the catalog describes.
pub open spec fn column_of(meta: ColumnMeta) -> crate::types::storage_types::ColumnView {
    crate::types::storage_types::ColumnView {
        name: meta.name@,
        column_type: meta.ty.spec_column_type(),
        not_null: meta.not_null,
        default: match meta.default {
            Some(v) => Some(v@),
            None => None,
        },
    }
}

/// The columns that the columns of the catalog describe.
pub open spec fn columns_of(metas: Seq<ColumnMeta>) -> Seq<crate::types::storage_types::ColumnView> {
    Seq::new(metas.len(), |i: int| column_of(metas[i]))
}

fn columns_from(metas: &Vec<ColumnMeta>) -> (cols: Vec<Column>)
    ensures
        crate::types::storage_types::columns_view(cols@) == columns_of(metas@),
{
    let mut cols: Vec<Column> = Vec::new();
    let mut i: usize = 0;
    while i < metas.len()
        invariant
            i <= metas.len(),
            cols.len() == i,
            forall|j: int| 0 <= j < i ==> cols[j]@ == column_of(metas[j]),
        decreases metas.len() - i,
    {
        let m = &metas[i];
        let default = match &m.default {
            Some(v) => Some(v.copy()),
            None => None,
        };
        cols.push(
            Column {
                name: m.name.clone(),
                column_type: m.ty.column_type(),
                not_null: m.not_null,
                default,
            },
        );
        i += 1;
    }
    assert(crate::types::storage_types::columns_view(cols@) =~= columns_of(metas@));
    cols
}

fn metas_from(columns: &Vec<Column>) -> (metas: Vec<ColumnMeta>)
    ensures
        columns_of(metas@) == crate::types::storage_types::columns_view(columns@),
{
    let mut metas: Vec<ColumnMeta> = Vec::new();
    let mut i: usize = 0;
    while i < columns.len()
        invariant
            i <= columns.len(),
            metas.len() == i,
            forall|j: int| 0 <= j < i ==> column_of(metas[j]) == columns[j]@,
        decreases columns.len() - i,
    {
        let c = &columns[i];
        let default = match &c.default {
            Some(v) => Some(v.copy()),
            None => None,
        };
        metas.push(
            ColumnMeta {
                name: c.name.clone(),
                ty: CatColumnType::of(c.column_type),
                not_null: c.not_null,
                default,
            },
        );
        i += 1;
    }
    assert(columns_of(metas@) =~= crate::types::storage_types::columns_view(columns@));
    metas
}

fn copy_names(names: &Vec<String>) -> (r: Vec<String>)
    ensures
        names_view(r@) == names_view(names@),
{
    let mut r: Vec<String> = Vec::new();
    let mut i: usize = 0;
    while i < names.len()
        invariant
            i <= names.len(),
            r.len() == i,
            forall|j: int| 0 <= j < i ==> r[j]@ == names[j]@,
        decreases names.len() - i,
    {
        r.push(names[i].clone());
        i += 1;
    }
    assert(names_view(r@) =~= names_view(names@));
    r
}

fn copy_foreign_keys(fks: &Vec<ForeignKeyConstraint>) -> (r: Vec<ForeignKeyConstraint>)
    ensures
        crate::types::parser_types::foreign_keys_view(r@)
            == crate::types::parser_types::foreign_keys_view(fks@),
{
    let mut r: Vec<ForeignKeyConstraint> = Vec::new();
    let mut i: usize = 0;
    while i < fks.len()
        invariant
            i <= fks.len(),
            r.len() == i,
            forall|j: int| 0 <= j < i ==> r[j]@ == fks[j]@,
        decreases fks.len() - i,
    {
        r.push(
            ForeignKeyConstraint {
                local_columns: copy_names(&fks[i].local_columns),
                referenced_table: fks[i].referenced_table.clone(),
                referenced_columns: copy_names(&fks[i].referenced_columns),
            },
        );
        i += 1;
    }
    assert(crate::types::parser_types::foreign_keys_view(r@)
        =~= crate::types::parser_types::foreign_keys_view(fks@));
    r
}

fn copy_statuses(m: &std::collections::HashMap<u32, TxStatus>) -> (r: std::collections::HashMap<
    u32,
    TxStatus,
>)
    ensures
        r@ == m@,
{
    m.clone()
}

/// Whether `after` is the catalog manager `before` with a table registered
/// at the end: the table has the next table id and a heap file in the data
/// directory. The rest of the catalog is as it was.
pub open spec fn catalog_with_table(
    before: CatalogManager,
    after: CatalogManager,
    name: Seq<char>,
    columns: Seq<crate::types::storage_types::ColumnView>,
    primary_key: Option<Seq<char>>,
    foreign_keys: Seq<crate::types::storage_types::ForeignKeyView>,
) -> bool {
    let n = before.catalog.tables@.len() as int;
    let added = after.catalog.tables@.last();
    &&& after.data_dir == before.data_dir
    &&& after.catalog.version == before.catalog.version
    &&& after.catalog.page_size == before.catalog.page_size
    &&& after.catalog.next_xid == before.catalog.next_xid
    &&& after.catalog.transactions == before.catalog.transactions
    &&& after.catalog.indexes == before.catalog.indexes
    &&& after.catalog.next_table_oid == before.catalog.next_table_oid + 1
    &&& after.catalog.tables@.len() == n + 1
    &&& after.catalog.tables@.take(n) == before.catalog.tables@
    &&& added.name@ == name
    &&& added.meta.oid == before.catalog.next_table_oid
    &&& added.meta.file@ == table_file(before.data_dir@, name)
    &&& columns_of(added.meta.columns@) == columns
    &&& added.meta.next_rowid == 1
    &&& opt_name_view(added.meta.primary_key) == primary_key
    &&& crate::types::parser_types::foreign_keys_view(added.meta.foreign_keys@) == foreign_keys
}

/// Whether `after` is the catalog manager `before` with an index registered
/// at the end. The rest of the catalog is as it was.
pub open spec fn catalog_with_index(
    before: CatalogManager,
    after: CatalogManager,
    name: Seq<char>,
    table: Seq<char>,
    columns: Seq<Seq<char>>,
) -> bool {
    let n = before.catalog.indexes@.len() as int;
    let added = after.catalog.indexes@.last();
    &&& after.data_dir == before.data_dir
    &&& after.catalog.version == before.catalog.version
    &&& after.catalog.page_size == before.catalog.page_size
    &&& after.catalog.next_table_oid == before.catalog.next_table_oid
    &&& after.catalog.next_xid == before.catalog.next_xid
    &&& after.catalog.transactions == before.catalog.transactions
    &&& after.catalog.tables == before.catalog.tables
    &&& after.catalog.indexes@.len() == n + 1
    &&& after.catalog.indexes@.take(n) == before.catalog.indexes@
    &&& added.name@ == name
    &&& added.table@ == table
    &&& names_view(added.columns@) == columns
}

/// Why the engine cannot be opened, if it cannot: there is not one heap
/// file for each table of the catalog, or two tables or two indexes of the
/// catalog have the same name.
pub open spec fn open_fault(cat: CatalogManager, heaps: int) -> Option<EngineFault> {
    if heaps != cat.catalog.tables@.len() {
        Some(EngineFault::Catalog(CatalogFault::HeapFilesMismatch))
    } else if !crate::catalog::validate::table_names_differ(cat.catalog.tables@) {
        Some(EngineFault::Catalog(CatalogFault::DuplicateTable))
    } else if !crate::catalog::validate::index_names_differ(cat.catalog.indexes@) {
        Some(EngineFault::Catalog(CatalogFault::DuplicateIndex))
    } else {
        None
    }
}

/// Whether an index is as it is after it has been rebuilt: it agrees with
/// the heap file of the first table of its table's name, or is empty if
/// there is no such table.
pub open spec fn rebuilt(idx: BTreeIndex, tables: Seq<Table>) -> bool {
    match table_position(tables, idx.table@, 0) {
        Some(t) => crate::executer::index_laws::index_consistent(idx, tables[t]),
        None => idx.entries() == Seq::<crate::types::b_tree::EntryView>::empty(),
    }
}

/// Fills an empty index with the live tuples of its table: those that no
/// transaction has deleted. The index then agrees with the heap file.
fn fill_index(idx: &mut BTreeIndex, table: &Table)
    requires
        old(idx).wf(),
        old(idx).entries() == Seq::<crate::types::b_tree::EntryView>::empty(),
        table.wf(),
    ensures
        final(idx).wf(),
        final(idx).name == old(idx).name,
        final(idx).table == old(idx).table,
        final(idx).columns == old(idx).columns,
        crate::executer::index_laws::index_consistent(*final(idx), *table),
{
    let scanned = table.heap.scan_all(&table.columns);
    let ghost schema = crate::storage::codec::column_types(table.columns@);
    let ghost tuples = table.heap.tuples(schema);
    let ghost icols = names_view(idx.columns@);
    let mut i: usize = 0;
    proof {
        assert forall|key: Seq<crate::types::storage_types::ValueView>, pos: (usize, usize)|
            #[trigger] crate::types::index_laws::holds(idx.entries(), key, pos)
                <==> crate::executer::index_laws::live_pair(
                tuples,
                icols,
                table.columns@,
                0,
                key,
                pos,
            ) by {}
    }
    while i < scanned.len()
        invariant
            i <= scanned.len(),
            crate::storage::heap_file::scan_view(scanned@) == tuples,
            tuples == table.heap.tuples(schema),
            schema == crate::storage::codec::column_types(table.columns@),
            icols == names_view(idx.columns@),
            idx.wf(),
            idx.name == old(idx).name,
            idx.table == old(idx).table,
            idx.columns == old(idx).columns,
            forall|key: Seq<crate::types::storage_types::ValueView>, pos: (usize, usize)|
                #[trigger] crate::types::index_laws::holds(idx.entries(), key, pos)
                    <==> crate::executer::index_laws::live_pair(
                    tuples,
                    icols,
                    table.columns@,
                    i as int,
                    key,
                    pos,
                ),
        decreases scanned.len() - i,
    {
        let t = &scanned[i];
        let ghost before = *idx;
        let ghost tk = tuples[i as int];
        assert(tk.header == t.2@ && tk.row == t.3@ && tk.page_no == t.0 && tk.slot_no == t.1);
        let mut added = false;
        if t.2.xmax.is_none() {
            match build_key(&idx.columns, &table.columns, &t.3.values, table.name.as_str()) {
                Ok(key) => {
                    idx.insert(key, (t.0 as usize, t.1));
                    added = true;
                },
                Err(_) => {},
            }
        }
        proof {
            let pos_i = (t.0 as usize, t.1);
            if added {
                let key_i = crate::executer::help_functions::key_of(
                    icols,
                    table.columns@,
                    tk.row,
                )->Ok_0;
                crate::types::index_laws::lemma_added_holds(before, *idx, key_i, pos_i);
            }
            assert forall|key: Seq<crate::types::storage_types::ValueView>, pos: (usize, usize)|
                #[trigger] crate::types::index_laws::holds(idx.entries(), key, pos)
                    <==> crate::executer::index_laws::live_pair(
                    tuples,
                    icols,
                    table.columns@,
                    i + 1,
                    key,
                    pos,
                ) by {
                let was = crate::executer::index_laws::live_pair(
                    tuples,
                    icols,
                    table.columns@,
                    i as int,
                    key,
                    pos,
                );
                let now = crate::executer::index_laws::live_pair(
                    tuples,
                    icols,
                    table.columns@,
                    i + 1,
                    key,
                    pos,
                );
                assert(crate::types::index_laws::holds(before.entries(), key, pos) <==> was);
                if was {
                    let k = choose|k: int|
                        0 <= k < i && (#[trigger] tuples[k]).header.xmax.is_none()
                            && crate::executer::help_functions::key_of(
                            icols,
                            table.columns@,
                            tuples[k].row,
                        ) == Ok::<_, crate::errors::engine_error::DbErrorView>(key) && (
                            tuples[k].page_no as usize,
                            tuples[k].slot_no as usize,
                        ) == pos;
                    assert(0 <= k < i + 1);
                    assert(now);
                }
                if now && !was {
                    let k = choose|k: int|
                        0 <= k < i + 1 && (#[trigger] tuples[k]).header.xmax.is_none()
                            && crate::executer::help_functions::key_of(
                            icols,
                            table.columns@,
                            tuples[k].row,
                        ) == Ok::<_, crate::errors::engine_error::DbErrorView>(key) && (
                            tuples[k].page_no as usize,
                            tuples[k].slot_no as usize,
                        ) == pos;
                    assert(k == i);
                    assert(added);
                }
                if added && key == crate::executer::help_functions::key_of(
                    icols,
                    table.columns@,
                    tk.row,
                )->Ok_0 && pos == pos_i {
                    assert(tuples[i as int].header.xmax.is_none());
                    assert(now);
                }
            }
        }
        i += 1;
    }
    proof {
        crate::executer::index_laws::lemma_built_from_scan(*idx, *table);
    }
}

impl Engine {
    /// The engine's invariant: that of its database and that of its
    /// transaction manager.
    pub open spec fn wf(&self) -> bool {
        self.db.wf() && self.db.transaction_manager.wf()
    }

    /// Opens the engine on a catalog and the heap files of its tables, one
    /// for each table of the catalog, in their order: builds the tables,
    /// restores the transaction manager from the catalog, with the
    /// transactions in progress as its active ones, and rebuilds each index
    /// from the live tuples of its table. The session begins without a
    /// transaction, at Read Committed. Fails if there is not one heap file
    /// for each table, or if two tables or two indexes have the same name.
    pub fn open(cat: CatalogManager, heaps: Vec<HeapFile>) -> (r: Result<Engine, EngineError>)
        requires
            forall|i: int| 0 <= i < heaps@.len() ==> (#[trigger] heaps@[i]).wf(),
        ensures
            match r {
                Ok(e) => {
                    &&& open_fault(cat, heaps@.len() as int).is_none()
                    &&& heaps@.len() == cat.catalog.tables@.len()
                    &&& e.wf()
                    &&& e.cat == cat
                    &&& e.current_xid.is_none()
                    &&& e.session_isolation == IsolationLevel::ReadCommitted
                    &&& e.tx_isolation.is_none()
                    &&& e.repeatable_snapshot.is_none()
                    &&& e.db.transaction_manager@.transactions == cat.catalog.transactions@
                    &&& e.db.transaction_manager@.next_xid == cat.catalog.next_xid
                    &&& e.db.transaction_manager@.active_xids.no_duplicates()
                    &&& forall|x: u32|
                        e.db.transaction_manager@.active_xids.contains(x) <==> (
                        cat.catalog.transactions@.contains_key(x) && cat.catalog.transactions@[x]
                            == TxStatus::InProgress)
                    &&& e.db.tables@.len() == cat.catalog.tables@.len()
                    &&& forall|i: int|
                        0 <= i < e.db.tables@.len() ==> {
                            &&& (#[trigger] e.db.tables@[i]).name@ == cat.catalog.tables@[i].name@
                            &&& e.db.tables@[i].heap == heaps@[i]
                            &&& crate::types::storage_types::columns_view(e.db.tables@[i].columns@)
                                == columns_of(cat.catalog.tables@[i].meta.columns@)
                            &&& e.db.tables@[i].primary_key == cat.catalog.tables@[i].meta.primary_key
                            &&& crate::types::parser_types::foreign_keys_view(e.db.tables@[i].foreign_keys@)
                                == crate::types::parser_types::foreign_keys_view(
                                cat.catalog.tables@[i].meta.foreign_keys@,
                            )
                        }
                    &&& e.db.indexes@.len() == cat.catalog.indexes@.len()
                    &&& forall|i: int|
                        0 <= i < e.db.indexes@.len() ==> {
                            &&& (#[trigger] e.db.indexes@[i]).name@ == cat.catalog.indexes@[i].name@
                            &&& e.db.indexes@[i].table@ == cat.catalog.indexes@[i].table@
                            &&& names_view(e.db.indexes@[i].columns@) == names_view(
                                cat.catalog.indexes@[i].columns@,
                            )
                            &&& rebuilt(e.db.indexes@[i], e.db.tables@)
                        }
                },
                Err(e) => fault_of(e) == open_fault(cat, heaps@.len() as int),
            },
    {
        if heaps.len() != cat.catalog.tables.len() {
            return Err(EngineError::Catalog(CatalogError::HeapFilesMismatch));
        }
        if !crate::catalog::validate::distinct_table_names(&cat.catalog.tables) {
            return Err(EngineError::Catalog(CatalogError::DuplicateTable));
        }
        if !crate::catalog::validate::distinct_index_names(&cat.catalog.indexes) {
            return Err(EngineError::Catalog(CatalogError::DuplicateIndex));
        }
        let mut db = Database::new();
        let mut heaps = heaps;
        let ghost all = heaps@;
        let n = cat.catalog.tables.len();
        // The heap files are taken from the end, so the tables are built in
        // reverse and turned round afterwards.
        let mut reversed: Vec<Table> = Vec::new();
        let mut k: usize = n;
        while k > 0
            invariant
                k <= n,
                n == cat.catalog.tables@.len(),
                all.len() == n,
                heaps@ == all.take(k as int),
                forall|i: int| 0 <= i < all.len() ==> (#[trigger] all[i]).wf(),
                reversed@.len() == n - k,
                forall|j: int|
                    0 <= j < reversed@.len() ==> {
                        &&& (#[trigger] reversed@[j]).name@ == cat.catalog.tables@[n - 1 - j].name@
                        &&& reversed@[j].heap == all[n - 1 - j]
                        &&& crate::types::storage_types::columns_view(reversed@[j].columns@)
                            == columns_of(cat.catalog.tables@[n - 1 - j].meta.columns@)
                        &&& reversed@[j].primary_key == cat.catalog.tables@[n - 1 - j].meta.primary_key
                        &&& crate::types::parser_types::foreign_keys_view(reversed@[j].foreign_keys@)
                            == crate::types::parser_types::foreign_keys_view(
                            cat.catalog.tables@[n - 1 - j].meta.foreign_keys@,
                        )
                    },
            decreases k,
        {
            let heap = heaps.pop().unwrap();
            k -= 1;
            assert(heaps@ =~= all.take(k as int));
            let named = &cat.catalog.tables[k];
            let primary_key = match &named.meta.primary_key {
                Some(p) => Some(p.clone()),
                None => None,
            };
            reversed.push(
                Table {
                    name: named.name.clone(),
                    columns: columns_from(&named.meta.columns),
                    heap,
                    primary_key,
                    foreign_keys: copy_foreign_keys(&named.meta.foreign_keys),
                },
            );
        }
        let mut m: usize = n;
        while m > 0
            invariant
                m <= n,
                n == cat.catalog.tables@.len(),
                all.len() == n,
                forall|i: int| 0 <= i < all.len() ==> (#[trigger] all[i]).wf(),
                reversed@.len() == m,
                forall|j: int|
                    0 <= j < reversed@.len() ==> {
                        &&& (#[trigger] reversed@[j]).name@ == cat.catalog.tables@[n - 1 - j].name@
                        &&& reversed@[j].heap == all[n - 1 - j]
                        &&& crate::types::storage_types::columns_view(reversed@[j].columns@)
                            == columns_of(cat.catalog.tables@[n - 1 - j].meta.columns@)
                        &&& reversed@[j].primary_key == cat.catalog.tables@[n - 1 - j].meta.primary_key
                        &&& crate::types::parser_types::foreign_keys_view(reversed@[j].foreign_keys@)
                            == crate::types::parser_types::foreign_keys_view(
                            cat.catalog.tables@[n - 1 - j].meta.foreign_keys@,
                        )
                    },
                db.tables@.len() == n - m,
                db.indexes@.len() == 0,
                forall|i: int|
                    0 <= i < db.tables@.len() ==> {
                        &&& (#[trigger] db.tables@[i]).name@ == cat.catalog.tables@[i].name@
                        &&& db.tables@[i].heap == all[i]
                        &&& crate::types::storage_types::columns_view(db.tables@[i].columns@)
                            == columns_of(cat.catalog.tables@[i].meta.columns@)
                        &&& db.tables@[i].primary_key == cat.catalog.tables@[i].meta.primary_key
                        &&& crate::types::parser_types::foreign_keys_view(db.tables@[i].foreign_keys@)
                            == crate::types::parser_types::foreign_keys_view(
                            cat.catalog.tables@[i].meta.foreign_keys@,
                        )
                    },
            decreases m,
        {
            let table = reversed.pop().unwrap();
            m -= 1;
            db.tables.push(table);
        }
        db.transaction_manager = TransactionManager::from_map(
            copy_statuses(&cat.catalog.transactions),
            cat.catalog.next_xid,
        );
        let mut i: usize = 0;
        while i < cat.catalog.indexes.len()
            invariant
                i <= cat.catalog.indexes@.len(),
                n == cat.catalog.tables@.len(),
                all.len() == n,
                db.wf(),
                db.transaction_manager@.transactions == cat.catalog.transactions@,
                db.transaction_manager@.next_xid == cat.catalog.next_xid,
                db.transaction_manager@.active_xids.no_duplicates(),
                forall|x: u32|
                    db.transaction_manager@.active_xids.contains(x) <==> (
                    cat.catalog.transactions@.contains_key(x) && cat.catalog.transactions@[x]
                        == TxStatus::InProgress),
                db.transaction_manager.wf(),
                crate::catalog::validate::index_names_differ(cat.catalog.indexes@),
                db.tables@.len() == n,
                forall|j: int|
                    0 <= j < db.tables@.len() ==> {
                        &&& (#[trigger] db.tables@[j]).name@ == cat.catalog.tables@[j].name@
                        &&& db.tables@[j].heap == all[j]
                        &&& crate::types::storage_types::columns_view(db.tables@[j].columns@)
                            == columns_of(cat.catalog.tables@[j].meta.columns@)
                        &&& db.tables@[j].primary_key == cat.catalog.tables@[j].meta.primary_key
                        &&& crate::types::parser_types::foreign_keys_view(db.tables@[j].foreign_keys@)
                            == crate::types::parser_types::foreign_keys_view(
                            cat.catalog.tables@[j].meta.foreign_keys@,
                        )
                    },
                db.indexes@.len() == i,
                forall|j: int|
                    0 <= j < db.indexes@.len() ==> {
                        &&& (#[trigger] db.indexes@[j]).name@ == cat.catalog.indexes@[j].name@
                        &&& db.indexes@[j].table@ == cat.catalog.indexes@[j].table@
                        &&& names_view(db.indexes@[j].columns@) == names_view(
                            cat.catalog.indexes@[j].columns@,
                        )
                        &&& rebuilt(db.indexes@[j], db.tables@)
                    },
            decreases cat.catalog.indexes.len() - i,
        {
            let meta = &cat.catalog.indexes[i];
            let mut idx = BTreeIndex::new(
                meta.name.clone(),
                meta.table.clone(),
                copy_names(&meta.columns),
            );
            match db.find_table(meta.table.as_str()) {
                Some(t) => {
                    assert(db.tables@[t as int].wf());
                    fill_index(&mut idx, &db.tables[t]);
                },
                None => {},
            }
            let ghost before = db.indexes@;
            db.indexes.push(idx);
            proof {
                assert forall|a: int, b: int| 0 <= a < b < db.indexes@.len() implies (
                #[trigger] db.indexes@[a]).name@ != (#[trigger] db.indexes@[b]).name@ by {
                    assert(db.indexes@[a] == before[a]);
                    assert(db.indexes@[a].name@ == cat.catalog.indexes@[a].name@);
                    assert(db.indexes@[b].name@ == cat.catalog.indexes@[b].name@);
                }
            }
            i += 1;
        }
        Ok(
            Engine {
                db,
                cat,
                current_xid: None,
                session_isolation: IsolationLevel::ReadCommitted,
                tx_isolation: None,
                repeatable_snapshot: None,
            },
        )
    }

    /// Why a table cannot be created, if it cannot: the catalog refuses it,
    /// or the database has a table of that name.
    pub open spec fn create_table_fault(&self, name: Seq<char>) -> Option<EngineFault> {
        match self.cat.create_table_fault(name) {
            Some(e) => Some(EngineFault::Catalog(e)),
            None => if table_position(self.db.tables@, name, 0).is_some() {
                Some(
                    EngineFault::Database(
                        crate::errors::engine_error::DbErrorView::TableAlreadyExists(name),
                    ),
                )
            } else {
                None
            },
        }
    }

    /// Whether `after` is this engine with a new table, with a heap file of
    /// one empty page, at the end of the catalog's tables and of the
    /// database's. The rest is as it was.
    pub open spec fn table_created(
        &self,
        after: Engine,
        name: Seq<char>,
        columns: Seq<crate::types::storage_types::ColumnView>,
        primary_key: Option<Seq<char>>,
        foreign_keys: Seq<crate::types::storage_types::ForeignKeyView>,
    ) -> bool {
        let n = self.db.tables@.len() as int;
        let table = after.db.tables@.last();
        &&& after.current_xid == self.current_xid
        &&& after.session_isolation == self.session_isolation
        &&& after.tx_isolation == self.tx_isolation
        &&& after.repeatable_snapshot == self.repeatable_snapshot
        &&& after.db.indexes == self.db.indexes
        &&& after.db.transaction_manager == self.db.transaction_manager
        &&& catalog_with_table(self.cat, after.cat, name, columns, primary_key, foreign_keys)
        &&& after.db.tables@.len() == n + 1
        &&& after.db.tables@.take(n) == self.db.tables@
        &&& table.name@ == name
        &&& crate::types::storage_types::columns_view(table.columns@) == columns
        &&& opt_name_view(table.primary_key) == primary_key
        &&& crate::types::parser_types::foreign_keys_view(table.foreign_keys@) == foreign_keys
        &&& table.heap.path@ == table_file(self.cat.data_dir@, name)
        &&& table.heap.pages@.len() == 1
        &&& table.heap.pages@[0].header == crate::storage::page_header::empty_header(0)
        &&& table.heap.pages@[0].data@ == crate::types::page_types::Page::spec_new_data(0)
    }

    /// Whether `after` and `fault` are what the creation of a table leaves
    /// and reports. If the catalog refuses, nothing changes; if only the
    /// database refuses, the catalog keeps the table.
    pub open spec fn create_table_done(
        &self,
        after: Engine,
        name: Seq<char>,
        columns: Seq<crate::types::storage_types::ColumnView>,
        primary_key: Option<Seq<char>>,
        foreign_keys: Seq<crate::types::storage_types::ForeignKeyView>,
        fault: Option<EngineFault>,
    ) -> bool {
        &&& fault == self.create_table_fault(name)
        &&& match fault {
            None => self.table_created(after, name, columns, primary_key, foreign_keys),
            Some(_) => {
                &&& after.current_xid == self.current_xid
                &&& after.session_isolation == self.session_isolation
                &&& after.tx_isolation == self.tx_isolation
                &&& after.repeatable_snapshot == self.repeatable_snapshot
                &&& after.db == self.db
                &&& if self.cat.create_table_fault(name).is_some() {
                    after.cat == self.cat
                } else {
                    catalog_with_table(
                        self.cat,
                        after.cat,
                        name,
                        columns,
                        primary_key,
                        foreign_keys,
                    )
                }
            },
        }
    }

    /// Creates a table in the catalog and in the database, with a heap file
    /// of one empty page. If the catalog refuses, nothing changes; if only
    /// the database refuses, the catalog keeps the table.
    pub fn create_table_in_both(
        &mut self,
        name: &str,
        columns: Vec<Column>,
        primary_key: Option<String>,
        foreign_keys: Vec<ForeignKeyConstraint>,
    ) -> (r: Result<(), EngineError>)
        requires
            old(self).wf(),
        ensures
            final(self).wf(),
            old(self).create_table_done(
                *final(self),
                name@,
                crate::types::storage_types::columns_view(columns@),
                opt_name_view(primary_key),
                crate::types::parser_types::foreign_keys_view(foreign_keys@),
                match r {
                    Ok(()) => None,
                    Err(e) => fault_of(e),
                },
            ),
    {
        let cols_meta = metas_from(&columns);
        let pk_copy = match &primary_key {
            Some(p) => Some(p.clone()),
            None => None,
        };
        let fk_copy = copy_foreign_keys(&foreign_keys);
        let file_path = match self.cat.create_table(name, cols_meta, pk_copy, fk_copy) {
            Ok(meta) => meta.file.clone(),
            Err(e) => {
                return Err(EngineError::Catalog(e));
            },
        };
        let heap_file = HeapFile::new(file_path.as_str());
        match self.db.create_table(name, columns, heap_file, primary_key, foreign_keys) {
            Ok(()) => Ok(()),
            Err(e) => Err(EngineError::Database(e)),
        }
    }

    /// Why an index cannot be created, if it cannot: the catalog refuses
    /// it, or the database does.
    pub open spec fn create_index_fault(
        &self,
        name: Seq<char>,
        table: Seq<char>,
        columns: Seq<Seq<char>>,
    ) -> Option<EngineFault> {
        match self.cat.create_index_fault(name, table) {
            Some(e) => Some(EngineFault::Catalog(e)),
            None => match self.db.create_index_failure(name, table, columns) {
                Some(e) => Some(EngineFault::Database(e)),
                None => None,
            },
        }
    }

    /// Whether `after` is this engine with a new, empty index at the end of
    /// the catalog's indexes and of the database's. The rest is as it was.
    pub open spec fn index_created(
        &self,
        after: Engine,
        name: Seq<char>,
        table: Seq<char>,
        columns: Seq<Seq<char>>,
    ) -> bool {
        let n = self.db.indexes@.len() as int;
        let index = after.db.indexes@.last();
        &&& after.current_xid == self.current_xid
        &&& after.session_isolation == self.session_isolation
        &&& after.tx_isolation == self.tx_isolation
        &&& after.repeatable_snapshot == self.repeatable_snapshot
        &&& after.db.tables == self.db.tables
        &&& after.db.transaction_manager == self.db.transaction_manager
        &&& catalog_with_index(self.cat, after.cat, name, table, columns)
        &&& after.db.indexes@.len() == n + 1
        &&& after.db.indexes@.take(n) == self.db.indexes@
        &&& index.name@ == name
        &&& index.table@ == table
        &&& names_view(index.columns@) == columns
        &&& index.entries() == Seq::<crate::types::b_tree::EntryView>::empty()
    }

    /// Whether `after` and `fault` are what the creation of an index leaves
    /// and reports. If the catalog refuses, nothing changes; if only the
    /// database refuses, the catalog keeps the index.
    pub open spec fn create_index_done(
        &self,
        after: Engine,
        name: Seq<char>,
        table: Seq<char>,
        columns: Seq<Seq<char>>,
        fault: Option<EngineFault>,
    ) -> bool {
        &&& fault == self.create_index_fault(name, table, columns)
        &&& match fault {
            None => self.index_created(after, name, table, columns),
            Some(_) => {
                &&& after.current_xid == self.current_xid
                &&& after.session_isolation == self.session_isolation
                &&& after.tx_isolation == self.tx_isolation
                &&& after.repeatable_snapshot == self.repeatable_snapshot
                &&& after.db == self.db
                &&& if self.cat.create_index_fault(name, table).is_some() {
                    after.cat == self.cat
                } else {
                    catalog_with_index(self.cat, after.cat, name, table, columns)
                }
            },
        }
    }

    /// Creates an empty index in the catalog and in the database. If the
    /// catalog refuses, nothing changes; if only the database refuses, the
    /// catalog keeps the index.
    pub fn create_index_in_both(&mut self, index_name: &str, table_name: &str, columns: Vec<String>)
        -> (r: Result<(), EngineError>)
        requires
            old(self).wf(),
        ensures
            final(self).wf(),
            old(self).create_index_done(
                *final(self),
                index_name@,
                table_name@,
                names_view(columns@),
                match r {
                    Ok(()) => None,
                    Err(e) => fault_of(e),
                },
            ),
    {
        match self.cat.create_index(index_name, table_name, &columns) {
            Ok(_) => {},
            Err(e) => {
                return Err(EngineError::Catalog(e));
            },
        }
        match self.db.create_index(index_name, table_name, columns) {
            Ok(()) => Ok(()),
            Err(e) => Err(EngineError::Database(e)),
        }
    }

    /// Hands out the next xid and records the one after it in the catalog.
    pub fn next_xid(&mut self) -> (xid: u32)
        requires
            old(self).db.transaction_manager.next_xid < u32::MAX,
        ensures
            xid == old(self).db.transaction_manager.next_xid,
            final(self).db.transaction_manager@ == (TransactionManagerView {
                next_xid: (xid + 1) as u32,
                ..old(self).db.transaction_manager@
            }),
            final(self).db.tables == old(self).db.tables,
            final(self).db.indexes == old(self).db.indexes,
            final(self).cat.data_dir == old(self).cat.data_dir,
            final(self).cat.catalog == (Catalog {
                next_xid: (xid + 1) as u32,
                ..old(self).cat.catalog
            }),
            final(self).current_xid == old(self).current_xid,
            final(self).session_isolation == old(self).session_isolation,
            final(self).tx_isolation == old(self).tx_isolation,
            final(self).repeatable_snapshot == old(self).repeatable_snapshot,
            old(self).db.transaction_manager.wf() ==> final(self).db.transaction_manager.wf(),
    {
        let xid = self.db.transaction_manager.alloc_xid();
        self.cat.set_next_xid(self.db.transaction_manager.next_xid);
        xid
    }

    /// Whether `after` is this engine with the status of `xid` recorded, in
    /// the transaction manager and in the catalog, and the list of the
    /// transactions in progress replaced by `active`.
    pub open spec fn status_recorded(
        &self,
        after: Engine,
        xid: u32,
        status: TxStatus,
        active: Seq<u32>,
    ) -> bool {
        &&& after.db.transaction_manager@ == (TransactionManagerView {
            transactions: self.db.transaction_manager@.transactions.insert(xid, status),
            active_xids: active,
            ..self.db.transaction_manager@
        })
        &&& after.db.tables == self.db.tables
        &&& after.db.indexes == self.db.indexes
        &&& after.cat.data_dir == self.cat.data_dir
        &&& after.cat.catalog.version == self.cat.catalog.version
        &&& after.cat.catalog.page_size == self.cat.catalog.page_size
        &&& after.cat.catalog.next_table_oid == self.cat.catalog.next_table_oid
        &&& after.cat.catalog.next_xid == self.cat.catalog.next_xid
        &&& after.cat.catalog.indexes == self.cat.catalog.indexes
        &&& after.cat.catalog.tables == self.cat.catalog.tables
        &&& after.cat.catalog.transactions@ == self.cat.catalog.transactions@.insert(xid, status)
        &&& after.current_xid == self.current_xid
        &&& after.session_isolation == self.session_isolation
        &&& after.tx_isolation == self.tx_isolation
        &&& after.repeatable_snapshot == self.repeatable_snapshot
    }

    /// Starts the transaction `xid`.
    pub fn begin_tx(&mut self, xid: u32)
        ensures
            old(self).status_recorded(
                *final(self),
                xid,
                TxStatus::InProgress,
                old(self).db.transaction_manager@.active_xids.push(xid),
            ),
            old(self).db.transaction_manager.wf() ==> final(self).db.transaction_manager.wf(),
    {
        self.db.transaction_manager.begin(xid);
        self.cat.set_status(xid, TxStatus::InProgress);
    }

    /// Commits the transaction `xid`.
    pub fn commit_tx(&mut self, xid: u32)
        ensures
            old(self).status_recorded(
                *final(self),
                xid,
                TxStatus::Committed,
                crate::types::transaction_types::without(
                    old(self).db.transaction_manager@.active_xids,
                    xid,
                ),
            ),
            old(self).db.transaction_manager.wf() ==> final(self).db.transaction_manager.wf(),
    {
        self.db.transaction_manager.commit(xid);
        self.cat.set_status(xid, TxStatus::Committed);
    }

    /// Rolls the transaction `xid` back.
    pub fn rollback_tx(&mut self, xid: u32)
        ensures
            old(self).status_recorded(
                *final(self),
                xid,
                TxStatus::Aborted,
                crate::types::transaction_types::without(
                    old(self).db.transaction_manager@.active_xids,
                    xid,
                ),
            ),
            old(self).db.transaction_manager.wf() ==> final(self).db.transaction_manager.wf(),
    {
        self.db.transaction_manager.rollback(xid);
        self.cat.set_status(xid, TxStatus::Aborted);
    }
}

/// View of an optional snapshot.
pub open spec fn opt_snapshot_view(s: Option<Snapshot>) -> Option<
    crate::types::transaction_types::SnapshotView,
> {
    match s {
        Some(s) => Some(s@),
        None => None,
    }
}

impl Engine {
    /// The isolation level of the statements of the session: that of the
    /// active transaction, if it has one of its own, else the session's.
    pub open spec fn spec_level(&self) -> IsolationLevel {
        match self.tx_isolation {
            Some(l) => l,
            None => self.session_isolation,
        }
    }

    /// The snapshot by which the next statement sees the data. Inside a
    /// transaction at Repeatable Read it is the one that was taken at BEGIN;
    /// otherwise it is taken afresh.
    pub open spec fn spec_statement_snapshot(&self) -> crate::types::transaction_types::SnapshotView {
        if self.current_xid.is_some() && self.spec_level() == IsolationLevel::RepeatableRead
            && self.repeatable_snapshot.is_some() {
            self.repeatable_snapshot.unwrap()@
        } else {
            crate::types::transaction_types::snapshot_of(self.db.transaction_manager@)
        }
    }

    /// The snapshot by which the next statement sees the data.
    pub fn statement_snapshot(&self) -> (s: Snapshot)
        ensures
            s@ == self.spec_statement_snapshot(),
    {
        let level = match self.tx_isolation {
            Some(l) => l,
            None => self.session_isolation,
        };
        if self.current_xid.is_some() && level == IsolationLevel::RepeatableRead {
            match &self.repeatable_snapshot {
                Some(s) => Snapshot {
                    xmin: s.xmin,
                    xmax: s.xmax,
                    active_xids: s.active_xids.clone(),
                },
                None => self.db.transaction_manager.snapshot(),
            }
        } else {
            self.db.transaction_manager.snapshot()
        }
    }

    /// Whether `after` is this engine with a transaction begun: a new xid
    /// is handed out and recorded as in progress, and becomes the session's
    /// transaction, at the given isolation level or at the session's; at
    /// Repeatable Read the snapshot of that moment is pinned.
    pub open spec fn begun(&self, after: Engine, isolation: Option<IsolationLevel>, xid: u32) -> bool {
        let level = match isolation {
            Some(l) => l,
            None => self.session_isolation,
        };
        let tm = TransactionManagerView {
            transactions: self.db.transaction_manager@.transactions.insert(
                xid,
                TxStatus::InProgress,
            ),
            next_xid: (xid + 1) as u32,
            active_xids: self.db.transaction_manager@.active_xids.push(xid),
        };
        &&& xid == self.db.transaction_manager@.next_xid
        &&& after.db.transaction_manager@ == tm
        &&& after.db.tables == self.db.tables
        &&& after.db.indexes == self.db.indexes
        &&& after.cat.data_dir == self.cat.data_dir
        &&& after.cat.catalog.version == self.cat.catalog.version
        &&& after.cat.catalog.page_size == self.cat.catalog.page_size
        &&& after.cat.catalog.next_table_oid == self.cat.catalog.next_table_oid
        &&& after.cat.catalog.next_xid == xid + 1
        &&& after.cat.catalog.transactions@ == self.cat.catalog.transactions@.insert(
            xid,
            TxStatus::InProgress,
        )
        &&& after.cat.catalog.tables == self.cat.catalog.tables
        &&& after.cat.catalog.indexes == self.cat.catalog.indexes
        &&& after.current_xid == Some(xid)
        &&& after.session_isolation == self.session_isolation
        &&& after.tx_isolation == Some(level)
        &&& opt_snapshot_view(after.repeatable_snapshot) == if level
            == IsolationLevel::RepeatableRead {
            Some(crate::types::transaction_types::snapshot_of(tm))
        } else {
            None
        }
    }

    /// Begins a transaction. Fails if one is active, or if no xid is left.
    pub fn begin(&mut self, isolation: Option<IsolationLevel>) -> (r: Result<u32, EngineError>)
        requires
            old(self).wf(),
        ensures
            final(self).wf(),
            match r {
                Ok(xid) => old(self).current_xid.is_none() && old(self).begun(
                    *final(self),
                    isolation,
                    xid,
                ),
                Err(e) => *final(self) == *old(self) && fault_of(e) == Some(
                    if old(self).current_xid.is_some() {
                        EngineFault::TransactionInProgress
                    } else {
                        EngineFault::XidsExhausted
                    },
                ) && (old(self).current_xid.is_some() || old(self).db.transaction_manager.next_xid
                    == u32::MAX),
            },
    {
        if self.current_xid.is_some() {
            return Err(EngineError::TransactionInProgress);
        }
        if self.db.transaction_manager.next_xid == u32::MAX {
            return Err(EngineError::XidsExhausted);
        }
        let xid = self.next_xid();
        self.begin_tx(xid);
        self.current_xid = Some(xid);
        let level = match isolation {
            Some(l) => l,
            None => self.session_isolation,
        };
        self.tx_isolation = Some(level);
        if level == IsolationLevel::RepeatableRead {
            self.repeatable_snapshot = Some(self.db.transaction_manager.snapshot());
        } else {
            self.repeatable_snapshot = None;
        }
        Ok(xid)
    }

    /// Whether `after` is this engine with its transaction ended with the
    /// given status: the status is recorded, the session has no transaction,
    /// and the pinned snapshot and the transaction's isolation level are gone.
    pub open spec fn ended(&self, after: Engine, status: TxStatus, xid: u32) -> bool {
        &&& self.current_xid == Some(xid)
        &&& after.db.transaction_manager@ == (TransactionManagerView {
            transactions: self.db.transaction_manager@.transactions.insert(xid, status),
            active_xids: crate::types::transaction_types::without(
                self.db.transaction_manager@.active_xids,
                xid,
            ),
            ..self.db.transaction_manager@
        })
        &&& after.db.tables == self.db.tables
        &&& after.db.indexes == self.db.indexes
        &&& after.cat.data_dir == self.cat.data_dir
        &&& after.cat.catalog.version == self.cat.catalog.version
        &&& after.cat.catalog.page_size == self.cat.catalog.page_size
        &&& after.cat.catalog.next_table_oid == self.cat.catalog.next_table_oid
        &&& after.cat.catalog.next_xid == self.cat.catalog.next_xid
        &&& after.cat.catalog.transactions@ == self.cat.catalog.transactions@.insert(xid, status)
        &&& after.cat.catalog.tables == self.cat.catalog.tables
        &&& after.cat.catalog.indexes == self.cat.catalog.indexes
        &&& after.current_xid.is_none()
        &&& after.session_isolation == self.session_isolation
        &&& after.tx_isolation.is_none()
        &&& after.repeatable_snapshot.is_none()
    }

    /// Commits the session's transaction. Fails if none is active.
    pub fn commit(&mut self) -> (r: Result<u32, EngineError>)
        requires
            old(self).wf(),
        ensures
            final(self).wf(),
            match r {
                Ok(xid) => old(self).ended(*final(self), TxStatus::Committed, xid),
                Err(e) => *final(self) == *old(self) && old(self).current_xid.is_none()
                    && fault_of(e) == Some(EngineFault::NoActiveTransaction),
            },
    {
        match self.current_xid {
            Some(xid) => {
                self.commit_tx(xid);
                self.current_xid = None;
                self.repeatable_snapshot = None;
                self.tx_isolation = None;
                Ok(xid)
            },
            None => Err(EngineError::NoActiveTransaction),
        }
    }

    /// Rolls the session's transaction back. Fails if none is active.
    pub fn rollback(&mut self) -> (r: Result<u32, EngineError>)
        requires
            old(self).wf(),
        ensures
            final(self).wf(),
            match r {
                Ok(xid) => old(self).ended(*final(self), TxStatus::Aborted, xid),
                Err(e) => *final(self) == *old(self) && old(self).current_xid.is_none()
                    && fault_of(e) == Some(EngineFault::NoActiveTransaction),
            },
    {
        match self.current_xid {
            Some(xid) => {
                self.rollback_tx(xid);
                self.current_xid = None;
                self.repeatable_snapshot = None;
                self.tx_isolation = None;
                Ok(xid)
            },
            None => Err(EngineError::NoActiveTransaction),
        }
    }

    /// Whether `after` is this engine ready for a statement that writes
    /// under `xid`: inside a transaction it is the engine as it is, and the
    /// xid is the transaction's; outside, a new xid is handed out and
    /// recorded as in progress, to be committed when the statement is done.
    pub open spec fn writing(&self, after: Engine, xid: u32) -> bool {
        match self.current_xid {
            Some(x) => xid == x && after == *self,
            None => {
                &&& xid == self.db.transaction_manager@.next_xid
                &&& after.db.transaction_manager@ == (TransactionManagerView {
                    transactions: self.db.transaction_manager@.transactions.insert(
                        xid,
                        TxStatus::InProgress,
                    ),
                    next_xid: (xid + 1) as u32,
                    active_xids: self.db.transaction_manager@.active_xids.push(xid),
                })
                &&& after.db.tables == self.db.tables
                &&& after.db.indexes == self.db.indexes
                &&& after.cat.data_dir == self.cat.data_dir
                &&& after.cat.catalog.version == self.cat.catalog.version
                &&& after.cat.catalog.page_size == self.cat.catalog.page_size
                &&& after.cat.catalog.next_table_oid == self.cat.catalog.next_table_oid
                &&& after.cat.catalog.next_xid == xid + 1
                &&& after.cat.catalog.transactions@ == self.cat.catalog.transactions@.insert(
                    xid,
                    TxStatus::InProgress,
                )
                &&& after.cat.catalog.tables == self.cat.catalog.tables
                &&& after.cat.catalog.indexes == self.cat.catalog.indexes
                &&& after.current_xid.is_none()
                &&& after.session_isolation == self.session_isolation
                &&& after.tx_isolation == self.tx_isolation
                &&& after.repeatable_snapshot == self.repeatable_snapshot
            },
        }
    }

    /// Makes the engine ready for a statement that writes, and returns the
    /// xid under which it writes. Fails, outside a transaction, if no xid is
    /// left.
    pub fn start_write(&mut self) -> (r: Result<u32, EngineError>)
        requires
            old(self).wf(),
        ensures
            final(self).wf(),
            match r {
                Ok(xid) => old(self).writing(*final(self), xid),
                Err(e) => *final(self) == *old(self) && old(self).current_xid.is_none()
                    && old(self).db.transaction_manager.next_xid == u32::MAX && fault_of(e) == Some(
                    EngineFault::XidsExhausted,
                ),
            },
    {
        match self.current_xid {
            Some(xid) => Ok(xid),
            None => {
                if self.db.transaction_manager.next_xid == u32::MAX {
                    return Err(EngineError::XidsExhausted);
                }
                let xid = self.next_xid();
                self.begin_tx(xid);
                Ok(xid)
            },
        }
    }

    /// Ends a statement that wrote under `xid`: outside a transaction the
    /// xid is committed; inside, nothing is done.
    pub fn finish_write(&mut self, xid: u32)
        requires
            old(self).wf(),
        ensures
            final(self).wf(),
            match old(self).current_xid {
                Some(_) => *final(self) == *old(self),
                None => old(self).status_recorded(
                    *final(self),
                    xid,
                    TxStatus::Committed,
                    crate::types::transaction_types::without(
                        old(self).db.transaction_manager@.active_xids,
                        xid,
                    ),
                ),
            },
    {
        if self.current_xid.is_none() {
            self.commit_tx(xid);
        }
    }
}

} // verus!
