use crate::errors::engine_error::{DbError, DbErrorView};
use crate::errors::storage_error::StorageError;
use crate::executer::help_functions::{
    all_columns_known, build_key, failure_view, fks_failure, key_of, name_positions,
    positions_view, resolve_columns, validate_foreign_keys,
};
use crate::storage::codec::{column_types, encode_tuple};
use crate::storage::heap_file::{scan_view, StoredTuple};
use crate::storage::tuple_header::visible;
use crate::types::b_tree::BTreeIndex;
use crate::types::page_types::TupleHeader;
use crate::types::parser_types::foreign_keys_view;
use crate::types::storage_types::{
    column_position, find_column, names_view, table_position, value_fits, value_fits_type,
    values_view, Column, Database, Row, Table, Value, ValueView,
};
use crate::types::transaction_types::{Snapshot, SnapshotView, TransactionManager, TxStatus};
use vstd::prelude::*;

verus! {

/// The row after the first `n` values have been put at their positions;
/// where two go to one position, the later one stays.
pub open spec fn placed_upto(
    row: Seq<ValueView>,
    positions: Seq<int>,
    values: Seq<ValueView>,
    n: int,
) -> Seq<ValueView>
    decreases n,
{
    if n <= 0 {
        row
    } else {
        placed_upto(row, positions, values, n - 1).update(positions[n - 1], values[n - 1])
    }
}

/// The row that the values of an INSERT make. With a column list, there
/// must be as many values as names and every name must be a column's; each
/// value goes to the column of its name, and the other columns are NULL.
/// Without one, there must be as many values as columns.
pub open spec fn bound_row(
    columns: Seq<Column>,
    names: Option<Seq<Seq<char>>>,
    values: Seq<ValueView>,
) -> Result<Seq<ValueView>, DbErrorView> {
    match names {
        Some(ns) => {
            if ns.len() != values.len() {
                Err(DbErrorView::ColumnCountMismatch)
            } else if !all_columns_known(ns, columns) {
                Err(
                    DbErrorView::ColumnUnknown(
                        crate::executer::help_functions::first_unknown(ns, columns, 0)->Some_0,
                    ),
                )
            } else {
                Ok(
                    placed_upto(
                        Seq::new(columns.len(), |i: int| ValueView::Null),
                        name_positions(ns, columns),
                        values,
                        ns.len() as int,
                    ),
                )
            }
        },
        None => {
            if values.len() != columns.len() {
                Err(DbErrorView::ColumnCountMismatch)
            } else {
                Ok(values)
            }
        },
    }
}

/// Whether every value of the row is NULL or of its column's type.
pub open spec fn types_ok(columns: Seq<Column>, row: Seq<ValueView>) -> bool {
    forall|i: int|
        0 <= i < row.len() && i < columns.len() ==> value_fits(
            #[trigger] row[i],
            columns[i].column_type,
        )
}

/// The name of the first column at or after `i` whose value is neither NULL
/// nor of the column's type.
pub open spec fn first_misfit(columns: Seq<Column>, row: Seq<ValueView>, i: int) -> Option<
    Seq<char>,
>
    decreases row.len() - i,
{
    if i < 0 || i >= row.len() || i >= columns.len() {
        None
    } else if !value_fits(row[i], columns[i].column_type) {
        Some(columns[i].name@)
    } else {
        first_misfit(columns, row, i + 1)
    }
}

/// The name of the first column at or after `i` that the row leaves NULL
/// though it must not be and has no default.
pub open spec fn first_null_violation(columns: Seq<Column>, row: Seq<ValueView>, i: int)
    -> Option<Seq<char>>
    decreases row.len() - i,
{
    if i < 0 || i >= row.len() || i >= columns.len() {
        None
    } else if row[i] is Null && columns[i].default.is_none() && columns[i].not_null {
        Some(columns[i].name@)
    } else {
        first_null_violation(columns, row, i + 1)
    }
}

/// Whether the row leaves a column NULL that must not be and has no default.
pub open spec fn not_null_violated(columns: Seq<Column>, row: Seq<ValueView>) -> bool {
    exists|i: int|
        0 <= i < columns.len() && i < row.len() && (#[trigger] row[i]) is Null
            && columns[i].default.is_none() && columns[i].not_null
}

/// The row with the default of its column in place of each NULL.
pub open spec fn with_defaults(columns: Seq<Column>, row: Seq<ValueView>) -> Seq<ValueView> {
    Seq::new(
        row.len(),
        |i: int|
            if i < columns.len() && row[i] is Null && columns[i].default.is_some() {
                columns[i].default.unwrap()@
            } else {
                row[i]
            },
    )
}

/// Whether some tuple that is visible to the transaction has the value at
/// the position.
pub open spec fn key_taken(
    tuples: Seq<StoredTuple>,
    position: int,
    value: ValueView,
    xid: u32,
    snapshot: SnapshotView,
    statuses: Map<u32, TxStatus>,
) -> bool {
    exists|k: int|
        0 <= k < tuples.len() && visible((#[trigger] tuples[k]).header, xid, snapshot, statuses)
            && 0 <= position < tuples[k].row.len() && tuples[k].row[position] == value
}

/// Why a row breaks the primary key of its table, if it does: it is NULL
/// there, or a tuple that is visible to the transaction has the same value.
pub open spec fn pk_failure(
    table: Table,
    row: Seq<ValueView>,
    xid: u32,
    snapshot: SnapshotView,
    statuses: Map<u32, TxStatus>,
) -> Option<DbErrorView> {
    match table.primary_key {
        None => None,
        Some(pk) => match column_position(table.columns@, pk@, 0) {
            None => Some(DbErrorView::ColumnUnknown(pk@)),
            Some(i) => {
                if i >= row.len() {
                    Some(DbErrorView::ColumnCountMismatch)
                } else if row[i] is Null {
                    Some(DbErrorView::PkNull(pk@))
                } else if key_taken(
                    table.heap.tuples(column_types(table.columns@)),
                    i,
                    row[i],
                    xid,
                    snapshot,
                    statuses,
                ) {
                    Some(DbErrorView::PkConflict(pk@))
                } else {
                    None
                }
            },
        },
    }
}

/// The first failure to build the key of a row among the indexes on a
/// table, from the `i`-th index on.
pub open spec fn index_keys_failure(
    indexes: Seq<BTreeIndex>,
    table_name: Seq<char>,
    columns: Seq<Column>,
    row: Seq<ValueView>,
    i: int,
) -> Option<DbErrorView>
    decreases indexes.len() - i,
{
    if i < 0 || i >= indexes.len() {
        None
    } else if indexes[i].table@ == table_name {
        match key_of(names_view(indexes[i].columns@), columns, row) {
            Err(e) => Some(e),
            Ok(_) => index_keys_failure(indexes, table_name, columns, row, i + 1),
        }
    } else {
        index_keys_failure(indexes, table_name, columns, row, i + 1)
    }
}

/// View of an optional list of names.
pub open spec fn opt_names_view(names: Option<Vec<String>>) -> Option<Seq<Seq<char>>> {
    match names {
        Some(ns) => Some(names_view(ns@)),
        None => None,
    }
}

/// View of an optional key.
pub open spec fn opt_key_view(key: Option<Vec<Value>>) -> Option<Seq<ValueView>> {
    match key {
        Some(k) => Some(values_view(k@)),
        None => None,
    }
}

impl Database {
    /// The row that an INSERT stores in the table at `t`, or why it stores
    /// none: the values bound to the columns and checked against their
    /// types, with defaults in place of NULL, checked against NOT NULL, the
    /// primary key and the foreign keys, in this order.
    pub open spec fn prepared_row(
        &self,
        t: int,
        names: Option<Seq<Seq<char>>>,
        values: Seq<ValueView>,
        xid: u32,
        snapshot: SnapshotView,
    ) -> Result<Seq<ValueView>, DbErrorView> {
        let table = self.tables@[t];
        match bound_row(table.columns@, names, values) {
            Err(e) => Err(e),
            Ok(bound) => {
                let row = with_defaults(table.columns@, bound);
                if !types_ok(table.columns@, bound) {
                    Err(DbErrorView::TypeMismatch(first_misfit(table.columns@, bound, 0)->Some_0))
                } else if not_null_violated(table.columns@, bound) {
                    Err(
                        DbErrorView::NotNullViolation(
                            first_null_violation(table.columns@, bound, 0)->Some_0,
                        ),
                    )
                } else {
                    match pk_failure(table, row, xid, snapshot, self.transaction_manager@.transactions) {
                        Some(e) => Err(e),
                        None => match fks_failure(
                            self.tables@,
                            table.columns@,
                            foreign_keys_view(table.foreign_keys@),
                            row,
                            0,
                        ) {
                            Some(e) => Err(e),
                            None => Ok(row),
                        },
                    }
                }
            },
        }
    }

    /// Why an INSERT fails, if it does: the table does not exist, the row
    /// cannot be prepared, the key of an index cannot be built, or the heap
    /// file has no room.
    pub open spec fn insert_failure(
        &self,
        table_name: Seq<char>,
        names: Option<Seq<Seq<char>>>,
        values: Seq<ValueView>,
        xid: u32,
        snapshot: SnapshotView,
    ) -> Option<DbErrorView> {
        match table_position(self.tables@, table_name, 0) {
            None => Some(DbErrorView::TableDoesNotExist(table_name)),
            Some(t) => match self.prepared_row(t, names, values, xid, snapshot) {
                Err(e) => Some(e),
                Ok(row) => match index_keys_failure(
                    self.indexes@,
                    table_name,
                    self.tables@[t].columns@,
                    row,
                    0,
                ) {
                    Some(e) => Some(e),
                    None => if self.tables@[t].heap.can_insert(
                        encode_tuple(row, xid).len() as int,
                    ) {
                        None
                    } else {
                        Some(DbErrorView::Storage(StorageError::NoSpace))
                    },
                },
            },
        }
    }

    /// Whether `after` is this database with `row` stored in the table at
    /// `t` at the given position by `xid`, and the position added under the
    /// row's key to every index on that table. Everything else is as it was.
    pub open spec fn row_inserted(
        &self,
        after: Database,
        t: int,
        row: Seq<ValueView>,
        xid: u32,
        page_no: int,
        slot_no: int,
    ) -> bool {
        let table = self.tables@[t];
        &&& after.transaction_manager == self.transaction_manager
        &&& after.tables@.len() == self.tables@.len()
        &&& forall|i: int|
            0 <= i < self.tables@.len() && i != t ==> after.tables@[i] == self.tables@[i]
        &&& after.tables@[t].name == table.name
        &&& after.tables@[t].columns == table.columns
        &&& after.tables@[t].primary_key == table.primary_key
        &&& after.tables@[t].foreign_keys == table.foreign_keys
        &&& table.heap.inserted(after.tables@[t].heap, encode_tuple(row, xid), page_no, slot_no)
        &&& after.indexes@.len() == self.indexes@.len()
        &&& forall|i: int|
            0 <= i < self.indexes@.len() ==> if self.indexes@[i].table@ == table.name@ {
                key_of(names_view(self.indexes@[i].columns@), table.columns@, row).is_ok()
                    && (#[trigger] self.indexes@[i]).added(
                    after.indexes@[i],
                    key_of(names_view(self.indexes@[i].columns@), table.columns@, row)->Ok_0,
                    (page_no as usize, slot_no as usize),
                )
            } else {
                after.indexes@[i] == self.indexes@[i]
            }
    }
}

fn bind_columns(columns: &Vec<Column>, column_names: &Option<Vec<String>>, values: Vec<Value>) -> (r:
    Result<Vec<Value>, DbError>)
    ensures
        match r {
            Ok(row) => bound_row(columns@, opt_names_view(*column_names), values_view(values@))
                == Ok::<_, DbErrorView>(values_view(row@)),
            Err(e) => bound_row(columns@, opt_names_view(*column_names), values_view(values@))
                == Err::<Seq<ValueView>, _>(e@),
        },
{
    match column_names {
        Some(names) => {
            if names.len() != values.len() {
                return Err(DbError::ColumnCountMismatch);
            }
            let positions = match resolve_columns(names, columns) {
                Ok(ps) => ps,
                Err(name) => {
                    return Err(DbError::ColumnUnknown(name));
                },
            };
            let mut row: Vec<Value> = Vec::new();
            let mut c: usize = 0;
            while c < columns.len()
                invariant
                    c <= columns.len(),
                    row.len() == c,
                    forall|j: int| 0 <= j < c ==> row[j]@ == ValueView::Null,
                decreases columns.len() - c,
            {
                row.push(Value::Null);
                c += 1;
            }
            let ghost nulls = Seq::new(columns@.len(), |i: int| ValueView::Null);
            assert(values_view(row@) =~= nulls);
            let ghost ps = positions_view(positions@);
            let ghost vs = values_view(values@);
            assert(positions@.len() == ps.len());
            let mut k: usize = 0;
            while k < names.len()
                invariant
                    k <= names.len(),
                    names.len() == values.len(),
                    positions.len() == names.len(),
                    row.len() == columns.len(),
                    ps == positions_view(positions@),
                    vs == values_view(values@),
                    forall|i: int| 0 <= i < positions@.len() ==> (#[trigger] positions@[i])
                        < columns@.len(),
                    values_view(row@) == placed_upto(nulls, ps, vs, k as int),
                decreases names.len() - k,
            {
                let p = positions[k];
                assert(ps[k as int] == p);
                assert(vs[k as int] == values[k as int]@);
                let ghost before = values_view(row@);
                row.set(p, values[k].copy());
                assert(values_view(row@) =~= before.update(p as int, vs[k as int]));
                k += 1;
            }
            Ok(row)
        },
        None => {
            if values.len() != columns.len() {
                return Err(DbError::ColumnCountMismatch);
            }
            Ok(values)
        },
    }
}

fn check_types(columns: &Vec<Column>, row: &Vec<Value>) -> (r: Option<String>)
    ensures
        match r {
            None => types_ok(columns@, values_view(row@)),
            Some(name) => !types_ok(columns@, values_view(row@)) && first_misfit(
                columns@,
                values_view(row@),
                0,
            ) == Some(name@),
        },
{
    let ghost r = values_view(row@);
    let mut i: usize = 0;
    while i < row.len() && i < columns.len()
        invariant
            i <= row.len(),
            i <= columns.len(),
            r == values_view(row@),
            first_misfit(columns@, r, i as int) == first_misfit(columns@, r, 0),
            forall|j: int| 0 <= j < i ==> value_fits(#[trigger] r[j], columns[j].column_type),
        decreases row.len() - i,
    {
        assert(r[i as int] == row[i as int]@);
        if !value_fits_type(&row[i], columns[i].column_type) {
            return Some(columns[i].name.clone());
        }
        i += 1;
    }
    None
}

/// Puts the default of each column in place of NULL. Fails if a column
/// that must not be NULL is left NULL.
pub fn apply_defaults(columns: &Vec<Column>, row: Vec<Value>) -> (r: Result<Vec<Value>, DbError>)
    ensures
        match r {
            Ok(out) => !not_null_violated(columns@, values_view(row@)) && values_view(out@)
                == with_defaults(columns@, values_view(row@)),
            Err(e) => not_null_violated(columns@, values_view(row@)) && e@
                == DbErrorView::NotNullViolation(
                first_null_violation(columns@, values_view(row@), 0)->Some_0,
            ),
        },
{
    let ghost r = values_view(row@);
    let mut out: Vec<Value> = Vec::new();
    let mut i: usize = 0;
    while i < row.len()
        invariant
            i <= row.len(),
            out.len() == i,
            r == values_view(row@),
            first_null_violation(columns@, r, i as int) == first_null_violation(columns@, r, 0),
            forall|j: int|
                0 <= j < i && j < columns.len() ==> !((#[trigger] r[j]) is Null
                    && columns[j].default.is_none() && columns[j].not_null),
            forall|j: int| 0 <= j < i ==> out[j]@ == with_defaults(columns@, r)[j],
        decreases row.len() - i,
    {
        assert(r[i as int] == row[i as int]@);
        if i < columns.len() && row[i].is_null() {
            match &columns[i].default {
                Some(d) => {
                    out.push(d.copy());
                },
                None => {
                    if columns[i].not_null {
                        return Err(DbError::NotNullViolation(columns[i].name.clone()));
                    }
                    out.push(Value::Null);
                },
            }
        } else {
            out.push(row[i].copy());
        }
        i += 1;
    }
    assert(values_view(out@) =~= with_defaults(columns@, r));
    Ok(out)
}

fn is_key_taken(
    rows: &Vec<(u32, usize, TupleHeader, Row)>,
    position: usize,
    value: &Value,
    xid: u32,
    snapshot: &Snapshot,
    tm: &TransactionManager,
) -> (b: bool)
    ensures
        b == key_taken(
            scan_view(rows@),
            position as int,
            value@,
            xid,
            snapshot@,
            tm@.transactions,
        ),
{
    let ghost ts = scan_view(rows@);
    let mut i: usize = 0;
    while i < rows.len()
        invariant
            i <= rows.len(),
            ts == scan_view(rows@),
            forall|k: int|
                0 <= k < i ==> !(visible((#[trigger] ts[k]).header, xid, snapshot@, tm@.transactions)
                    && 0 <= position < ts[k].row.len() && ts[k].row[position as int] == value@),
        decreases rows.len() - i,
    {
        assert(ts[i as int].header == rows[i as int].2@ && ts[i as int].row == rows[i as int].3@);
        if rows[i].2.is_visible(xid, snapshot, tm) && position < rows[i].3.values.len() {
            assert(rows[i as int].3@[position as int] == rows[i as int].3.values[position as int]@);
            if rows[i].3.values[position].same(value) {
                return true;
            }
        }
        i += 1;
    }
    false
}

fn check_primary_key(
    table: &Table,
    row: &Vec<Value>,
    xid: u32,
    snapshot: &Snapshot,
    tm: &TransactionManager,
) -> (r: Result<(), DbError>)
    requires
        table.wf(),
    ensures
        failure_view(r) == pk_failure(*table, values_view(row@), xid, snapshot@, tm@.transactions),
{
    let pk = match &table.primary_key {
        None => {
            return Ok(());
        },
        Some(pk) => pk,
    };
    let i = match find_column(&table.columns, pk.as_str()) {
        None => {
            return Err(DbError::ColumnUnknown(pk.clone()));
        },
        Some(i) => i,
    };
    if i >= row.len() {
        return Err(DbError::ColumnCountMismatch);
    }
    assert(values_view(row@)[i as int] == row[i as int]@);
    if row[i].is_null() {
        return Err(DbError::PkNull(pk.clone()));
    }
    let rows = table.heap.scan_all(&table.columns);
    if is_key_taken(&rows, i, &row[i], xid, snapshot, tm) {
        Err(DbError::PkConflict(pk.clone()))
    } else {
        Ok(())
    }
}

impl Database {
    /// Prepares the row that an INSERT stores in the table at `t`.
    pub fn prepare_row(
        &self,
        t: usize,
        column_names: &Option<Vec<String>>,
        values: Vec<Value>,
        xid: u32,
        snapshot: &Snapshot,
    ) -> (r: Result<Vec<Value>, DbError>)
        requires
            self.wf(),
            t < self.tables@.len(),
        ensures
            match r {
                Ok(row) => self.prepared_row(
                    t as int,
                    opt_names_view(*column_names),
                    values_view(values@),
                    xid,
                    snapshot@,
                ) == Ok::<_, DbErrorView>(values_view(row@)),
                Err(e) => self.prepared_row(
                    t as int,
                    opt_names_view(*column_names),
                    values_view(values@),
                    xid,
                    snapshot@,
                ) == Err::<Seq<ValueView>, _>(e@),
            },
    {
        let table = &self.tables[t];
        assert(table.wf());
        let bound = match bind_columns(&table.columns, column_names, values) {
            Ok(b) => b,
            Err(e) => {
                return Err(e);
            },
        };
        match check_types(&table.columns, &bound) {
            Some(name) => {
                return Err(DbError::TypeMismatch(name));
            },
            None => {},
        }
        let row = match apply_defaults(&table.columns, bound) {
            Ok(r) => r,
            Err(e) => {
                return Err(e);
            },
        };
        match check_primary_key(table, &row, xid, snapshot, &self.transaction_manager) {
            Err(e) => {
                return Err(e);
            },
            Ok(()) => {},
        }
        match validate_foreign_keys(self, table, &row) {
            Err(e) => {
                return Err(e);
            },
            Ok(()) => {},
        }
        Ok(row)
    }

    /// The key of a row under each index: for the indexes on the table, the
    /// row's key; for the others, none.
    pub fn index_keys(&self, t: usize, row: &Vec<Value>) -> (r: Result<
        Vec<Option<Vec<Value>>>,
        DbError,
    >)
        requires
            t < self.tables@.len(),
        ensures
            match r {
                Ok(keys) => {
                    &&& index_keys_failure(
                        self.indexes@,
                        self.tables@[t as int].name@,
                        self.tables@[t as int].columns@,
                        values_view(row@),
                        0,
                    ).is_none()
                    &&& keys@.len() == self.indexes@.len()
                    &&& forall|i: int|
                        0 <= i < self.indexes@.len() ==> if self.indexes@[i].table@
                            == self.tables@[t as int].name@ {
                            key_of(
                                names_view(self.indexes@[i].columns@),
                                self.tables@[t as int].columns@,
                                values_view(row@),
                            ) == Ok::<_, DbErrorView>(values_view((#[trigger] keys@[i]).unwrap()@))
                                && keys@[i].is_some()
                        } else {
                            keys@[i].is_none()
                        }
                },
                Err(e) => index_keys_failure(
                    self.indexes@,
                    self.tables@[t as int].name@,
                    self.tables@[t as int].columns@,
                    values_view(row@),
                    0,
                ) == Some(e@),
            },
    {
        let table = &self.tables[t];
        let mut keys: Vec<Option<Vec<Value>>> = Vec::new();
        let mut i: usize = 0;
        while i < self.indexes.len()
            invariant
                i <= self.indexes.len(),
                t < self.tables@.len(),
                *table == self.tables@[t as int],
                keys.len() == i,
                index_keys_failure(
                    self.indexes@,
                    table.name@,
                    table.columns@,
                    values_view(row@),
                    0,
                ) == index_keys_failure(
                    self.indexes@,
                    table.name@,
                    table.columns@,
                    values_view(row@),
                    i as int,
                ),
                forall|j: int|
                    0 <= j < i ==> if self.indexes@[j].table@ == table.name@ {
                        key_of(
                            names_view(self.indexes@[j].columns@),
                            table.columns@,
                            values_view(row@),
                        ) == Ok::<_, DbErrorView>(values_view((#[trigger] keys@[j]).unwrap()@))
                            && keys@[j].is_some()
                    } else {
                        keys@[j].is_none()
                    },
            decreases self.indexes.len() - i,
        {
            let idx = &self.indexes[i];
            if crate::text::str_eq(idx.table.as_str(), table.name.as_str()) {
                match build_key(&idx.columns, &table.columns, row, table.name.as_str()) {
                    Ok(key) => {
                        keys.push(Some(key));
                    },
                    Err(e) => {
                        return Err(e);
                    },
                }
            } else {
                keys.push(None);
            }
            i += 1;
        }
        Ok(keys)
    }

    /// Adds a position to the indexes, each under its key.
    pub fn add_to_indexes(&mut self, keys: Vec<Option<Vec<Value>>>, pos: (usize, usize))
        requires
            old(self).wf(),
            keys@.len() == old(self).indexes@.len(),
        ensures
            final(self).wf(),
            final(self).tables == old(self).tables,
            final(self).transaction_manager == old(self).transaction_manager,
            final(self).indexes@.len() == old(self).indexes@.len(),
            forall|i: int|
                0 <= i < old(self).indexes@.len() ==> match keys@[i] {
                    Some(key) => (#[trigger] old(self).indexes@[i]).added(
                        final(self).indexes@[i],
                        values_view(key@),
                        pos,
                    ),
                    None => final(self).indexes@[i] == old(self).indexes@[i],
                },
    {
        let mut keys = keys;
        let ghost all = keys@;
        let mut i: usize = self.indexes.len();
        while i > 0
            invariant
                i <= self.indexes@.len(),
                keys@.len() == i,
                keys@ == all.take(i as int),
                all.len() == old(self).indexes@.len(),
                self.indexes@.len() == old(self).indexes@.len(),
                self.tables == old(self).tables,
                self.transaction_manager == old(self).transaction_manager,
                self.wf(),
                forall|j: int| 0 <= j < i ==> self.indexes@[j] == old(self).indexes@[j],
                forall|j: int|
                    i <= j < old(self).indexes@.len() ==> match all[j] {
                        Some(key) => (#[trigger] old(self).indexes@[j]).added(
                            self.indexes@[j],
                            values_view(key@),
                            pos,
                        ),
                        None => self.indexes@[j] == old(self).indexes@[j],
                    },
            decreases i,
        {
            let key = keys.pop().unwrap();
            i -= 1;
            assert(keys@ =~= all.take(i as int));
            match key {
                Some(k) => {
                    assert(self.indexes@[i as int].wf());
                    self.indexes[i].insert(k, pos);
                },
                None => {},
            }
        }
    }

    /// Inserts a row into a table: prepares and checks it, stores it in the
    /// table's heap file, and adds its position to every index on the
    /// table. Nothing changes if it fails.
    pub fn insert_into(
        &mut self,
        table_name: &str,
        column_names: Option<Vec<String>>,
        values: Vec<Value>,
        xid: u32,
        snapshot: &Snapshot,
    ) -> (r: Result<(), DbError>)
        requires
            old(self).wf(),
        ensures
            final(self).wf(),
            match r {
                Ok(()) => {
                    let t = table_position(old(self).tables@, table_name@, 0).unwrap();
                    &&& old(self).insert_failure(
                        table_name@,
                        opt_names_view(column_names),
                        values_view(values@),
                        xid,
                        snapshot@,
                    ).is_none()
                    &&& exists|page_no: int, slot_no: int|
                        old(self).row_inserted(
                            *final(self),
                            t,
                            old(self).prepared_row(
                                t,
                                opt_names_view(column_names),
                                values_view(values@),
                                xid,
                                snapshot@,
                            )->Ok_0,
                            xid,
                            page_no,
                            slot_no,
                        )
                },
                Err(e) => {
                    &&& old(self).insert_failure(
                        table_name@,
                        opt_names_view(column_names),
                        values_view(values@),
                        xid,
                        snapshot@,
                    ) == Some(e@)
                    &&& final(self).same_as(*old(self))
                },
            },
    {
        let t = match self.find_table(table_name) {
            Some(t) => t,
            None => {
                return Err(DbError::TableDoesNotExist(table_name.to_owned()));
            },
        };
        let row = match self.prepare_row(t, &column_names, values, xid, snapshot) {
            Ok(r) => r,
            Err(e) => {
                return Err(e);
            },
        };
        let keys = match self.index_keys(t, &row) {
            Ok(k) => k,
            Err(e) => {
                return Err(e);
            },
        };
        assert(self.tables@[t as int].wf());
        let stored = Row { values: row };
        let (page_no, slot_no) = match self.tables[t].heap.insert_row(stored, xid) {
            Ok(p) => p,
            Err(e) => {
                assert(self.tables@ =~= old(self).tables@);
                return Err(DbError::Storage(e));
            },
        };
        let ghost mid = *self;
        self.add_to_indexes(keys, (page_no, slot_no));
        proof {
            assert(old(self).row_inserted(
                *self,
                t as int,
                stored@,
                xid,
                page_no as int,
                slot_no as int,
            ));
        }
        Ok(())
    }
}

} // verus!
