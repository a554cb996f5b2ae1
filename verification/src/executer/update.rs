use crate::consts::PAGE_SIZE;
use crate::errors::engine_error::{DbError, DbErrorView};
use crate::errors::eval_error::EvalErrorView;
use crate::errors::storage_error::StorageError;
use crate::executer::delete::takes;
use crate::executer::filter::eval_condition;
use crate::executer::help_functions::{failure_view, fks_failure, key_of, validate_foreign_keys};
use crate::executer::insert::{
    apply_defaults, index_keys_failure, not_null_violated, opt_key_view, with_defaults,
};
use crate::executer::join::{aliased_columns, column_refs, single_meta};
use crate::storage::codec::{column_types, encode_row, encode_tuple};
use crate::storage::heap_file::{scan_view, StoredTuple};
use crate::storage::tuple_header::visible;
use crate::types::page_types::TupleHeader;
use crate::text::{chars_of, find_char, find_char_in, is_word, string_of, subvec};
use crate::types::b_tree::BTreeIndex;
use crate::types::parser_types::{filter_view, foreign_keys_view, Condition, ConditionView};
use crate::types::storage_types::{
    column_position, find_column, names_view, table_position, value_fits, value_fits_type,
    values_view, Column, Database, Row, Table, Value, ValueView,
};
use crate::types::transaction_types::{Snapshot, SnapshotView, TransactionManager, TxStatus};
use vstd::prelude::*;

verus! {

/// The column that a possibly qualified name stands for in a table:
/// `col`, or `table.col` with the table's own name; none for a name that is
/// qualified by another table.
pub open spec fn normalized(name: Seq<char>, table_name: Seq<char>) -> Option<Seq<char>> {
    match find_char(name, '.') {
        None => Some(name),
        Some(i) => if name.subrange(0, i) == table_name {
            Some(name.subrange(i + 1, name.len() as int))
        } else {
            None
        },
    }
}

/// Reduces a possibly qualified column name to the name of the column.
pub fn normalize_col(name: &str, table_name: &str) -> (r: Option<String>)
    ensures
        match r {
            Some(c) => normalized(name@, table_name@) == Some(c@),
            None => normalized(name@, table_name@).is_none(),
        },
{
    let chars = chars_of(name);
    match find_char_in(&chars, '.') {
        None => {
            assert(chars@.subrange(0, chars.len() as int) =~= chars@);
            Some(string_of(&chars, 0, chars.len()))
        },
        Some(i) => {
            let qualifier = subvec(&chars, 0, i);
            if is_word(&qualifier, table_name) {
                Some(string_of(&chars, i + 1, chars.len()))
            } else {
                None
            }
        },
    }
}

/// The place of the column that a name of an assignment stands for.
pub open spec fn target_column(columns: Seq<Column>, table_name: Seq<char>, name: Seq<char>)
    -> Option<int> {
    match normalized(name, table_name) {
        None => None,
        Some(c) => column_position(columns, c, 0),
    }
}

/// What the first `n` assignments give each column: the value of the last
/// assignment to it, or nothing.
pub open spec fn targets_upto(
    columns: Seq<Column>,
    table_name: Seq<char>,
    names: Seq<Seq<char>>,
    values: Seq<ValueView>,
    n: int,
) -> Result<Seq<Option<ValueView>>, DbErrorView>
    decreases n,
{
    if n <= 0 {
        Ok(Seq::new(columns.len(), |i: int| None))
    } else {
        match targets_upto(columns, table_name, names, values, n - 1) {
            Err(e) => Err(e),
            Ok(prev) => match target_column(columns, table_name, names[n - 1]) {
                None => Err(DbErrorView::ColumnUnknown(names[n - 1])),
                Some(i) => Ok(prev.update(i, Some(values[n - 1]))),
            },
        }
    }
}

/// Whether every value that a column is given is NULL or of its type.
pub open spec fn targets_fit(columns: Seq<Column>, targets: Seq<Option<ValueView>>) -> bool {
    forall|i: int|
        0 <= i < targets.len() && i < columns.len() && (#[trigger] targets[i]).is_some()
            ==> value_fits(targets[i].unwrap(), columns[i].column_type)
}

/// The name of the first column at or after `i` that is given a value
/// which is neither NULL nor of the column's type.
pub open spec fn first_target_misfit(columns: Seq<Column>, targets: Seq<Option<ValueView>>, i: int)
    -> Option<Seq<char>>
    decreases targets.len() - i,
{
    if i < 0 || i >= targets.len() || i >= columns.len() {
        None
    } else if targets[i].is_some() && !value_fits(targets[i].unwrap(), columns[i].column_type) {
        Some(columns[i].name@)
    } else {
        first_target_misfit(columns, targets, i + 1)
    }
}

/// What the assignments of an UPDATE give each column, or why they cannot
/// be carried out: there are not as many values as names, a name is no
/// column's, or a value is not of its column's type.
pub open spec fn update_targets(
    columns: Seq<Column>,
    table_name: Seq<char>,
    names: Seq<Seq<char>>,
    values: Seq<ValueView>,
) -> Result<Seq<Option<ValueView>>, DbErrorView> {
    if names.len() != values.len() {
        Err(DbErrorView::ColumnCountMismatch)
    } else {
        match targets_upto(columns, table_name, names, values, names.len() as int) {
            Err(e) => Err(e),
            Ok(ts) => if targets_fit(columns, ts) {
                Ok(ts)
            } else {
                Err(DbErrorView::TypeMismatch(first_target_misfit(columns, ts, 0)->Some_0))
            },
        }
    }
}

/// Views of the values that the columns are given.
pub open spec fn targets_view(ts: Seq<Option<Value>>) -> Seq<Option<ValueView>> {
    Seq::new(ts.len(), |i: int| opt_value_view(ts[i]))
}

/// View of an optional value.
pub open spec fn opt_value_view(v: Option<Value>) -> Option<ValueView> {
    match v {
        Some(v) => Some(v@),
        None => None,
    }
}

/// A row with the values that its columns are given.
pub open spec fn assigned(row: Seq<ValueView>, targets: Seq<Option<ValueView>>) -> Seq<ValueView> {
    Seq::new(
        row.len(),
        |i: int|
            if i < targets.len() && targets[i].is_some() {
                targets[i].unwrap()
            } else {
                row[i]
            },
    )
}

/// Why a row breaks the primary key of its table by being NULL there, if it does.
pub open spec fn pk_null_failure(table: Table, row: Seq<ValueView>) -> Option<DbErrorView> {
    match table.primary_key {
        None => None,
        Some(pk) => match column_position(table.columns@, pk@, 0) {
            None => Some(DbErrorView::ColumnUnknown(pk@)),
            Some(i) => {
                if i >= row.len() {
                    Some(DbErrorView::ColumnCountMismatch)
                } else if row[i] is Null {
                    Some(DbErrorView::PkNull(pk@))
                } else {
                    None
                }
            },
        },
    }
}

/// Works out what the assignments of an UPDATE give each column.
pub fn resolve_targets(
    columns: &Vec<Column>,
    table_name: &str,
    names: &Vec<String>,
    values: &Vec<Value>,
) -> (r: Result<Vec<Option<Value>>, DbError>)
    ensures
        match r {
            Ok(ts) => update_targets(
                columns@,
                table_name@,
                names_view(names@),
                values_view(values@),
            ) == Ok::<_, DbErrorView>(targets_view(ts@)) && ts@.len() == columns@.len(),
            Err(e) => update_targets(columns@, table_name@, names_view(names@), values_view(values@))
                == Err::<Seq<Option<ValueView>>, _>(e@),
        },
{
    if names.len() != values.len() {
        return Err(DbError::ColumnCountMismatch);
    }
    let ghost ns = names_view(names@);
    let ghost vs = values_view(values@);
    let mut targets: Vec<Option<Value>> = Vec::new();
    let mut c: usize = 0;
    while c < columns.len()
        invariant
            c <= columns.len(),
            targets.len() == c,
            forall|j: int| 0 <= j < c ==> targets[j].is_none(),
        decreases columns.len() - c,
    {
        targets.push(None);
        c += 1;
    }
    assert(targets_view(targets@) =~= Seq::new(columns@.len(), |i: int| None));
    let mut k: usize = 0;
    while k < names.len()
        invariant
            k <= names.len(),
            names.len() == values.len(),
            ns == names_view(names@),
            vs == values_view(values@),
            targets.len() == columns.len(),
            targets_upto(columns@, table_name@, ns, vs, k as int) == Ok::<_, DbErrorView>(
                targets_view(targets@),
            ),
        decreases names.len() - k,
    {
        assert(ns[k as int] == names[k as int]@ && vs[k as int] == values[k as int]@);
        let col = match normalize_col(names[k].as_str(), table_name) {
            Some(c) => c,
            None => {
                proof {
                    lemma_targets_error(columns@, table_name@, ns, vs, k + 1, names.len() as int);
                }
                return Err(DbError::ColumnUnknown(names[k].clone()));
            },
        };
        let i = match find_column(columns, col.as_str()) {
            Some(i) => i,
            None => {
                proof {
                    lemma_targets_error(columns@, table_name@, ns, vs, k + 1, names.len() as int);
                }
                return Err(DbError::ColumnUnknown(names[k].clone()));
            },
        };
        let ghost before = targets_view(targets@);
        targets.set(i, Some(values[k].copy()));
        assert(targets_view(targets@) =~= before.update(i as int, Some(vs[k as int])));
        k += 1;
    }
    let ghost ts = targets_view(targets@);
    let mut i: usize = 0;
    while i < targets.len()
        invariant
            i <= targets.len(),
            targets.len() == columns.len(),
            ts == targets_view(targets@),
            ns.len() == vs.len(),
            ns == names_view(names@),
            vs == values_view(values@),
            targets_upto(columns@, table_name@, ns, vs, ns.len() as int) == Ok::<_, DbErrorView>(
                ts,
            ),
            first_target_misfit(columns@, ts, i as int) == first_target_misfit(columns@, ts, 0),
            forall|j: int|
                0 <= j < i && (#[trigger] ts[j]).is_some() ==> value_fits(
                    ts[j].unwrap(),
                    columns[j].column_type,
                ),
        decreases targets.len() - i,
    {
        assert(ts[i as int] == opt_value_view(targets[i as int]));
        match &targets[i] {
            Some(v) => {
                if !value_fits_type(v, columns[i].column_type) {
                    return Err(DbError::TypeMismatch(columns[i].name.clone()));
                }
            },
            None => {},
        }
        i += 1;
    }
    Ok(targets)
}

/// Once an assignment names no column, the assignments as a whole fail so.
proof fn lemma_targets_error(
    columns: Seq<Column>,
    table_name: Seq<char>,
    names: Seq<Seq<char>>,
    values: Seq<ValueView>,
    k: int,
    n: int,
)
    requires
        0 < k <= n,
        targets_upto(columns, table_name, names, values, k) is Err,
    ensures
        targets_upto(columns, table_name, names, values, n) == targets_upto(
            columns,
            table_name,
            names,
            values,
            k,
        ),
    decreases n - k,
{
    if k < n {
        lemma_targets_error(columns, table_name, names, values, k, n - 1);
    }
}

fn assign(row: &Vec<Value>, targets: &Vec<Option<Value>>) -> (r: Vec<Value>)
    ensures
        values_view(r@) == assigned(values_view(row@), targets_view(targets@)),
{
    let ghost ts = targets_view(targets@);
    let mut r: Vec<Value> = Vec::new();
    let mut i: usize = 0;
    while i < row.len()
        invariant
            i <= row.len(),
            r.len() == i,
            ts == targets_view(targets@),
            forall|j: int|
                0 <= j < i ==> r[j]@ == assigned(values_view(row@), ts)[j],
        decreases row.len() - i,
    {
        assert(values_view(row@)[i as int] == row[i as int]@);
        if i < targets.len() {
            assert(ts[i as int] == opt_value_view(targets[i as int]));
            match &targets[i] {
                Some(v) => {
                    r.push(v.copy());
                },
                None => {
                    r.push(row[i].copy());
                },
            }
        } else {
            r.push(row[i].copy());
        }
        i += 1;
    }
    assert(values_view(r@) =~= assigned(values_view(row@), ts));
    r
}

/// Whether a tuple other than the one at the position is visible to the
/// transaction and has the value at the column.
pub open spec fn key_taken_elsewhere(
    tuples: Seq<StoredTuple>,
    page_no: int,
    slot_no: int,
    column: int,
    value: ValueView,
    xid: u32,
    snapshot: SnapshotView,
    statuses: Map<u32, TxStatus>,
) -> bool {
    exists|j: int|
        0 <= j < tuples.len() && !((#[trigger] tuples[j]).page_no == page_no && tuples[j].slot_no
            == slot_no) && visible(tuples[j].header, xid, snapshot, statuses) && 0 <= column
            < tuples[j].row.len() && tuples[j].row[column] == value
}

/// Whether the new version of the row at a position has the primary key of
/// another tuple of the table that is visible to the transaction. The
/// version that it replaces does not count.
pub open spec fn pk_conflict(
    table: Table,
    page_no: int,
    slot_no: int,
    post: Seq<ValueView>,
    xid: u32,
    snapshot: SnapshotView,
    statuses: Map<u32, TxStatus>,
) -> bool {
    match table.primary_key {
        None => false,
        Some(pk) => match column_position(table.columns@, pk@, 0) {
            None => false,
            Some(k) => k < post.len() && key_taken_elsewhere(
                table.heap.tuples(column_types(table.columns@)),
                page_no,
                slot_no,
                k,
                post[k],
                xid,
                snapshot,
                statuses,
            ),
        },
    }
}

fn is_key_taken_elsewhere(
    rows: &Vec<(u32, usize, TupleHeader, Row)>,
    pos: (u32, usize),
    column: usize,
    value: &Value,
    xid: u32,
    snapshot: &Snapshot,
    tm: &TransactionManager,
) -> (b: bool)
    ensures
        b == key_taken_elsewhere(
            scan_view(rows@),
            pos.0 as int,
            pos.1 as int,
            column as int,
            value@,
            xid,
            snapshot@,
            tm@.transactions,
        ),
{
    let ghost ts = scan_view(rows@);
    let mut i: usize = 0;
    while i < rows.len()
        invariant
            i <= rows.len(),
            ts == scan_view(rows@),
            forall|j: int|
                0 <= j < i ==> !(!((#[trigger] ts[j]).page_no == pos.0 && ts[j].slot_no == pos.1)
                    && visible(ts[j].header, xid, snapshot@, tm@.transactions) && 0 <= column
                    < ts[j].row.len() && ts[j].row[column as int] == value@),
        decreases rows.len() - i,
    {
        assert(ts[i as int].header == rows[i as int].2@ && ts[i as int].row == rows[i as int].3@
            && ts[i as int].page_no == rows[i as int].0 && ts[i as int].slot_no
            == rows[i as int].1);
        if !(rows[i].0 == pos.0 && rows[i].1 == pos.1) && rows[i].2.is_visible(xid, snapshot, tm)
            && column < rows[i].3.values.len() {
            assert(rows[i as int].3@[column as int] == rows[i as int].3.values[column as int]@);
            if rows[i].3.values[column].same(value) {
                return true;
            }
        }
        i += 1;
    }
    false
}

fn find_pk_conflict(
    table: &Table,
    pos: (u32, usize),
    post: &Vec<Value>,
    xid: u32,
    snapshot: &Snapshot,
    tm: &TransactionManager,
) -> (r: Option<String>)
    requires
        table.wf(),
    ensures
        r.is_some() == pk_conflict(
            *table,
            pos.0 as int,
            pos.1 as int,
            values_view(post@),
            xid,
            snapshot@,
            tm@.transactions,
        ),
        r matches Some(name) ==> table.primary_key matches Some(pk) && name@ == pk@,
{
    let pk = match &table.primary_key {
        None => {
            return None;
        },
        Some(pk) => pk,
    };
    let k = match find_column(&table.columns, pk.as_str()) {
        None => {
            return None;
        },
        Some(k) => k,
    };
    if k >= post.len() {
        return None;
    }
    assert(values_view(post@)[k as int] == post[k as int]@);
    let rows = table.heap.scan_all(&table.columns);
    if is_key_taken_elsewhere(&rows, pos, k, &post[k], xid, snapshot, tm) {
        Some(pk.clone())
    } else {
        None
    }
}

fn check_pk_not_null(table: &Table, row: &Vec<Value>) -> (r: Result<(), DbError>)
    ensures
        failure_view(r) == pk_null_failure(*table, values_view(row@)),
{
    let pk = match &table.primary_key {
        None => {
            return Ok(());
        },
        Some(pk) => pk,
    };
    let i = match find_column(&table.columns, pk.as_str()) {
        None => {
            return Err(DbError::ColumnUnknown(pk.clone()));
        },
        Some(i) => i,
    };
    if i >= row.len() {
        return Err(DbError::ColumnCountMismatch);
    }
    assert(values_view(row@)[i as int] == row[i as int]@);
    if row[i].is_null() {
        Err(DbError::PkNull(pk.clone()))
    } else {
        Ok(())
    }
}

impl Database {
    /// The new version of a row of the table at `t`: the row with the values
    /// that its columns are given, and with defaults in place of NULL.
    pub open spec fn post_image(&self, t: int, row: Seq<ValueView>, targets: Seq<Option<ValueView>>)
        -> Seq<ValueView> {
        with_defaults(self.tables@[t].columns@, assigned(row, targets))
    }

    /// Why a row of the table at `t` cannot be replaced by its new version,
    /// if it cannot: the new version leaves a column NULL that must not be,
    /// is NULL in the primary key, has the primary key of another tuple that
    /// is visible to the transaction, breaks a foreign key, has no key under
    /// an index, or finds no room.
    pub open spec fn row_update_failure(
        &self,
        t: int,
        page_no: int,
        slot_no: int,
        row: Seq<ValueView>,
        targets: Seq<Option<ValueView>>,
        xid: u32,
        snapshot: SnapshotView,
    ) -> Option<DbErrorView> {
        let table = self.tables@[t];
        let post = self.post_image(t, row, targets);
        if not_null_violated(table.columns@, assigned(row, targets)) {
            Some(
                DbErrorView::NotNullViolation(
                    crate::executer::insert::first_null_violation(
                        table.columns@,
                        assigned(row, targets),
                        0,
                    )->Some_0,
                ),
            )
        } else if pk_null_failure(table, post).is_some() {
            pk_null_failure(table, post)
        } else if pk_conflict(
            table,
            page_no,
            slot_no,
            post,
            xid,
            snapshot,
            self.transaction_manager@.transactions,
        ) {
            Some(DbErrorView::PkConflict(table.primary_key->Some_0@))
        } else if fks_failure(
            self.tables@,
            table.columns@,
            foreign_keys_view(table.foreign_keys@),
            post,
            0,
        ).is_some() {
            fks_failure(self.tables@, table.columns@, foreign_keys_view(table.foreign_keys@), post, 0)
        } else if index_keys_failure(self.indexes@, table.name@, table.columns@, row, 0).is_some() {
            index_keys_failure(self.indexes@, table.name@, table.columns@, row, 0)
        } else if index_keys_failure(self.indexes@, table.name@, table.columns@, post, 0).is_some() {
            index_keys_failure(self.indexes@, table.name@, table.columns@, post, 0)
        } else if post.len() > 8 * PAGE_SIZE {
            Some(DbErrorView::Storage(StorageError::NoSpace))
        } else {
            match table.heap.update_error(page_no, slot_no, encode_tuple(post, xid).len() as int) {
                Some(e) => Some(DbErrorView::Storage(e)),
                None => None,
            }
        }
    }

    /// Whether `after` is this database with a row of the table at `t`
    /// replaced by its new version `post`: in the heap file the old version
    /// has `xid` as its deleter and the new one is stored at a position of
    /// its own; in every index on the table the new position stands under
    /// the new key and the old position is gone from the old key.
    /// Everything else is as it was.
    pub open spec fn row_updated(
        &self,
        after: Database,
        t: int,
        page_no: int,
        slot_no: int,
        row: Seq<ValueView>,
        post: Seq<ValueView>,
        xid: u32,
    ) -> bool {
        let table = self.tables@[t];
        exists|np: int, ns: int|
            {
                &&& after.transaction_manager == self.transaction_manager
                &&& after.tables@.len() == self.tables@.len()
                &&& forall|i: int|
                    0 <= i < self.tables@.len() && i != t ==> after.tables@[i] == self.tables@[i]
                &&& after.tables@[t].name == table.name
                &&& after.tables@[t].columns == table.columns
                &&& after.tables@[t].primary_key == table.primary_key
                &&& after.tables@[t].foreign_keys == table.foreign_keys
                &&& #[trigger] table.heap.updated(
                    after.tables@[t].heap,
                    page_no,
                    slot_no,
                    xid,
                    encode_tuple(post, xid),
                    np,
                    ns,
                )
                &&& after.indexes@.len() == self.indexes@.len()
                &&& forall|i: int|
                    0 <= i < self.indexes@.len() ==> if self.indexes@[i].table@ == table.name@ {
                        exists|mid: BTreeIndex|
                            (#[trigger] self.indexes@[i]).added(
                                mid,
                                key_of(names_view(self.indexes@[i].columns@), table.columns@, post)->Ok_0,
                                (np as usize, ns as usize),
                            ) && mid.wf() && #[trigger] mid.removed(
                                after.indexes@[i],
                                key_of(
                                    names_view(self.indexes@[i].columns@),
                                    table.columns@,
                                    row,
                                )->Ok_0,
                                (page_no as usize, slot_no as usize),
                            )
                    } else {
                        after.indexes@[i] == self.indexes@[i]
                    }
            }
    }

    /// Whether `cur` is what this database becomes when the UPDATE by `xid`
    /// goes through the first `n` tuples of the scan of the table at `t`:
    /// each tuple that the statement takes is replaced by its new version,
    /// one after the other.
    pub open spec fn updates_upto(
        &self,
        cur: Database,
        t: int,
        tuples: Seq<StoredTuple>,
        targets: Seq<Option<ValueView>>,
        filter: Option<ConditionView>,
        xid: u32,
        snapshot: SnapshotView,
        n: int,
    ) -> bool
        decreases n,
    {
        let table = self.tables@[t];
        if n <= 0 {
            cur.same_as(*self)
        } else if takes(
            tuples[n - 1],
            aliased_columns(table.name@, table.columns@),
            filter,
            xid,
            snapshot,
            self.transaction_manager@.transactions,
        ) == Ok::<bool, EvalErrorView>(true) {
            exists|mid: Database|
                {
                    &&& self.updates_upto(mid, t, tuples, targets, filter, xid, snapshot, n - 1)
                    &&& mid.wf()
                    &&& mid.row_update_failure(
                        t,
                        tuples[n - 1].page_no,
                        tuples[n - 1].slot_no,
                        tuples[n - 1].row,
                        targets,
                        xid,
                        snapshot,
                    ).is_none()
                    &&& #[trigger] mid.row_updated(
                        cur,
                        t,
                        tuples[n - 1].page_no,
                        tuples[n - 1].slot_no,
                        tuples[n - 1].row,
                        mid.post_image(t, tuples[n - 1].row, targets),
                        xid,
                    )
                }
        } else {
            self.updates_upto(cur, t, tuples, targets, filter, xid, snapshot, n - 1)
        }
    }

    /// Where an UPDATE ended and how: `after` is what the database becomes
    /// when the statement goes through the first `stop` tuples of the scan;
    /// it went through all of them, or it failed on the next one.
    pub open spec fn update_outcome(
        &self,
        after: Database,
        t: int,
        targets: Seq<Option<ValueView>>,
        filter: Option<ConditionView>,
        xid: u32,
        snapshot: SnapshotView,
        failure: Option<DbErrorView>,
        stop: int,
    ) -> bool {
        let table = self.tables@[t];
        let tuples = table.heap.tuples(column_types(table.columns@));
        let cols = aliased_columns(table.name@, table.columns@);
        let statuses = self.transaction_manager@.transactions;
        &&& 0 <= stop <= tuples.len()
        &&& self.updates_upto(after, t, tuples, targets, filter, xid, snapshot, stop)
        &&& forall|i: int|
            0 <= i < stop ==> (#[trigger] takes(tuples[i], cols, filter, xid, snapshot, statuses)).is_ok()
        &&& match failure {
            None => stop == tuples.len(),
            Some(e) => stop < tuples.len() && match takes(
                tuples[stop],
                cols,
                filter,
                xid,
                snapshot,
                statuses,
            ) {
                Err(ev) => e == DbErrorView::Eval(ev),
                Ok(true) => after.row_update_failure(
                    t,
                    tuples[stop].page_no,
                    tuples[stop].slot_no,
                    tuples[stop].row,
                    targets,
                    xid,
                    snapshot,
                ) == Some(e),
                Ok(false) => false,
            },
        }
    }

    /// Replaces one row of the table at `t` by its new version.
    pub fn update_one(
        &mut self,
        t: usize,
        old_pos: (u32, usize),
        old_row: &Vec<Value>,
        targets: &Vec<Option<Value>>,
        xid: u32,
        snapshot: &Snapshot,
    ) -> (r: Result<(), DbError>)
        requires
            old(self).wf(),
            t < old(self).tables@.len(),
        ensures
            final(self).wf(),
            match r {
                Ok(()) => {
                    &&& old(self).row_update_failure(
                        t as int,
                        old_pos.0 as int,
                        old_pos.1 as int,
                        values_view(old_row@),
                        targets_view(targets@),
                        xid,
                        snapshot@,
                    ).is_none()
                    &&& old(self).row_updated(
                        *final(self),
                        t as int,
                        old_pos.0 as int,
                        old_pos.1 as int,
                        values_view(old_row@),
                        old(self).post_image(t as int, values_view(old_row@), targets_view(targets@)),
                        xid,
                    )
                },
                Err(e) => {
                    &&& old(self).row_update_failure(
                        t as int,
                        old_pos.0 as int,
                        old_pos.1 as int,
                        values_view(old_row@),
                        targets_view(targets@),
                        xid,
                        snapshot@,
                    ) == Some(e@)
                    &&& final(self).same_as(*old(self))
                },
            },
    {
        assert(self.tables@[t as int].wf());
        let raw = assign(old_row, targets);
        let post = match apply_defaults(&self.tables[t].columns, raw) {
            Ok(p) => p,
            Err(e) => {
                return Err(e);
            },
        };
        match check_pk_not_null(&self.tables[t], &post) {
            Err(e) => {
                return Err(e);
            },
            Ok(()) => {},
        }
        match find_pk_conflict(
            &self.tables[t],
            old_pos,
            &post,
            xid,
            snapshot,
            &self.transaction_manager,
        ) {
            Some(pk) => {
                return Err(DbError::PkConflict(pk));
            },
            None => {},
        }
        match validate_foreign_keys(self, &self.tables[t], &post) {
            Err(e) => {
                return Err(e);
            },
            Ok(()) => {},
        }
        let old_keys = match self.index_keys(t, old_row) {
            Ok(k) => k,
            Err(e) => {
                return Err(e);
            },
        };
        let new_keys = match self.index_keys(t, &post) {
            Ok(k) => k,
            Err(e) => {
                return Err(e);
            },
        };
        if post.len() > 8 * PAGE_SIZE {
            return Err(DbError::Storage(StorageError::NoSpace));
        }
        let stored = Row { values: post };
        let encoded = encode_row(&stored, xid);
        match self.tables[t].heap.check_update(old_pos.0, old_pos.1, encoded.len()) {
            Some(e) => {
                return Err(DbError::Storage(e));
            },
            None => {},
        }
        let ghost new_views = Seq::new(new_keys@.len(), |i: int| opt_key_view(new_keys@[i]));
        let ghost old_views = Seq::new(old_keys@.len(), |i: int| opt_key_view(old_keys@[i]));
        let (np, ns) = match self.tables[t].heap.update_row(old_pos.0, old_pos.1, stored, xid) {
            Ok(p) => p,
            Err(e) => {
                return Err(DbError::Storage(e));
            },
        };
        let ghost first = *self;
        self.add_to_indexes(new_keys, (np as usize, ns));
        let ghost second = *self;
        self.remove_from_indexes(old_keys, (old_pos.0 as usize, old_pos.1));
        proof {
            let table = old(self).tables@[t as int];
            let after = *self;
            let post_view = old(self).post_image(
                t as int,
                values_view(old_row@),
                targets_view(targets@),
            );
            assert(table.heap.updated(
                after.tables@[t as int].heap,
                old_pos.0 as int,
                old_pos.1 as int,
                xid,
                encode_tuple(post_view, xid),
                np as int,
                ns as int,
            ));
            assert forall|i: int|
                0 <= i < old(self).indexes@.len() implies if old(self).indexes@[i].table@
                == table.name@ {
                exists|mid: BTreeIndex|
                    (#[trigger] old(self).indexes@[i]).added(
                        mid,
                        key_of(names_view(old(self).indexes@[i].columns@), table.columns@, post_view)->Ok_0,
                        (np as int as usize, ns as int as usize),
                    ) && mid.wf() && #[trigger] mid.removed(
                        after.indexes@[i],
                        key_of(
                            names_view(old(self).indexes@[i].columns@),
                            table.columns@,
                            values_view(old_row@),
                        )->Ok_0,
                        (old_pos.0 as int as usize, old_pos.1 as int as usize),
                    )
            } else {
                after.indexes@[i] == old(self).indexes@[i]
            } by {
                assert(first.indexes@[i] == old(self).indexes@[i]);
                if old(self).indexes@[i].table@ == table.name@ {
                    assert(new_views[i].is_some() && old_views[i].is_some());
                    let mid = second.indexes@[i];
                    let new_key = key_of(
                        names_view(old(self).indexes@[i].columns@),
                        table.columns@,
                        post_view,
                    )->Ok_0;
                    let old_key = key_of(
                        names_view(old(self).indexes@[i].columns@),
                        table.columns@,
                        values_view(old_row@),
                    )->Ok_0;
                    assert(new_views[i].unwrap() == new_key);
                    assert(old_views[i].unwrap() == old_key);
                    assert(old(self).indexes@[i].added(mid, new_key, (np as usize, ns)));
                    assert(mid.wf());
                    assert(mid.removed(after.indexes@[i], old_key, (old_pos.0 as usize, old_pos.1)));
                } else {
                    assert(new_views[i].is_none() && old_views[i].is_none());
                }
            }
            assert(old(self).row_updated(
                *self,
                t as int,
                old_pos.0 as int,
                old_pos.1 as int,
                values_view(old_row@),
                post_view,
                xid,
            ));
        }
        Ok(())
    }
}

impl Database {
    /// What an UPDATE has made of a database holds as well of any database
    /// with the same content.
    pub proof fn lemma_updates_same(
        &self,
        cur: Database,
        other: Database,
        t: int,
        tuples: Seq<StoredTuple>,
        targets: Seq<Option<ValueView>>,
        filter: Option<ConditionView>,
        xid: u32,
        snapshot: SnapshotView,
        n: int,
    )
        requires
            other.same_as(cur),
            self.updates_upto(cur, t, tuples, targets, filter, xid, snapshot, n),
        ensures
            self.updates_upto(other, t, tuples, targets, filter, xid, snapshot, n),
        decreases n,
    {
        let table = self.tables@[t];
        if n <= 0 {
        } else if takes(
            tuples[n - 1],
            aliased_columns(table.name@, table.columns@),
            filter,
            xid,
            snapshot,
            self.transaction_manager@.transactions,
        ) == Ok::<bool, EvalErrorView>(true) {
            let mid = choose|mid: Database|
                {
                    &&& self.updates_upto(mid, t, tuples, targets, filter, xid, snapshot, n - 1)
                    &&& mid.wf()
                    &&& mid.row_update_failure(
                        t,
                        tuples[n - 1].page_no,
                        tuples[n - 1].slot_no,
                        tuples[n - 1].row,
                        targets,
                        xid,
                        snapshot,
                    ).is_none()
                    &&& #[trigger] mid.row_updated(
                        cur,
                        t,
                        tuples[n - 1].page_no,
                        tuples[n - 1].slot_no,
                        tuples[n - 1].row,
                        mid.post_image(t, tuples[n - 1].row, targets),
                        xid,
                    )
                };
            assert(mid.row_updated(
                other,
                t,
                tuples[n - 1].page_no,
                tuples[n - 1].slot_no,
                tuples[n - 1].row,
                mid.post_image(t, tuples[n - 1].row, targets),
                xid,
            ));
        } else {
            self.lemma_updates_same(cur, other, t, tuples, targets, filter, xid, snapshot, n - 1);
        }
    }

    /// Updates the rows of a table that are visible to the transaction and
    /// satisfy the predicate; all visible rows if there is no predicate. Of
    /// several assignments to one column the last one counts. Each row is
    /// replaced by its new version, which is checked as a row to insert is;
    /// for the uniqueness of its primary key the version that it replaces
    /// does not count. A failure stops the statement; the rows before are
    /// updated.
    pub fn update(
        &mut self,
        table_name: &str,
        parsed_columns: Vec<String>,
        parsed_values: Vec<Value>,
        filter: Option<Condition>,
        xid: u32,
        snapshot: &Snapshot,
    ) -> (r: Result<(), DbError>)
        requires
            old(self).wf(),
        ensures
            final(self).wf(),
            final(self).transaction_manager == old(self).transaction_manager,
            match table_position(old(self).tables@, table_name@, 0) {
                None => r matches Err(e) && e@ == DbErrorView::TableDoesNotExist(table_name@)
                    && final(self).same_as(*old(self)),
                Some(t) => match update_targets(
                    old(self).tables@[t].columns@,
                    table_name@,
                    names_view(parsed_columns@),
                    values_view(parsed_values@),
                ) {
                    Err(e) => r matches Err(x) && x@ == e && final(self).same_as(*old(self)),
                    Ok(targets) => exists|stop: int|
                        #[trigger] old(self).update_outcome(
                            *final(self),
                            t,
                            targets,
                            filter_view(filter),
                            xid,
                            snapshot@,
                            failure_view(r),
                            stop,
                        ),
                },
            },
    {
        let t = match self.find_table(table_name) {
            Some(t) => t,
            None => {
                return Err(DbError::TableDoesNotExist(table_name.to_owned()));
            },
        };
        let targets = match resolve_targets(
            &self.tables[t].columns,
            table_name,
            &parsed_columns,
            &parsed_values,
        ) {
            Ok(ts) => ts,
            Err(e) => {
                return Err(e);
            },
        };
        assert(self.tables@[t as int].wf());
        let metas = single_meta(self.tables[t].name.as_str(), &self.tables[t].columns);
        let rows = self.tables[t].heap.scan_all(&self.tables[t].columns);
        let ghost table = old(self).tables@[t as int];
        let ghost schema = column_types(table.columns@);
        let ghost tuples = table.heap.tuples(schema);
        let ghost cols = aliased_columns(table.name@, table.columns@);
        let ghost statuses = old(self).transaction_manager@.transactions;
        let ghost f = filter_view(filter);
        let ghost tv = targets_view(targets@);
        let mut k: usize = 0;
        while k < rows.len()
            invariant
                k <= rows.len(),
                t < old(self).tables@.len(),
                table == old(self).tables@[t as int],
                table_position(old(self).tables@, table_name@, 0) == Some(t as int),
                update_targets(
                    table.columns@,
                    table_name@,
                    names_view(parsed_columns@),
                    values_view(parsed_values@),
                ) == Ok::<_, DbErrorView>(tv),
                tv == targets_view(targets@),
                self.wf(),
                self.tables@.len() == old(self).tables@.len(),
                self.transaction_manager == old(self).transaction_manager,
                schema == column_types(table.columns@),
                tuples == table.heap.tuples(schema),
                cols == aliased_columns(table.name@, table.columns@),
                column_refs(metas@) == cols,
                statuses == old(self).transaction_manager@.transactions,
                f == filter_view(filter),
                scan_view(rows@) == tuples,
                old(self).updates_upto(*self, t as int, tuples, tv, f, xid, snapshot@, k as int),
                forall|i: int|
                    0 <= i < k ==> (#[trigger] takes(
                        tuples[i],
                        cols,
                        f,
                        xid,
                        snapshot@,
                        statuses,
                    )).is_ok(),
            decreases rows.len() - k,
        {
            let ghost cur = *self;
            let ghost tk = tuples[k as int];
            assert(tk.header == rows[k as int].2@ && tk.row == rows[k as int].3@ && tk.page_no
                == rows[k as int].0 && tk.slot_no == rows[k as int].1);
            let mut take = rows[k].2.is_visible(xid, snapshot, &self.transaction_manager);
            if take {
                match &filter {
                    None => {},
                    Some(c) => match eval_condition(c, &rows[k].3, &metas, None, None) {
                        Ok(b) => {
                            take = b;
                        },
                        Err(e) => {
                            assert(old(self).update_outcome(
                                *self,
                                t as int,
                                tv,
                                f,
                                xid,
                                snapshot@,
                                Some(DbErrorView::Eval(e@)),
                                k as int,
                            ));
                            return Err(DbError::Eval(e));
                        },
                    },
                }
            }
            assert(takes(tk, cols, f, xid, snapshot@, statuses) == Ok::<bool, EvalErrorView>(take));
            if take {
                match self.update_one(
                    t,
                    (rows[k].0, rows[k].1),
                    &rows[k].3.values,
                    &targets,
                    xid,
                    snapshot,
                ) {
                    Err(e) => {
                        proof {
                            old(self).lemma_updates_same(
                                cur,
                                *self,
                                t as int,
                                tuples,
                                tv,
                                f,
                                xid,
                                snapshot@,
                                k as int,
                            );
                            assert(self.row_update_failure(
                                t as int,
                                tk.page_no,
                                tk.slot_no,
                                tk.row,
                                tv,
                                xid,
                                snapshot@,
                            ) == cur.row_update_failure(
                                t as int,
                                tk.page_no,
                                tk.slot_no,
                                tk.row,
                                tv,
                                xid,
                                snapshot@,
                            ));
                            assert(old(self).update_outcome(
                                *self,
                                t as int,
                                tv,
                                f,
                                xid,
                                snapshot@,
                                Some(e@),
                                k as int,
                            ));
                        }
                        return Err(e);
                    },
                    Ok(()) => {
                        assert(old(self).updates_upto(
                            *self,
                            t as int,
                            tuples,
                            tv,
                            f,
                            xid,
                            snapshot@,
                            k + 1,
                        ));
                    },
                }
            }
            k += 1;
        }
        assert(old(self).update_outcome(
            *self,
            t as int,
            tv,
            f,
            xid,
            snapshot@,
            None,
            rows.len() as int,
        ));
        Ok(())
    }
}

} // verus!
