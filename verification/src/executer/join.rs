use crate::errors::engine_error::{DbError, DbErrorView};
use crate::errors::eval_error::EvalErrorView;
use crate::executer::filter::{bool_result_view, condition_value, eval_condition, RowEnv};
use crate::storage::codec::column_types;
use crate::storage::heap_file::{scan_view, StoredTuple};
use crate::storage::tuple_header::visible;
use crate::types::page_types::TupleHeader;
use crate::types::parser_types::{
    Aliases, Condition, ConditionView, FromItem, FromItemView, JoinKind,
};
use crate::types::storage_types::{
    copy_values, table_position, values_view, Column, Database, Row, Table, Value, ValueView,
};
use crate::types::transaction_types::{Snapshot, SnapshotView, TransactionManager, TxStatus};
use vstd::prelude::*;

verus! {

/// A column of a materialized row list: the alias of its table and its name.
#[derive(Clone, Debug)]
pub struct JoinTableColumn {
    pub table_alias: String,
    pub column_name: String,
}

/// The mathematical content of a [`JoinTableColumn`].
pub struct ColumnRef {
    pub table_alias: Seq<char>,
    pub column_name: Seq<char>,
}

impl View for JoinTableColumn {
    type V = ColumnRef;

    open spec fn view(&self) -> ColumnRef {
        ColumnRef { table_alias: self.table_alias@, column_name: self.column_name@ }
    }
}

/// Views of a list of columns, position by position.
pub open spec fn column_refs(cs: Seq<JoinTableColumn>) -> Seq<ColumnRef> {
    Seq::new(cs.len(), |i: int| cs[i]@)
}

/// Views of a list of rows, position by position.
pub open spec fn rows_view(rs: Seq<Row>) -> Seq<Seq<ValueView>> {
    Seq::new(rs.len(), |i: int| rs[i]@)
}

/// A materialized row list: the columns and the rows.
#[derive(Debug)]
pub struct JoinTable {
    pub columns: Vec<JoinTableColumn>,
    pub rows: Vec<Row>,
}

/// The mathematical content of a [`JoinTable`].
pub struct JoinTableView {
    pub columns: Seq<ColumnRef>,
    pub rows: Seq<Seq<ValueView>>,
}

impl View for JoinTable {
    type V = JoinTableView;

    open spec fn view(&self) -> JoinTableView {
        JoinTableView { columns: column_refs(self.columns@), rows: rows_view(self.rows@) }
    }
}

/// The columns of a table under an alias.
pub open spec fn aliased_columns(alias: Seq<char>, columns: Seq<Column>) -> Seq<ColumnRef> {
    Seq::new(columns.len(), |i: int| ColumnRef { table_alias: alias, column_name: columns[i].name@ })
}

/// Builds the columns of a table under an alias.
pub fn single_meta(table_name: &str, cols: &Vec<Column>) -> (r: Vec<JoinTableColumn>)
    ensures
        column_refs(r@) == aliased_columns(table_name@, cols@),
{
    let mut r: Vec<JoinTableColumn> = Vec::new();
    let mut i: usize = 0;
    while i < cols.len()
        invariant
            i <= cols.len(),
            r.len() == i,
            forall|j: int|
                0 <= j < i ==> r[j]@ == (ColumnRef {
                    table_alias: table_name@,
                    column_name: cols[j].name@,
                }),
        decreases cols.len() - i,
    {
        r.push(
            JoinTableColumn { table_alias: table_name.to_owned(), column_name: cols[i].name.clone() },
        );
        i += 1;
    }
    assert(column_refs(r@) =~= aliased_columns(table_name@, cols@));
    r
}

/// The rows of those of the first `n` tuples that are visible to the
/// transaction, in order.
pub open spec fn visible_rows_upto(
    tuples: Seq<StoredTuple>,
    xid: u32,
    snapshot: SnapshotView,
    statuses: Map<u32, TxStatus>,
    n: int,
) -> Seq<Seq<ValueView>>
    decreases n,
{
    if n <= 0 {
        Seq::empty()
    } else if visible(tuples[n - 1].header, xid, snapshot, statuses) {
        visible_rows_upto(tuples, xid, snapshot, statuses, n - 1).push(tuples[n - 1].row)
    } else {
        visible_rows_upto(tuples, xid, snapshot, statuses, n - 1)
    }
}

/// The rows of the tuples that are visible to the transaction, in order.
pub open spec fn visible_rows(
    tuples: Seq<StoredTuple>,
    xid: u32,
    snapshot: SnapshotView,
    statuses: Map<u32, TxStatus>,
) -> Seq<Seq<ValueView>> {
    visible_rows_upto(tuples, xid, snapshot, statuses, tuples.len() as int)
}

/// Picks the rows of the scanned tuples that are visible to the transaction.
pub fn keep_visible(
    scanned: Vec<(u32, usize, TupleHeader, Row)>,
    xid: u32,
    snapshot: &Snapshot,
    tm: &TransactionManager,
) -> (rows: Vec<Row>)
    ensures
        rows_view(rows@) == visible_rows(scan_view(scanned@), xid, snapshot@, tm@.transactions),
{
    let ghost ts = scan_view(scanned@);
    let mut rows: Vec<Row> = Vec::new();
    assert(rows_view(rows@) =~= Seq::empty());
    let mut i: usize = 0;
    while i < scanned.len()
        invariant
            i <= scanned.len(),
            ts == scan_view(scanned@),
            rows_view(rows@) == visible_rows_upto(ts, xid, snapshot@, tm@.transactions, i as int),
        decreases scanned.len() - i,
    {
        assert(ts[i as int].header == scanned[i as int].2@ && ts[i as int].row
            == scanned[i as int].3@);
        if scanned[i].2.is_visible(xid, snapshot, tm) {
            let ghost before = rows_view(rows@);
            let row = Row { values: copy_values(&scanned[i].3.values) };
            rows.push(row);
            assert(rows_view(rows@) =~= before.push(ts[i as int].row));
        }
        i += 1;
    }
    rows
}

/// The alias of a table: the alias of the first pair at or after `i` that
/// names the table, or the table's own name.
pub open spec fn alias_of(pairs: Seq<(Seq<char>, Seq<char>)>, table: Seq<char>, i: int) -> Seq<
    char,
>
    decreases pairs.len() - i,
{
    if i < 0 || i >= pairs.len() {
        table
    } else if pairs[i].1 == table {
        pairs[i].0
    } else {
        alias_of(pairs, table, i + 1)
    }
}

fn find_alias(aliases: &Aliases, table_name: &str) -> (r: String)
    ensures
        r@ == alias_of(aliases@, table_name@, 0),
{
    let mut i: usize = 0;
    while i < aliases.entries.len()
        invariant
            i <= aliases.entries.len(),
            alias_of(aliases@, table_name@, i as int) == alias_of(aliases@, table_name@, 0),
        decreases aliases.entries.len() - i,
    {
        if crate::text::str_eq(aliases.entries[i].1.as_str(), table_name) {
            return aliases.entries[i].0.clone();
        }
        i += 1;
    }
    table_name.to_owned()
}

/// The row of a left row and a right row side by side.
pub open spec fn side_by_side(l: Seq<ValueView>, r: Seq<ValueView>) -> Seq<ValueView> {
    l + r
}

/// The joined rows that a left row makes with the right rows from the
/// `k`-th on, appended to `acc`; or the first error of the condition.
pub open spec fn matches_from(
    lrow: Seq<ValueView>,
    rrows: Seq<Seq<ValueView>>,
    lcols: Seq<ColumnRef>,
    rcols: Seq<ColumnRef>,
    on: ConditionView,
    k: int,
    acc: Seq<Seq<ValueView>>,
) -> Result<Seq<Seq<ValueView>>, EvalErrorView>
    decreases rrows.len() - k,
{
    if k < 0 || k >= rrows.len() {
        Ok(acc)
    } else {
        match condition_value(
            on,
            RowEnv { left_cols: lcols, left_row: lrow, right_cols: rcols, right_row: rrows[k] },
        ) {
            Err(e) => Err(e),
            Ok(true) => matches_from(
                lrow,
                rrows,
                lcols,
                rcols,
                on,
                k + 1,
                acc.push(side_by_side(lrow, rrows[k])),
            ),
            Ok(false) => matches_from(lrow, rrows, lcols, rcols, on, k + 1, acc),
        }
    }
}

/// The rows that a left row contributes to a join: its matches with the
/// right rows; or, in a left join without a match, itself with NULL for
/// every right column.
pub open spec fn joined_with(
    lrow: Seq<ValueView>,
    rrows: Seq<Seq<ValueView>>,
    lcols: Seq<ColumnRef>,
    rcols: Seq<ColumnRef>,
    kind: JoinKind,
    on: ConditionView,
) -> Result<Seq<Seq<ValueView>>, EvalErrorView> {
    match matches_from(lrow, rrows, lcols, rcols, on, 0, Seq::empty()) {
        Err(e) => Err(e),
        Ok(found) => if found.len() == 0 && kind == JoinKind::Left {
            Ok(seq![side_by_side(lrow, Seq::new(rcols.len(), |i: int| ValueView::Null))])
        } else {
            Ok(found)
        },
    }
}

/// The rows of the join of the left rows from the `i`-th on with the right
/// rows, appended to `acc`.
pub open spec fn joined_from(
    lrows: Seq<Seq<ValueView>>,
    rrows: Seq<Seq<ValueView>>,
    lcols: Seq<ColumnRef>,
    rcols: Seq<ColumnRef>,
    kind: JoinKind,
    on: ConditionView,
    i: int,
    acc: Seq<Seq<ValueView>>,
) -> Result<Seq<Seq<ValueView>>, EvalErrorView>
    decreases lrows.len() - i,
{
    if i < 0 || i >= lrows.len() {
        Ok(acc)
    } else {
        match joined_with(lrows[i], rrows, lcols, rcols, kind, on) {
            Err(e) => Err(e),
            Ok(more) => joined_from(lrows, rrows, lcols, rcols, kind, on, i + 1, acc + more),
        }
    }
}

/// The join of two materialized row lists.
pub open spec fn joined(l: JoinTableView, r: JoinTableView, kind: JoinKind, on: ConditionView)
    -> Result<JoinTableView, DbErrorView> {
    match joined_from(l.rows, r.rows, l.columns, r.columns, kind, on, 0, Seq::empty()) {
        Err(e) => Err(DbErrorView::Eval(e)),
        Ok(rows) => Ok(JoinTableView { columns: l.columns + r.columns, rows }),
    }
}

/// View of the result of a materialization.
pub open spec fn join_result_view(r: Result<JoinTable, DbError>) -> Result<
    JoinTableView,
    DbErrorView,
> {
    match r {
        Ok(t) => Ok(t@),
        Err(e) => Err(e@),
    }
}

fn concat_rows(l: &Row, r: &Row) -> (row: Row)
    ensures
        row@ == side_by_side(l@, r@),
{
    let mut values = copy_values(&l.values);
    let ghost head = values_view(values@);
    let mut i: usize = 0;
    while i < r.values.len()
        invariant
            i <= r.values.len(),
            head == l@,
            values_view(values@) == head + r@.subrange(0, i as int),
        decreases r.values.len() - i,
    {
        let ghost before = values_view(values@);
        values.push(r.values[i].copy());
        assert(values_view(values@) =~= before.push(r@[i as int]));
        assert(before.push(r@[i as int]) =~= head + r@.subrange(0, i + 1));
        i += 1;
    }
    assert(r@.subrange(0, r@.len() as int) =~= r@);
    Row { values }
}

fn pad_with_nulls(l: &Row, n: usize) -> (row: Row)
    ensures
        row@ == side_by_side(l@, Seq::new(n as nat, |i: int| ValueView::Null)),
{
    let mut values = copy_values(&l.values);
    let ghost head = values_view(values@);
    let mut i: usize = 0;
    while i < n
        invariant
            i <= n,
            head == l@,
            values_view(values@) == head + Seq::new(i as nat, |k: int| ValueView::Null),
        decreases n - i,
    {
        let ghost before = values_view(values@);
        values.push(Value::Null);
        assert(values_view(values@) =~= before.push(ValueView::Null));
        assert(before.push(ValueView::Null) =~= head + Seq::new(
            (i + 1) as nat,
            |k: int| ValueView::Null,
        ));
        i += 1;
    }
    Row { values }
}

fn row_matches_of(lrow: &Row, l: &JoinTable, r: &JoinTable, on: &Condition) -> (res: Result<
    Vec<Row>,
    crate::errors::eval_error::EvalError,
>)
    ensures
        match res {
            Ok(found) => matches_from(
                lrow@,
                r@.rows,
                l@.columns,
                r@.columns,
                on@,
                0,
                Seq::empty(),
            ) == Ok::<_, EvalErrorView>(rows_view(found@)),
            Err(e) => matches_from(lrow@, r@.rows, l@.columns, r@.columns, on@, 0, Seq::empty())
                == Err::<Seq<Seq<ValueView>>, _>(e@),
        },
{
    let ghost lv = l@;
    let ghost rv = r@;
    let mut found: Vec<Row> = Vec::new();
    assert(rows_view(found@) =~= Seq::empty());
    let mut k: usize = 0;
    while k < r.rows.len()
        invariant
            k <= r.rows.len(),
            lv == l@,
            rv == r@,
            matches_from(lrow@, rv.rows, lv.columns, rv.columns, on@, 0, Seq::empty())
                == matches_from(
                lrow@,
                rv.rows,
                lv.columns,
                rv.columns,
                on@,
                k as int,
                rows_view(found@),
            ),
        decreases r.rows.len() - k,
    {
        let rrow = &r.rows[k];
        assert(rv.rows[k as int] == rrow@);
        match eval_condition(on, lrow, &l.columns, Some(rrow), Some(&r.columns)) {
            Err(e) => {
                return Err(e);
            },
            Ok(true) => {
                let ghost was = rows_view(found@);
                found.push(concat_rows(lrow, rrow));
                assert(rows_view(found@) =~= was.push(side_by_side(lrow@, rrow@)));
            },
            Ok(false) => {},
        }
        k += 1;
    }
    Ok(found)
}

/// Joins two materialized row lists.
pub fn join_tables(l: &JoinTable, r: &JoinTable, kind: JoinKind, on: &Condition) -> (res: Result<
    JoinTable,
    DbError,
>)
    ensures
        join_result_view(res) == joined(l@, r@, kind, on@),
{
    let ghost lv = l@;
    let ghost rv = r@;
    let mut rows: Vec<Row> = Vec::new();
    assert(rows_view(rows@) =~= Seq::empty());
    let mut i: usize = 0;
    while i < l.rows.len()
        invariant
            i <= l.rows.len(),
            lv == l@,
            rv == r@,
            joined_from(lv.rows, rv.rows, lv.columns, rv.columns, kind, on@, 0, Seq::empty())
                == joined_from(
                lv.rows,
                rv.rows,
                lv.columns,
                rv.columns,
                kind,
                on@,
                i as int,
                rows_view(rows@),
            ),
        decreases l.rows.len() - i,
    {
        let lrow = &l.rows[i];
        assert(lv.rows[i as int] == lrow@);
        let ghost before = rows_view(rows@);
        let mut found = match row_matches_of(lrow, l, r, on) {
            Ok(f) => f,
            Err(e) => {
                return Err(DbError::Eval(e));
            },
        };
        if found.len() == 0 && kind == JoinKind::Left {
            found.push(pad_with_nulls(lrow, r.columns.len()));
            assert(rows_view(found@) =~= seq![
                side_by_side(lrow@, Seq::new(rv.columns.len(), |i: int| ValueView::Null)),
            ]);
        }
        let ghost more = rows_view(found@);
        rows.append(&mut found);
        assert(rows_view(rows@) =~= before + more);
        i += 1;
    }
    let mut columns: Vec<JoinTableColumn> = Vec::new();
    let mut a: usize = 0;
    while a < l.columns.len()
        invariant
            a <= l.columns.len(),
            column_refs(columns@) == column_refs(l.columns@).subrange(0, a as int),
        decreases l.columns.len() - a,
    {
        let ghost was = column_refs(columns@);
        columns.push(l.columns[a].clone_ref());
        assert(column_refs(columns@) =~= was.push(l.columns[a as int]@));
        assert(was.push(l.columns[a as int]@) =~= column_refs(l.columns@).subrange(0, a + 1));
        a += 1;
    }
    let mut b: usize = 0;
    assert(column_refs(l.columns@).subrange(0, l.columns@.len() as int) =~= column_refs(l.columns@));
    while b < r.columns.len()
        invariant
            b <= r.columns.len(),
            column_refs(columns@) == column_refs(l.columns@) + column_refs(r.columns@).subrange(
                0,
                b as int,
            ),
        decreases r.columns.len() - b,
    {
        let ghost was = column_refs(columns@);
        columns.push(r.columns[b].clone_ref());
        assert(column_refs(columns@) =~= was.push(r.columns[b as int]@));
        assert(was.push(r.columns[b as int]@) =~= column_refs(l.columns@) + column_refs(
            r.columns@,
        ).subrange(0, b + 1));
        b += 1;
    }
    assert(column_refs(r.columns@).subrange(0, r.columns@.len() as int) =~= column_refs(r.columns@));
    Ok(JoinTable { columns, rows })
}

impl JoinTableColumn {
    /// A copy with the same content.
    pub fn clone_ref(&self) -> (c: JoinTableColumn)
        ensures
            c@ == self@,
    {
        JoinTableColumn {
            table_alias: self.table_alias.clone(),
            column_name: self.column_name.clone(),
        }
    }
}

impl Database {
    /// The rows of a table that are visible to the transaction, under an alias.
    pub open spec fn table_rows(
        &self,
        t: int,
        alias: Seq<char>,
        xid: u32,
        snapshot: SnapshotView,
    ) -> JoinTableView {
        let table = self.tables@[t];
        JoinTableView {
            columns: aliased_columns(alias, table.columns@),
            rows: visible_rows(
                table.heap.tuples(column_types(table.columns@)),
                xid,
                snapshot,
                self.transaction_manager@.transactions,
            ),
        }
    }

    /// The row list that a FROM clause stands for: for a table, its visible
    /// rows under its alias; for a join, the join of the row lists of its
    /// two sides.
    pub open spec fn materialized(
        &self,
        from: FromItemView,
        aliases: Seq<(Seq<char>, Seq<char>)>,
        xid: u32,
        snapshot: SnapshotView,
    ) -> Result<JoinTableView, DbErrorView>
        decreases from,
    {
        match from {
            FromItemView::Table(name) => match table_position(self.tables@, name, 0) {
                None => Err(DbErrorView::TableDoesNotExist(name)),
                Some(t) => Ok(self.table_rows(t, alias_of(aliases, name, 0), xid, snapshot)),
            },
            FromItemView::Join { left, right, kind, on } => match self.materialized(
                *left,
                aliases,
                xid,
                snapshot,
            ) {
                Err(e) => Err(e),
                Ok(l) => match self.materialized(*right, aliases, xid, snapshot) {
                    Err(e) => Err(e),
                    Ok(r) => joined(l, r, kind, on),
                },
            },
        }
    }

    /// Materializes a FROM clause into a row list.
    pub fn collect_join_table(
        &self,
        join_struct: &FromItem,
        aliases: &Aliases,
        xid: u32,
        snapshot: &Snapshot,
    ) -> (r: Result<JoinTable, DbError>)
        requires
            self.wf(),
        ensures
            join_result_view(r) == self.materialized(join_struct@, aliases@, xid, snapshot@),
        decreases join_struct,
    {
        match join_struct {
            FromItem::Join { left, right, kind, on } => {
                let l = match self.collect_join_table(left, aliases, xid, snapshot) {
                    Ok(l) => l,
                    Err(e) => {
                        return Err(e);
                    },
                };
                let r = match self.collect_join_table(right, aliases, xid, snapshot) {
                    Ok(r) => r,
                    Err(e) => {
                        return Err(e);
                    },
                };
                join_tables(&l, &r, *kind, on)
            },
            FromItem::Table(table_name) => {
                let t = match self.find_table(table_name.as_str()) {
                    Some(t) => t,
                    None => {
                        return Err(DbError::TableDoesNotExist(table_name.clone()));
                    },
                };
                let table = &self.tables[t];
                assert(table.wf());
                let alias = find_alias(aliases, table_name.as_str());
                let columns = single_meta(alias.as_str(), &table.columns);
                let scanned = table.heap.scan_all(&table.columns);
                let rows = keep_visible(scanned, xid, snapshot, &self.transaction_manager);
                Ok(JoinTable { columns, rows })
            },
        }
    }
}

} // verus!
