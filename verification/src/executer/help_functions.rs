use crate::errors::engine_error::{DbError, DbErrorView};
use crate::storage::codec::column_types;
use crate::storage::heap_file::{scan_view, StoredTuple};
use crate::types::page_types::TupleHeader;
use crate::types::parser_types::foreign_keys_view;
use crate::types::storage_types::{
    column_position, find_column, names_view, table_position, values_view, Column, Database,
    ForeignKeyConstraint, ForeignKeyView, Row, Table, Value, ValueView,
};
use vstd::prelude::*;

verus! {

/// Whether every name is the name of a column.
pub open spec fn all_columns_known(names: Seq<Seq<char>>, columns: Seq<Column>) -> bool {
    forall|i: int| 0 <= i < names.len() ==> (#[trigger] column_position(columns, names[i], 0)).is_some()
}

/// The first name at or after `i` that is no column's.
pub open spec fn first_unknown(names: Seq<Seq<char>>, columns: Seq<Column>, i: int) -> Option<
    Seq<char>,
>
    decreases names.len() - i,
{
    if i < 0 || i >= names.len() {
        None
    } else if column_position(columns, names[i], 0).is_none() {
        Some(names[i])
    } else {
        first_unknown(names, columns, i + 1)
    }
}

/// Every name is a column's exactly if none is unknown.
pub proof fn lemma_first_unknown(names: Seq<Seq<char>>, columns: Seq<Column>, i: int)
    requires
        0 <= i,
    ensures
        first_unknown(names, columns, i).is_none() <==> (forall|k: int|
            i <= k < names.len() ==> (#[trigger] column_position(columns, names[k], 0)).is_some()),
    decreases names.len() - i,
{
    if i < names.len() {
        lemma_first_unknown(names, columns, i + 1);
        if column_position(columns, names[i], 0).is_some() {
            if first_unknown(names, columns, i).is_none() {
                assert forall|k: int| i <= k < names.len() implies (#[trigger] column_position(
                    columns,
                    names[k],
                    0,
                )).is_some() by {
                    if k > i {
                    }
                }
            }
        }
    }
}

/// Where the column of each name stands.
pub open spec fn name_positions(names: Seq<Seq<char>>, columns: Seq<Column>) -> Seq<int> {
    Seq::new(names.len(), |i: int| column_position(columns, names[i], 0).unwrap())
}

/// The positions as mathematical integers.
pub open spec fn positions_view(ps: Seq<usize>) -> Seq<int> {
    Seq::new(ps.len(), |i: int| ps[i] as int)
}

/// Whether every position lies within a row of `n` values.
pub open spec fn all_within(positions: Seq<int>, n: int) -> bool {
    forall|i: int| 0 <= i < positions.len() ==> 0 <= #[trigger] positions[i] < n
}

/// The values at the positions.
pub open spec fn picked(values: Seq<ValueView>, positions: Seq<int>) -> Seq<ValueView> {
    Seq::new(positions.len(), |i: int| values[positions[i]])
}

/// Whether every value is NULL.
pub open spec fn all_null(vs: Seq<ValueView>) -> bool {
    forall|i: int| 0 <= i < vs.len() ==> (#[trigger] vs[i]) is Null
}

/// Whether a row has, at each position, the value that stands at the same
/// place in `vals`, as far as both lists go.
pub open spec fn row_matches(row: Seq<ValueView>, positions: Seq<int>, vals: Seq<ValueView>)
    -> bool {
    forall|k: int|
        0 <= k < positions.len() && k < vals.len() ==> 0 <= (#[trigger] positions[k]) < row.len()
            && row[positions[k]] == vals[k]
}

/// Whether some tuple's row matches.
pub open spec fn any_row_matches(
    tuples: Seq<StoredTuple>,
    positions: Seq<int>,
    vals: Seq<ValueView>,
) -> bool {
    exists|t: int| 0 <= t < tuples.len() && row_matches((#[trigger] tuples[t]).row, positions, vals)
}

/// The key of a row under an index: the row's values at the index's
/// columns, in the order of the index.
pub open spec fn key_of(index_columns: Seq<Seq<char>>, table_columns: Seq<Column>, values: Seq<
    ValueView,
>) -> Result<Seq<ValueView>, DbErrorView> {
    if !all_columns_known(index_columns, table_columns) {
        Err(DbErrorView::IndexColumnMissing(first_unknown(index_columns, table_columns, 0)->Some_0))
    } else if !all_within(name_positions(index_columns, table_columns), values.len() as int) {
        Err(DbErrorView::ColumnCountMismatch)
    } else {
        Ok(picked(values, name_positions(index_columns, table_columns)))
    }
}

/// Where the column of each name stands; or the first name that is no
/// column's.
pub fn resolve_columns(names: &Vec<String>, columns: &Vec<Column>) -> (r: Result<
    Vec<usize>,
    String,
>)
    ensures
        match r {
            Ok(ps) => all_columns_known(names_view(names@), columns@) && positions_view(ps@)
                == name_positions(names_view(names@), columns@) && forall|i: int|
                0 <= i < ps@.len() ==> (#[trigger] ps@[i]) < columns@.len(),
            Err(name) => !all_columns_known(names_view(names@), columns@) && first_unknown(
                names_view(names@),
                columns@,
                0,
            ) == Some(name@),
        },
{
    let ghost ns = names_view(names@);
    let mut ps: Vec<usize> = Vec::new();
    let mut i: usize = 0;
    while i < names.len()
        invariant
            i <= names.len(),
            ns == names_view(names@),
            ps.len() == i,
            first_unknown(ns, columns@, i as int) == first_unknown(ns, columns@, 0),
            forall|j: int|
                0 <= j < i ==> (#[trigger] column_position(columns@, ns[j], 0)) == Some(
                    ps[j] as int,
                ),
            forall|j: int| 0 <= j < i ==> (#[trigger] ps[j]) < columns@.len(),
        decreases names.len() - i,
    {
        assert(ns[i as int] == names[i as int]@);
        match find_column(columns, names[i].as_str()) {
            Some(p) => {
                ps.push(p);
            },
            None => {
                return Err(names[i].clone());
            },
        }
        i += 1;
    }
    assert(positions_view(ps@) =~= name_positions(ns, columns@)) by {
        assert forall|j: int| 0 <= j < ps.len() implies positions_view(ps@)[j] == name_positions(
            ns,
            columns@,
        )[j] by {
            assert(column_position(columns@, ns[j], 0) == Some(ps[j] as int));
        }
    }
    Ok(ps)
}

/// The values at the positions; none if a position lies outside the row.
pub fn pick_values(values: &Vec<Value>, positions: &Vec<usize>) -> (r: Option<Vec<Value>>)
    ensures
        match r {
            Some(vs) => all_within(positions_view(positions@), values@.len() as int)
                && values_view(vs@) == picked(values_view(values@), positions_view(positions@)),
            None => !all_within(positions_view(positions@), values@.len() as int),
        },
{
    let ghost ps = positions_view(positions@);
    let mut out: Vec<Value> = Vec::new();
    let mut i: usize = 0;
    while i < positions.len()
        invariant
            i <= positions.len(),
            ps == positions_view(positions@),
            out.len() == i,
            forall|j: int| 0 <= j < i ==> 0 <= (#[trigger] ps[j]) < values@.len(),
            forall|j: int| 0 <= j < i ==> out[j]@ == values[ps[j]]@,
        decreases positions.len() - i,
    {
        let p = positions[i];
        assert(ps[i as int] == p);
        if p >= values.len() {
            return None;
        }
        out.push(values[p].copy());
        i += 1;
    }
    assert(values_view(out@) =~= picked(values_view(values@), ps));
    Some(out)
}

/// Builds the key of a row under an index.
pub fn build_key(
    index_columns: &Vec<String>,
    table_columns: &Vec<Column>,
    values: &Vec<Value>,
    table_name: &str,
) -> (r: Result<Vec<Value>, DbError>)
    ensures
        match r {
            Ok(key) => key_of(names_view(index_columns@), table_columns@, values_view(values@))
                == Ok::<_, DbErrorView>(values_view(key@)),
            Err(e) => key_of(names_view(index_columns@), table_columns@, values_view(values@))
                == Err::<Seq<ValueView>, _>(e@),
        },
{
    let positions = match resolve_columns(index_columns, table_columns) {
        Ok(ps) => ps,
        Err(name) => {
            return Err(DbError::IndexColumnMissing(name));
        },
    };
    match pick_values(values, &positions) {
        Some(key) => Ok(key),
        None => Err(DbError::ColumnCountMismatch),
    }
}

/// Whether every value is NULL.
pub fn is_all_null(vs: &Vec<Value>) -> (b: bool)
    ensures
        b == all_null(values_view(vs@)),
{
    let mut i: usize = 0;
    while i < vs.len()
        invariant
            i <= vs.len(),
            forall|j: int| 0 <= j < i ==> vs[j]@ is Null,
        decreases vs.len() - i,
    {
        if !vs[i].is_null() {
            assert(!(values_view(vs@)[i as int] is Null));
            return false;
        }
        i += 1;
    }
    true
}

/// Executable form of [`row_matches`].
pub fn matches_row(row: &Vec<Value>, positions: &Vec<usize>, vals: &Vec<Value>) -> (b: bool)
    ensures
        b == row_matches(values_view(row@), positions_view(positions@), values_view(vals@)),
{
    let ghost r = values_view(row@);
    let ghost ps = positions_view(positions@);
    let ghost vs = values_view(vals@);
    let mut k: usize = 0;
    while k < positions.len() && k < vals.len()
        invariant
            k <= positions.len(),
            k <= vals.len(),
            r == values_view(row@),
            ps == positions_view(positions@),
            vs == values_view(vals@),
            forall|j: int| 0 <= j < k ==> 0 <= (#[trigger] ps[j]) < r.len() && r[ps[j]] == vs[j],
        decreases positions.len() - k,
    {
        let p = positions[k];
        assert(ps[k as int] == p);
        if p >= row.len() {
            return false;
        }
        assert(r[p as int] == row[p as int]@ && vs[k as int] == vals[k as int]@);
        if !row[p].same(&vals[k]) {
            return false;
        }
        k += 1;
    }
    true
}

/// Executable form of [`any_row_matches`] on the result of a scan.
pub fn any_match(
    rows: &Vec<(u32, usize, TupleHeader, Row)>,
    positions: &Vec<usize>,
    vals: &Vec<Value>,
) -> (b: bool)
    ensures
        b == any_row_matches(scan_view(rows@), positions_view(positions@), values_view(vals@)),
{
    let ghost ts = scan_view(rows@);
    let mut i: usize = 0;
    while i < rows.len()
        invariant
            i <= rows.len(),
            ts == scan_view(rows@),
            forall|j: int|
                0 <= j < i ==> !row_matches(
                    (#[trigger] ts[j]).row,
                    positions_view(positions@),
                    values_view(vals@),
                ),
        decreases rows.len() - i,
    {
        assert(ts[i as int].row == rows[i as int].3@);
        if matches_row(&rows[i].3.values, positions, vals) {
            return true;
        }
        i += 1;
    }
    false
}

/// Why a row breaks a foreign key of its table, if it does. A key whose
/// values are all NULL binds nothing. Otherwise the referenced table must
/// exist and hold a tuple, visible or not, with the key's values in the
/// referenced columns.
pub open spec fn fk_failure(
    tables: Seq<Table>,
    columns: Seq<Column>,
    fk: ForeignKeyView,
    row: Seq<ValueView>,
) -> Option<DbErrorView> {
    if !all_columns_known(fk.local_columns, columns) {
        Some(DbErrorView::ColumnUnknown(first_unknown(fk.local_columns, columns, 0)->Some_0))
    } else if !all_within(name_positions(fk.local_columns, columns), row.len() as int) {
        Some(DbErrorView::ColumnCountMismatch)
    } else {
        let local_values = picked(row, name_positions(fk.local_columns, columns));
        if all_null(local_values) {
            None
        } else {
            match table_position(tables, fk.referenced_table, 0) {
                None => Some(DbErrorView::FkMissingRef(fk.referenced_table)),
                Some(p) => {
                    let parent = tables[p];
                    if !all_columns_known(fk.referenced_columns, parent.columns@) {
                        Some(
                            DbErrorView::ColumnUnknown(
                                first_unknown(fk.referenced_columns, parent.columns@, 0)->Some_0,
                            ),
                        )
                    } else if any_row_matches(
                        parent.heap.tuples(column_types(parent.columns@)),
                        name_positions(fk.referenced_columns, parent.columns@),
                        local_values,
                    ) {
                        None
                    } else {
                        Some(DbErrorView::FkViolation(fk.referenced_table))
                    }
                },
            }
        }
    }
}

/// The first failure among the foreign keys from the `i`-th on.
pub open spec fn fks_failure(
    tables: Seq<Table>,
    columns: Seq<Column>,
    fks: Seq<ForeignKeyView>,
    row: Seq<ValueView>,
    i: int,
) -> Option<DbErrorView>
    decreases fks.len() - i,
{
    if i < 0 || i >= fks.len() {
        None
    } else {
        match fk_failure(tables, columns, fks[i], row) {
            Some(e) => Some(e),
            None => fks_failure(tables, columns, fks, row, i + 1),
        }
    }
}

/// View of an optional error.
pub open spec fn failure_view(r: Result<(), DbError>) -> Option<DbErrorView> {
    match r {
        Ok(()) => None,
        Err(e) => Some(e@),
    }
}

fn check_foreign_key(db: &Database, table: &Table, fk: &ForeignKeyConstraint, row: &Vec<Value>)
    -> (r: Result<(), DbError>)
    requires
        db.wf(),
    ensures
        failure_view(r) == fk_failure(db.tables@, table.columns@, fk@, values_view(row@)),
{
    let local_positions = match resolve_columns(&fk.local_columns, &table.columns) {
        Ok(ps) => ps,
        Err(name) => {
            return Err(DbError::ColumnUnknown(name));
        },
    };
    let local_values = match pick_values(row, &local_positions) {
        Some(vs) => vs,
        None => {
            return Err(DbError::ColumnCountMismatch);
        },
    };
    if is_all_null(&local_values) {
        return Ok(());
    }
    let p = match db.find_table(fk.referenced_table.as_str()) {
        Some(p) => p,
        None => {
            return Err(DbError::FkMissingRef(fk.referenced_table.clone()));
        },
    };
    let parent = &db.tables[p];
    let ref_positions = match resolve_columns(&fk.referenced_columns, &parent.columns) {
        Ok(ps) => ps,
        Err(name) => {
            return Err(DbError::ColumnUnknown(name));
        },
    };
    assert(parent.wf());
    let rows = parent.heap.scan_all(&parent.columns);
    if any_match(&rows, &ref_positions, &local_values) {
        Ok(())
    } else {
        Err(DbError::FkViolation(fk.referenced_table.clone()))
    }
}

/// Checks a row against the foreign keys of its table, in their order.
pub fn validate_foreign_keys(db: &Database, table: &Table, row_values: &Vec<Value>) -> (r: Result<
    (),
    DbError,
>)
    requires
        db.wf(),
    ensures
        failure_view(r) == fks_failure(
            db.tables@,
            table.columns@,
            foreign_keys_view(table.foreign_keys@),
            values_view(row_values@),
            0,
        ),
{
    let ghost fks = foreign_keys_view(table.foreign_keys@);
    let mut i: usize = 0;
    while i < table.foreign_keys.len()
        invariant
            i <= table.foreign_keys.len(),
            db.wf(),
            fks == foreign_keys_view(table.foreign_keys@),
            fks_failure(db.tables@, table.columns@, fks, values_view(row_values@), 0)
                == fks_failure(
                db.tables@,
                table.columns@,
                fks,
                values_view(row_values@),
                i as int,
            ),
        decreases table.foreign_keys.len() - i,
    {
        assert(fks[i as int] == table.foreign_keys[i as int]@);
        match check_foreign_key(db, table, &table.foreign_keys[i], row_values) {
            Err(e) => {
                return Err(e);
            },
            Ok(()) => {},
        }
        i += 1;
    }
    Ok(())
}

/// How a row of a child table stands to the values of a referenced row,
/// pair by pair from the `k`-th on: a name of the key is paired with the
/// value at the same place, as far as both lists go. The row matches
/// (`Ok(true)`) if it has each value in the column of its name. It differs
/// (`Ok(false)`) at the first pair where it does not. A name that is no
/// column's is an error where the pairs before it matched.
pub open spec fn row_reaches(
    columns: Seq<Column>,
    names: Seq<Seq<char>>,
    vals: Seq<ValueView>,
    row: Seq<ValueView>,
    k: int,
) -> Result<bool, Seq<char>>
    decreases names.len() - k,
{
    if k < 0 || k >= names.len() || k >= vals.len() {
        Ok(true)
    } else {
        match column_position(columns, names[k], 0) {
            None => Err(names[k]),
            Some(p) => if p < row.len() && row[p] == vals[k] {
                row_reaches(columns, names, vals, row, k + 1)
            } else {
                Ok(false)
            },
        }
    }
}

/// What the tuples of a child table from the `t`-th on say of a referenced
/// row, in the order of the scan: the first tuple that does not differ
/// from the row decides. If it matches, the row is referenced; if it
/// reaches a name of the key that is no column's, that is the error. No
/// tuple, or none but tuples that differ, is no failure.
pub open spec fn scan_failure(
    child: Table,
    tuples: Seq<StoredTuple>,
    names: Seq<Seq<char>>,
    vals: Seq<ValueView>,
    t: int,
) -> Option<DbErrorView>
    decreases tuples.len() - t,
{
    if t < 0 || t >= tuples.len() {
        None
    } else {
        match row_reaches(child.columns@, names, vals, tuples[t].row, 0) {
            Err(name) => Some(DbErrorView::ColumnUnknown(name)),
            Ok(true) => Some(DbErrorView::FkReferenced(child.name@)),
            Ok(false) => scan_failure(child, tuples, names, vals, t + 1),
        }
    }
}

/// Why a foreign key of a child table forbids the deletion of a row of the
/// table `target`, if it does. A key that does not reference the table
/// forbids nothing. The referenced columns must be columns of the table,
/// and the row must have them. Then the tuples of the child, visible or
/// not, are held against the row's values in those columns: a tuple that
/// has them in the key's columns forbids the deletion. A column of the key
/// that the child lacks is an error only where a tuple reaches it.
pub open spec fn reference_failure(
    target: Table,
    child: Table,
    fk: ForeignKeyView,
    row: Seq<ValueView>,
) -> Option<DbErrorView> {
    if fk.referenced_table != target.name@ {
        None
    } else if !all_columns_known(fk.referenced_columns, target.columns@) {
        Some(
            DbErrorView::ColumnUnknown(
                first_unknown(fk.referenced_columns, target.columns@, 0)->Some_0,
            ),
        )
    } else if !all_within(name_positions(fk.referenced_columns, target.columns@), row.len() as int) {
        Some(DbErrorView::ColumnCountMismatch)
    } else {
        scan_failure(
            child,
            child.heap.tuples(column_types(child.columns@)),
            fk.local_columns,
            picked(row, name_positions(fk.referenced_columns, target.columns@)),
            0,
        )
    }
}

/// The first failure among the foreign keys of a child table from the `i`-th on.
pub open spec fn child_failure(target: Table, child: Table, row: Seq<ValueView>, i: int) -> Option<
    DbErrorView,
>
    decreases child.foreign_keys@.len() - i,
{
    if i < 0 || i >= child.foreign_keys@.len() {
        None
    } else {
        match reference_failure(target, child, child.foreign_keys@[i]@, row) {
            Some(e) => Some(e),
            None => child_failure(target, child, row, i + 1),
        }
    }
}

/// The first failure among the tables from the `t`-th on, the table of the
/// target's own name left out.
pub open spec fn references_failure(tables: Seq<Table>, target: Table, row: Seq<ValueView>, t: int)
    -> Option<DbErrorView>
    decreases tables.len() - t,
{
    if t < 0 || t >= tables.len() {
        None
    } else if tables[t].name@ == target.name@ {
        references_failure(tables, target, row, t + 1)
    } else {
        match child_failure(target, tables[t], row, 0) {
            Some(e) => Some(e),
            None => references_failure(tables, target, row, t + 1),
        }
    }
}

/// Why a row of a table must not be deleted, if it must not: the table does
/// not exist, or a foreign key of another table references the row.
pub open spec fn not_referenced_failure(
    tables: Seq<Table>,
    table_name: Seq<char>,
    row: Seq<ValueView>,
) -> Option<DbErrorView> {
    match table_position(tables, table_name, 0) {
        None => Some(DbErrorView::TableDoesNotExist(table_name)),
        Some(p) => references_failure(tables, tables[p], row, 0),
    }
}

fn reaches(columns: &Vec<Column>, names: &Vec<String>, vals: &Vec<Value>, row: &Vec<Value>) -> (r:
    Result<bool, String>)
    ensures
        match r {
            Ok(b) => row_reaches(
                columns@,
                names_view(names@),
                values_view(vals@),
                values_view(row@),
                0,
            ) == Ok::<bool, Seq<char>>(b),
            Err(name) => row_reaches(
                columns@,
                names_view(names@),
                values_view(vals@),
                values_view(row@),
                0,
            ) == Err::<bool, _>(name@),
        },
{
    let ghost ns = names_view(names@);
    let ghost vs = values_view(vals@);
    let ghost r = values_view(row@);
    let mut k: usize = 0;
    while k < names.len() && k < vals.len()
        invariant
            k <= names.len(),
            k <= vals.len(),
            ns == names_view(names@),
            vs == values_view(vals@),
            r == values_view(row@),
            row_reaches(columns@, ns, vs, r, k as int) == row_reaches(columns@, ns, vs, r, 0),
        decreases names.len() - k,
    {
        assert(ns[k as int] == names[k as int]@ && vs[k as int] == vals[k as int]@);
        let p = match find_column(columns, names[k].as_str()) {
            Some(p) => p,
            None => {
                return Err(names[k].clone());
            },
        };
        if p >= row.len() {
            return Ok(false);
        }
        assert(r[p as int] == row[p as int]@);
        if !row[p].same(&vals[k]) {
            return Ok(false);
        }
        k += 1;
    }
    Ok(true)
}

fn check_reference(target: &Table, child: &Table, fk: &ForeignKeyConstraint, row: &Vec<Value>) -> (r:
    Result<(), DbError>)
    requires
        child.wf(),
    ensures
        failure_view(r) == reference_failure(*target, *child, fk@, values_view(row@)),
{
    if !crate::text::str_eq(fk.referenced_table.as_str(), target.name.as_str()) {
        return Ok(());
    }
    let ref_positions = match resolve_columns(&fk.referenced_columns, &target.columns) {
        Ok(ps) => ps,
        Err(name) => {
            return Err(DbError::ColumnUnknown(name));
        },
    };
    let ref_values = match pick_values(row, &ref_positions) {
        Some(vs) => vs,
        None => {
            return Err(DbError::ColumnCountMismatch);
        },
    };
    let rows = child.heap.scan_all(&child.columns);
    let ghost tuples = scan_view(rows@);
    let ghost names = names_view(fk.local_columns@);
    let ghost vals = values_view(ref_values@);
    let mut t: usize = 0;
    while t < rows.len()
        invariant
            t <= rows.len(),
            tuples == scan_view(rows@),
            names == names_view(fk.local_columns@),
            vals == values_view(ref_values@),
            reference_failure(*target, *child, fk@, values_view(row@)) == scan_failure(
                *child,
                tuples,
                names,
                vals,
                0,
            ),
            scan_failure(*child, tuples, names, vals, t as int) == scan_failure(
                *child,
                tuples,
                names,
                vals,
                0,
            ),
        decreases rows.len() - t,
    {
        assert(tuples[t as int].row == rows[t as int].3@);
        let reached = reaches(&child.columns, &fk.local_columns, &ref_values, &rows[t].3.values);
        assert(scan_failure(*child, tuples, names, vals, t as int) == match row_reaches(
            child.columns@,
            names,
            vals,
            tuples[t as int].row,
            0,
        ) {
            Err(name) => Some(DbErrorView::ColumnUnknown(name)),
            Ok(true) => Some(DbErrorView::FkReferenced(child.name@)),
            Ok(false) => scan_failure(*child, tuples, names, vals, t + 1),
        });
        match reached {
            Err(name) => {
                return Err(DbError::ColumnUnknown(name));
            },
            Ok(true) => {
                return Err(DbError::FkReferenced(child.name.clone()));
            },
            Ok(false) => {},
        }
        t += 1;
    }
    Ok(())
}

fn check_child(target: &Table, child: &Table, row: &Vec<Value>) -> (r: Result<(), DbError>)
    requires
        child.wf(),
    ensures
        failure_view(r) == child_failure(*target, *child, values_view(row@), 0),
{
    let mut i: usize = 0;
    while i < child.foreign_keys.len()
        invariant
            i <= child.foreign_keys.len(),
            child.wf(),
            child_failure(*target, *child, values_view(row@), 0) == child_failure(
                *target,
                *child,
                values_view(row@),
                i as int,
            ),
        decreases child.foreign_keys.len() - i,
    {
        match check_reference(target, child, &child.foreign_keys[i], row) {
            Err(e) => {
                return Err(e);
            },
            Ok(()) => {},
        }
        i += 1;
    }
    Ok(())
}

/// Checks that no foreign key of another table references a row that is
/// about to be deleted.
pub fn ensure_not_referenced(db: &Database, table_name: &str, row_values: &Vec<Value>) -> (r:
    Result<(), DbError>)
    requires
        db.wf(),
    ensures
        failure_view(r) == not_referenced_failure(db.tables@, table_name@, values_view(row_values@)),
{
    let p = match db.find_table(table_name) {
        Some(p) => p,
        None => {
            return Err(DbError::TableDoesNotExist(table_name.to_owned()));
        },
    };
    let target = &db.tables[p];
    let mut t: usize = 0;
    while t < db.tables.len()
        invariant
            t <= db.tables.len(),
            db.wf(),
            *target == db.tables@[p as int],
            p < db.tables@.len(),
            table_position(db.tables@, table_name@, 0) == Some(p as int),
            references_failure(db.tables@, *target, values_view(row_values@), 0)
                == references_failure(db.tables@, *target, values_view(row_values@), t as int),
        decreases db.tables.len() - t,
    {
        let other = &db.tables[t];
        if !crate::text::str_eq(other.name.as_str(), target.name.as_str()) {
            assert(other.wf());
            match check_child(target, other, row_values) {
                Err(e) => {
                    return Err(e);
                },
                Ok(()) => {},
            }
        }
        t += 1;
    }
    Ok(())
}

} // verus!
