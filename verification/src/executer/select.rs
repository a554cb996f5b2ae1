use crate::errors::engine_error::{DbError, DbErrorView};
use crate::errors::eval_error::{EvalError, EvalErrorView};
use crate::executer::filter::{
    bool_result_view, condition_value, eval_condition, lookup_column, search_column, split_name,
    Found, Lookup, RowEnv,
};
use crate::executer::join::{
    aliased_columns, column_refs, keep_visible, rows_view, single_meta, visible_rows, ColumnRef,
    JoinTable, JoinTableColumn, JoinTableView,
};
use crate::storage::codec::column_types;
use crate::storage::heap_file::HeapFile;
use crate::storage::tuple_header::visible;
use crate::text::{chars_of, pieces_view, split_on, str_eq};
use crate::types::b_tree::{
    between, positions_where, BTreeIndex, KeyBound, KeyBoundView,
};
use crate::types::filter_types::CmpOp;
use crate::types::parser_types::{
    filter_view, Condition, ConditionView, Operand, OperandView,
};
use crate::types::storage_types::{
    copy_values, names_view, table_position, values_view, Column, ColumnType, Database, Row,
    Table, Value, ValueView,
};
use crate::types::transaction_types::{Snapshot, SnapshotView, TransactionManager, TxStatus};
use vstd::prelude::*;

verus! {

/// What a SELECT reads from: a table, by its name, or a materialized row list.
pub enum TableArg {
    TableName(String),
    JoinTable(JoinTable),
}

/// The mathematical content of a [`TableArg`].
pub enum TableArgView {
    TableName(Seq<char>),
    JoinTable(JoinTableView),
}

impl View for TableArg {
    type V = TableArgView;

    open spec fn view(&self) -> TableArgView {
        match self {
            TableArg::TableName(n) => TableArgView::TableName(n@),
            TableArg::JoinTable(j) => TableArgView::JoinTable(j@),
        }
    }
}

/// The place of a column in a list of columns, by its name: the first column
/// of the alias and the name, or the one column of the name.
pub open spec fn column_index_of(cols: Seq<ColumnRef>, name: Seq<char>) -> Result<int, DbErrorView> {
    match split_name(name) {
        None => Err(DbErrorView::ColumnUnknown(name)),
        Some((alias, col)) => match lookup_column(cols, alias, col) {
            Lookup::One(i) => Ok(i),
            Lookup::Missing => Err(DbErrorView::ColumnUnknown(name)),
            Lookup::Many => Err(DbErrorView::Eval(EvalErrorView::AmbiguousColumn(name))),
        },
    }
}

fn to_string(v: &Vec<char>) -> (s: String)
    ensures
        s@ == v@,
{
    assert(v@.subrange(0, v.len() as int) =~= v@);
    crate::text::string_of(v, 0, v.len())
}

/// Finds the place of a column in a list of columns, by `col` or `alias.col`.
pub fn find_idx(meta: &Vec<JoinTableColumn>, name: &str) -> (r: Result<usize, DbError>)
    ensures
        match r {
            Ok(i) => column_index_of(column_refs(meta@), name@) == Ok::<_, DbErrorView>(i as int)
                && i < meta.len(),
            Err(e) => column_index_of(column_refs(meta@), name@) == Err::<int, _>(e@),
        },
{
    let chars = chars_of(name);
    let parts = split_on(&chars, '.');
    if parts.len() > 2 {
        return Err(DbError::ColumnUnknown(name.to_owned()));
    }
    assert(pieces_view(parts@)[0] == parts[0]@);
    let qualified = parts.len() == 2;
    let first = to_string(&parts[0]);
    let second = if qualified {
        assert(pieces_view(parts@)[1] == parts[1]@);
        to_string(&parts[1])
    } else {
        String::new()
    };
    let found = if qualified {
        search_column(meta, Some(first.as_str()), second.as_str())
    } else {
        search_column(meta, None, first.as_str())
    };
    match found {
        Found::One(i) => Ok(i),
        Found::Missing => Err(DbError::ColumnUnknown(name.to_owned())),
        Found::Many => Err(DbError::Eval(EvalError::AmbiguousColumn(name.to_owned()))),
    }
}

/// The columns and values that a predicate demands to be equal, if it is a
/// conjunction of comparisons `column = literal` and nothing else.
pub open spec fn eq_conditions(c: ConditionView) -> Option<Seq<(Seq<char>, ValueView)>>
    decreases c,
{
    match c {
        ConditionView::Cmp(CmpOp::Eq, OperandView::Column(name), OperandView::Literal(v)) => Some(
            seq![(name, v)],
        ),
        ConditionView::And(a, b) => match (eq_conditions(*a), eq_conditions(*b)) {
            (Some(x), Some(y)) => Some(x + y),
            _ => None,
        },
        _ => None,
    }
}

/// Views of a list of pairs of a column and a value.
pub open spec fn eq_pairs_view(ps: Seq<(String, Value)>) -> Seq<(Seq<char>, ValueView)> {
    Seq::new(ps.len(), |i: int| (ps[i].0@, ps[i].1@))
}

/// Takes a predicate apart into comparisons `column = literal`, if it is a
/// conjunction of such.
pub fn extract_eq_conditions(cond: &Condition) -> (r: Option<Vec<(String, Value)>>)
    ensures
        match r {
            Some(ps) => eq_conditions(cond@) == Some(eq_pairs_view(ps@)),
            None => eq_conditions(cond@).is_none(),
        },
    decreases cond,
{
    match cond {
        Condition::Cmp(CmpOp::Eq, Operand::Column(c), Operand::Literal(v)) => {
            let mut out: Vec<(String, Value)> = Vec::new();
            out.push((c.clone(), v.copy()));
            assert(eq_pairs_view(out@) =~= seq![(c@, v@)]);
            Some(out)
        },
        Condition::And(left, right) => {
            let mut l = match extract_eq_conditions(left) {
                Some(l) => l,
                None => {
                    return None;
                },
            };
            let mut r = match extract_eq_conditions(right) {
                Some(r) => r,
                None => {
                    return None;
                },
            };
            let ghost x = eq_pairs_view(l@);
            let ghost y = eq_pairs_view(r@);
            l.append(&mut r);
            assert(eq_pairs_view(l@) =~= x + y);
            Some(l)
        },
        _ => None,
    }
}

/// The column and the range of keys that a predicate demands, if it is one
/// comparison `column op literal` with `<`, `<=`, `>` or `>=`.
pub open spec fn range_condition(c: ConditionView) -> Option<
    (Seq<char>, KeyBoundView, KeyBoundView),
> {
    match c {
        ConditionView::Cmp(op, OperandView::Column(name), OperandView::Literal(v)) => match op {
            CmpOp::Gt => Some((name, KeyBoundView::Excluded(seq![v]), KeyBoundView::Unbounded)),
            CmpOp::Gte => Some((name, KeyBoundView::Included(seq![v]), KeyBoundView::Unbounded)),
            CmpOp::Lt => Some((name, KeyBoundView::Unbounded, KeyBoundView::Excluded(seq![v]))),
            CmpOp::Lte => Some((name, KeyBoundView::Unbounded, KeyBoundView::Included(seq![v]))),
            _ => None,
        },
        _ => None,
    }
}

fn single_key(v: &Value) -> (k: Vec<Value>)
    ensures
        values_view(k@) == seq![v@],
{
    let mut k: Vec<Value> = Vec::new();
    k.push(v.copy());
    assert(values_view(k@) =~= seq![v@]);
    k
}

/// Takes a predicate apart into a column and a range of keys, if it is one
/// comparison with `<`, `<=`, `>` or `>=`.
pub fn extract_range_condition(cond: &Condition) -> (r: Option<(String, KeyBound, KeyBound)>)
    ensures
        match r {
            Some((name, lo, hi)) => range_condition(cond@) == Some((name@, lo@, hi@)),
            None => range_condition(cond@).is_none(),
        },
{
    match cond {
        Condition::Cmp(op, Operand::Column(c), Operand::Literal(v)) => match op {
            CmpOp::Gt => Some((c.clone(), KeyBound::Excluded(single_key(v)), KeyBound::Unbounded)),
            CmpOp::Gte => Some((c.clone(), KeyBound::Included(single_key(v)), KeyBound::Unbounded)),
            CmpOp::Lt => Some((c.clone(), KeyBound::Unbounded, KeyBound::Excluded(single_key(v)))),
            CmpOp::Lte => Some((c.clone(), KeyBound::Unbounded, KeyBound::Included(single_key(v)))),
            _ => None,
        },
        _ => None,
    }
}

/// The first pair at or after `i` that names the column.
pub open spec fn first_pair(pairs: Seq<(Seq<char>, ValueView)>, name: Seq<char>, i: int) -> Option<
    int,
>
    decreases pairs.len() - i,
{
    if i < 0 || i >= pairs.len() {
        None
    } else if pairs[i].0 == name {
        Some(i)
    } else {
        first_pair(pairs, name, i + 1)
    }
}

/// The first name at or after `i` that is the given one.
pub open spec fn first_name(names: Seq<Seq<char>>, name: Seq<char>, i: int) -> Option<int>
    decreases names.len() - i,
{
    if i < 0 || i >= names.len() {
        None
    } else if names[i] == name {
        Some(i)
    } else {
        first_name(names, name, i + 1)
    }
}

/// Whether the columns of an index are, as a set, the columns of the pairs.
pub open spec fn covers(index_columns: Seq<Seq<char>>, pairs: Seq<(Seq<char>, ValueView)>) -> bool {
    &&& forall|i: int|
        0 <= i < index_columns.len() ==> (#[trigger] first_pair(pairs, index_columns[i], 0)).is_some()
    &&& forall|j: int|
        0 <= j < pairs.len() ==> (#[trigger] first_name(index_columns, pairs[j].0, 0)).is_some()
}

/// The key that the pairs make under an index: for each column of the
/// index, in the index's order, the value of the first pair of that column.
pub open spec fn eq_key(index_columns: Seq<Seq<char>>, pairs: Seq<(Seq<char>, ValueView)>) -> Seq<
    ValueView,
> {
    Seq::new(index_columns.len(), |i: int| pairs[first_pair(pairs, index_columns[i], 0).unwrap()].1)
}

/// The first index at or after `i` that is on the table and whose columns
/// are those of the pairs.
pub open spec fn eq_index(
    indexes: Seq<BTreeIndex>,
    table_name: Seq<char>,
    pairs: Seq<(Seq<char>, ValueView)>,
    i: int,
) -> Option<int>
    decreases indexes.len() - i,
{
    if i < 0 || i >= indexes.len() {
        None
    } else if indexes[i].table@ == table_name && covers(names_view(indexes[i].columns@), pairs) {
        Some(i)
    } else {
        eq_index(indexes, table_name, pairs, i + 1)
    }
}

/// The first index at or after `i` that is on the table and on the one column.
pub open spec fn range_index(
    indexes: Seq<BTreeIndex>,
    table_name: Seq<char>,
    column: Seq<char>,
    i: int,
) -> Option<int>
    decreases indexes.len() - i,
{
    if i < 0 || i >= indexes.len() {
        None
    } else if indexes[i].table@ == table_name && names_view(indexes[i].columns@) == seq![column] {
        Some(i)
    } else {
        range_index(indexes, table_name, column, i + 1)
    }
}

/// The positions that an index gives for a predicate, if an index fits it:
/// for a conjunction of equalities on the columns of an index, the
/// positions under the key; else, for one comparison by order on the one
/// column of an index, the positions of the keys in the range.
pub open spec fn index_positions(
    indexes: Seq<BTreeIndex>,
    table_name: Seq<char>,
    filter: Option<ConditionView>,
) -> Option<Seq<(usize, usize)>> {
    match filter {
        None => None,
        Some(c) => {
            let by_eq = match eq_conditions(c) {
                Some(pairs) => match eq_index(indexes, table_name, pairs, 0) {
                    Some(i) => Some(
                        match indexes[i].lookup(eq_key(names_view(indexes[i].columns@), pairs)) {
                            Some(ps) => ps,
                            None => Seq::empty(),
                        },
                    ),
                    None => None,
                },
                None => None,
            };
            if by_eq.is_some() {
                by_eq
            } else {
                match range_condition(c) {
                    Some((column, lo, hi)) => match range_index(indexes, table_name, column, 0) {
                        Some(i) => Some(
                            positions_where(
                                indexes[i].entries(),
                                between(lo, hi),
                                indexes[i].entries().len() as int,
                            ),
                        ),
                        None => None,
                    },
                    None => None,
                }
            }
        },
    }
}

/// The rows of the tuples at the first `n` positions that can be read and
/// are visible to the transaction, in the order of the positions.
pub open spec fn rows_at_upto(
    heap: HeapFile,
    schema: Seq<ColumnType>,
    positions: Seq<(usize, usize)>,
    xid: u32,
    snapshot: SnapshotView,
    statuses: Map<u32, TxStatus>,
    n: int,
) -> Seq<Seq<ValueView>>
    decreases n,
{
    if n <= 0 {
        Seq::empty()
    } else {
        let prev = rows_at_upto(heap, schema, positions, xid, snapshot, statuses, n - 1);
        let pos = positions[n - 1];
        match heap.spec_get_tuple(pos.0 as int, pos.1 as int, schema) {
            Some((h, row)) => if pos.0 <= u32::MAX && visible(h, xid, snapshot, statuses) {
                prev.push(row)
            } else {
                prev
            },
            None => prev,
        }
    }
}

fn pair_position(pairs: &Vec<(String, Value)>, name: &str) -> (r: Option<usize>)
    ensures
        match r {
            Some(i) => first_pair(eq_pairs_view(pairs@), name@, 0) == Some(i as int) && i
                < pairs.len(),
            None => first_pair(eq_pairs_view(pairs@), name@, 0).is_none(),
        },
{
    let ghost ps = eq_pairs_view(pairs@);
    let mut i: usize = 0;
    while i < pairs.len()
        invariant
            i <= pairs.len(),
            ps == eq_pairs_view(pairs@),
            first_pair(ps, name@, i as int) == first_pair(ps, name@, 0),
        decreases pairs.len() - i,
    {
        assert(ps[i as int].0 == pairs[i as int].0@);
        if str_eq(pairs[i].0.as_str(), name) {
            return Some(i);
        }
        i += 1;
    }
    None
}

fn name_position(names: &Vec<String>, name: &str) -> (r: Option<usize>)
    ensures
        match r {
            Some(i) => first_name(names_view(names@), name@, 0) == Some(i as int),
            None => first_name(names_view(names@), name@, 0).is_none(),
        },
{
    let ghost ns = names_view(names@);
    let mut i: usize = 0;
    while i < names.len()
        invariant
            i <= names.len(),
            ns == names_view(names@),
            first_name(ns, name@, i as int) == first_name(ns, name@, 0),
        decreases names.len() - i,
    {
        assert(ns[i as int] == names[i as int]@);
        if str_eq(names[i].as_str(), name) {
            return Some(i);
        }
        i += 1;
    }
    None
}

/// The key that the pairs make under an index, if the index's columns are
/// those of the pairs.
fn covering_key(index_columns: &Vec<String>, pairs: &Vec<(String, Value)>) -> (r: Option<
    Vec<Value>,
>)
    ensures
        match r {
            Some(key) => covers(names_view(index_columns@), eq_pairs_view(pairs@)) && values_view(
                key@,
            ) == eq_key(names_view(index_columns@), eq_pairs_view(pairs@)),
            None => !covers(names_view(index_columns@), eq_pairs_view(pairs@)),
        },
{
    let ghost ics = names_view(index_columns@);
    let ghost ps = eq_pairs_view(pairs@);
    let mut j: usize = 0;
    while j < pairs.len()
        invariant
            j <= pairs.len(),
            ics == names_view(index_columns@),
            ps == eq_pairs_view(pairs@),
            forall|k: int| 0 <= k < j ==> (#[trigger] first_name(ics, ps[k].0, 0)).is_some(),
        decreases pairs.len() - j,
    {
        assert(ps[j as int].0 == pairs[j as int].0@);
        if name_position(index_columns, pairs[j].0.as_str()).is_none() {
            return None;
        }
        j += 1;
    }
    let mut key: Vec<Value> = Vec::new();
    let mut i: usize = 0;
    while i < index_columns.len()
        invariant
            i <= index_columns.len(),
            ics == names_view(index_columns@),
            ps == eq_pairs_view(pairs@),
            key.len() == i,
            forall|k: int| 0 <= k < ps.len() ==> (#[trigger] first_name(ics, ps[k].0, 0)).is_some(),
            forall|k: int| 0 <= k < i ==> (#[trigger] first_pair(ps, ics[k], 0)).is_some(),
            forall|k: int| 0 <= k < i ==> key[k]@ == ps[first_pair(ps, ics[k], 0).unwrap()].1,
        decreases index_columns.len() - i,
    {
        assert(ics[i as int] == index_columns[i as int]@);
        match pair_position(pairs, index_columns[i].as_str()) {
            None => {
                return None;
            },
            Some(p) => {
                assert(ps[p as int].1 == pairs[p as int].1@);
                key.push(pairs[p].1.copy());
            },
        }
        i += 1;
    }
    assert(values_view(key@) =~= eq_key(ics, ps));
    Some(key)
}

fn same_names(names: &Vec<String>, column: &str) -> (b: bool)
    ensures
        b == (names_view(names@) == seq![column@]),
{
    if names.len() != 1 {
        assert(names_view(names@).len() != 1);
        return false;
    }
    assert(names_view(names@)[0] == names[0]@);
    if str_eq(names[0].as_str(), column) {
        assert(names_view(names@) =~= seq![column@]);
        true
    } else {
        false
    }
}

fn copy_positions(src: &Vec<(usize, usize)>) -> (r: Vec<(usize, usize)>)
    ensures
        r@ == src@,
{
    let mut r: Vec<(usize, usize)> = Vec::new();
    let mut i: usize = 0;
    while i < src.len()
        invariant
            i <= src.len(),
            r@ == src@.subrange(0, i as int),
        decreases src.len() - i,
    {
        r.push(src[i]);
        assert(r@ =~= src@.subrange(0, i + 1));
        i += 1;
    }
    assert(src@.subrange(0, src.len() as int) =~= src@);
    r
}

impl Database {
    /// Asks the indexes on a table for the positions that a predicate
    /// selects; none if no index fits the predicate.
    pub fn try_index_lookup(&self, table: &Table, filter: &Option<Condition>) -> (r: Option<
        Vec<(usize, usize)>,
    >)
        requires
            self.wf(),
        ensures
            match r {
                Some(ps) => index_positions(self.indexes@, table.name@, filter_view(*filter))
                    == Some(ps@),
                None => index_positions(self.indexes@, table.name@, filter_view(*filter)).is_none(),
            },
    {
        let cond = match filter {
            Some(c) => c,
            None => {
                return None;
            },
        };
        match extract_eq_conditions(cond) {
            Some(pairs) => {
                let ghost ps = eq_pairs_view(pairs@);
                let mut i: usize = 0;
                while i < self.indexes.len()
                    invariant
                        i <= self.indexes.len(),
                        self.wf(),
                        ps == eq_pairs_view(pairs@),
                        filter_view(*filter) == Some(cond@),
                        eq_conditions(cond@) == Some(ps),
                        eq_index(self.indexes@, table.name@, ps, i as int) == eq_index(
                            self.indexes@,
                            table.name@,
                            ps,
                            0,
                        ),
                    decreases self.indexes.len() - i,
                {
                    let idx = &self.indexes[i];
                    if str_eq(idx.table.as_str(), table.name.as_str()) {
                        match covering_key(&idx.columns, &pairs) {
                            Some(key) => {
                                assert(idx.wf());
                                return match idx.search_eq(&key) {
                                    Some(found) => Some(copy_positions(found)),
                                    None => Some(Vec::new()),
                                };
                            },
                            None => {},
                        }
                    }
                    i += 1;
                }
            },
            None => {},
        }
        assert(match eq_conditions(cond@) {
            Some(pairs) => eq_index(self.indexes@, table.name@, pairs, 0).is_none(),
            None => true,
        });
        match extract_range_condition(cond) {
            Some((column, lower, upper)) => {
                let mut i: usize = 0;
                while i < self.indexes.len()
                    invariant
                        i <= self.indexes.len(),
                        filter_view(*filter) == Some(cond@),
                        range_condition(cond@) == Some((column@, lower@, upper@)),
                        match eq_conditions(cond@) {
                            Some(pairs) => eq_index(self.indexes@, table.name@, pairs, 0).is_none(),
                            None => true,
                        },
                        range_index(self.indexes@, table.name@, column@, i as int) == range_index(
                            self.indexes@,
                            table.name@,
                            column@,
                            0,
                        ),
                    decreases self.indexes.len() - i,
                {
                    let idx = &self.indexes[i];
                    if str_eq(idx.table.as_str(), table.name.as_str()) && same_names(
                        &idx.columns,
                        column.as_str(),
                    ) {
                        return Some(idx.search_range(lower, upper));
                    }
                    i += 1;
                }
                None
            },
            None => None,
        }
    }
}

/// Reads the rows at the positions that are visible to the transaction.
pub fn rows_at(
    table: &Table,
    positions: &Vec<(usize, usize)>,
    xid: u32,
    snapshot: &Snapshot,
    tm: &TransactionManager,
) -> (rows: Vec<Row>)
    ensures
        rows_view(rows@) == rows_at_upto(
            table.heap,
            column_types(table.columns@),
            positions@,
            xid,
            snapshot@,
            tm@.transactions,
            positions@.len() as int,
        ),
{
    let ghost schema = column_types(table.columns@);
    let mut rows: Vec<Row> = Vec::new();
    assert(rows_view(rows@) =~= Seq::empty());
    let mut i: usize = 0;
    while i < positions.len()
        invariant
            i <= positions.len(),
            schema == column_types(table.columns@),
            rows_view(rows@) == rows_at_upto(
                table.heap,
                schema,
                positions@,
                xid,
                snapshot@,
                tm@.transactions,
                i as int,
            ),
        decreases positions.len() - i,
    {
        let pos = positions[i];
        if pos.0 <= u32::MAX as usize {
            match table.heap.get_tuple(pos.0 as u32, pos.1, &table.columns) {
                Some((h, row)) => {
                    if h.is_visible(xid, snapshot, tm) {
                        let ghost before = rows_view(rows@);
                        rows.push(row);
                        assert(rows_view(rows@) =~= before.push(row@));
                    }
                },
                None => {},
            }
        }
        i += 1;
    }
    rows
}

/// The places of the columns from the `i`-th name on, appended to `acc`.
pub open spec fn resolved_from(cols: Seq<ColumnRef>, names: Seq<Seq<char>>, i: int, acc: Seq<int>)
    -> Result<Seq<int>, DbErrorView>
    decreases names.len() - i,
{
    if i < 0 || i >= names.len() {
        Ok(acc)
    } else {
        match column_index_of(cols, names[i]) {
            Err(e) => Err(e),
            Ok(p) => resolved_from(cols, names, i + 1, acc.push(p)),
        }
    }
}

/// Whether a column list asks for all columns: its first name is `*`.
pub open spec fn is_star(names: Seq<Seq<char>>) -> bool {
    names.len() > 0 && names[0] == "*"@
}

/// The values of a row at the places; `Internal` if the row is too short.
pub open spec fn projected(row: Seq<ValueView>, places: Seq<int>) -> Result<
    Seq<ValueView>,
    DbErrorView,
> {
    if forall|k: int| 0 <= k < places.len() ==> 0 <= #[trigger] places[k] < row.len() {
        Ok(Seq::new(places.len(), |k: int| row[places[k]]))
    } else {
        Err(DbErrorView::Eval(EvalErrorView::Internal))
    }
}

/// The rows from the `i`-th on that satisfy the predicate, each projected on
/// the places, if there are any, appended to `acc`; or the first error.
pub open spec fn kept_from(
    rows: Seq<Seq<ValueView>>,
    cols: Seq<ColumnRef>,
    filter: Option<ConditionView>,
    places: Option<Seq<int>>,
    i: int,
    acc: Seq<Seq<ValueView>>,
) -> Result<Seq<Seq<ValueView>>, DbErrorView>
    decreases rows.len() - i,
{
    if i < 0 || i >= rows.len() {
        Ok(acc)
    } else {
        let keep = match filter {
            None => Ok(true),
            Some(c) => condition_value(
                c,
                RowEnv {
                    left_cols: cols,
                    left_row: rows[i],
                    right_cols: Seq::empty(),
                    right_row: Seq::empty(),
                },
            ),
        };
        match keep {
            Err(e) => Err(DbErrorView::Eval(e)),
            Ok(false) => kept_from(rows, cols, filter, places, i + 1, acc),
            Ok(true) => match places {
                None => kept_from(rows, cols, filter, places, i + 1, acc.push(rows[i])),
                Some(ps) => match projected(rows[i], ps) {
                    Err(e) => Err(e),
                    Ok(out) => kept_from(rows, cols, filter, places, i + 1, acc.push(out)),
                },
            },
        }
    }
}

impl Database {
    /// The row list that a SELECT reads: the materialized row list that it
    /// is given; or, of a table, the rows that an index gives for the
    /// predicate, if one fits it, else all rows; in both cases only those
    /// visible to the transaction.
    pub open spec fn select_source(
        &self,
        arg: TableArgView,
        filter: Option<ConditionView>,
        xid: u32,
        snapshot: SnapshotView,
    ) -> Result<JoinTableView, DbErrorView> {
        match arg {
            TableArgView::JoinTable(j) => Ok(j),
            TableArgView::TableName(name) => match table_position(self.tables@, name, 0) {
                None => Err(DbErrorView::TableDoesNotExist(name)),
                Some(t) => {
                    let table = self.tables@[t];
                    match index_positions(self.indexes@, table.name@, filter) {
                        Some(ps) => Ok(
                            JoinTableView {
                                columns: aliased_columns(name, table.columns@),
                                rows: rows_at_upto(
                                    table.heap,
                                    column_types(table.columns@),
                                    ps,
                                    xid,
                                    snapshot,
                                    self.transaction_manager@.transactions,
                                    ps.len() as int,
                                ),
                            },
                        ),
                        None => Ok(self.table_rows(t, name, xid, snapshot)),
                    }
                },
            },
        }
    }

    /// The result of a SELECT: the columns of the row list that it reads,
    /// and the rows of it that satisfy the predicate, projected on the
    /// columns that it names, or whole for `*`.
    pub open spec fn selected(
        &self,
        arg: TableArgView,
        names: Seq<Seq<char>>,
        filter: Option<ConditionView>,
        xid: u32,
        snapshot: SnapshotView,
    ) -> Result<(Seq<ColumnRef>, Seq<Seq<ValueView>>), DbErrorView> {
        match self.select_source(arg, filter, xid, snapshot) {
            Err(e) => Err(e),
            Ok(source) => {
                let places = if is_star(names) {
                    Ok(None)
                } else {
                    match resolved_from(source.columns, names, 0, Seq::empty()) {
                        Err(e) => Err(e),
                        Ok(ps) => Ok(Some(ps)),
                    }
                };
                match places {
                    Err(e) => Err(e),
                    Ok(ps) => match kept_from(
                        source.rows,
                        source.columns,
                        filter,
                        ps,
                        0,
                        Seq::empty(),
                    ) {
                        Err(e) => Err(e),
                        Ok(rows) => Ok((source.columns, rows)),
                    },
                }
            },
        }
    }
}

/// Converts a table into a row list under an alias, with the rows that are
/// visible to the transaction.
pub fn phys_to_join(
    table: &Table,
    alias: &str,
    xid: u32,
    snapshot: &Snapshot,
    tm: &TransactionManager,
) -> (j: JoinTable)
    requires
        table.wf(),
    ensures
        j@ == (JoinTableView {
            columns: aliased_columns(alias@, table.columns@),
            rows: visible_rows(
                table.heap.tuples(column_types(table.columns@)),
                xid,
                snapshot@,
                tm@.transactions,
            ),
        }),
{
    let columns = single_meta(alias, &table.columns);
    let scanned = table.heap.scan_all(&table.columns);
    let rows = keep_visible(scanned, xid, snapshot, tm);
    JoinTable { columns, rows }
}

fn resolve_names(cols: &Vec<JoinTableColumn>, names: &Vec<String>) -> (r: Result<
    Vec<usize>,
    DbError,
>)
    ensures
        match r {
            Ok(ps) => resolved_from(column_refs(cols@), names_view(names@), 0, Seq::empty())
                == Ok::<_, DbErrorView>(crate::executer::help_functions::positions_view(ps@)),
            Err(e) => resolved_from(column_refs(cols@), names_view(names@), 0, Seq::empty())
                == Err::<Seq<int>, _>(e@),
        },
{
    let ghost ns = names_view(names@);
    let mut ps: Vec<usize> = Vec::new();
    assert(crate::executer::help_functions::positions_view(ps@) =~= Seq::empty());
    let mut i: usize = 0;
    while i < names.len()
        invariant
            i <= names.len(),
            ns == names_view(names@),
            resolved_from(column_refs(cols@), ns, 0, Seq::empty()) == resolved_from(
                column_refs(cols@),
                ns,
                i as int,
                crate::executer::help_functions::positions_view(ps@),
            ),
        decreases names.len() - i,
    {
        assert(ns[i as int] == names[i as int]@);
        match find_idx(cols, names[i].as_str()) {
            Err(e) => {
                return Err(e);
            },
            Ok(p) => {
                let ghost before = crate::executer::help_functions::positions_view(ps@);
                ps.push(p);
                assert(crate::executer::help_functions::positions_view(ps@) =~= before.push(
                    p as int,
                ));
            },
        }
        i += 1;
    }
    Ok(ps)
}

fn project_row(row: &Row, places: &Vec<usize>) -> (r: Result<Row, DbError>)
    ensures
        match r {
            Ok(out) => projected(row@, crate::executer::help_functions::positions_view(places@))
                == Ok::<_, DbErrorView>(out@),
            Err(e) => projected(row@, crate::executer::help_functions::positions_view(places@))
                == Err::<Seq<ValueView>, _>(e@),
        },
{
    let ghost ps = crate::executer::help_functions::positions_view(places@);
    let mut values: Vec<Value> = Vec::new();
    let mut k: usize = 0;
    while k < places.len()
        invariant
            k <= places.len(),
            ps == crate::executer::help_functions::positions_view(places@),
            values.len() == k,
            forall|j: int| 0 <= j < k ==> 0 <= (#[trigger] ps[j]) < row@.len(),
            forall|j: int| 0 <= j < k ==> values[j]@ == row@[ps[j]],
        decreases places.len() - k,
    {
        let p = places[k];
        assert(ps[k as int] == p);
        if p >= row.values.len() {
            return Err(DbError::Eval(EvalError::Internal));
        }
        assert(row@[p as int] == row.values[p as int]@);
        values.push(row.values[p].copy());
        k += 1;
    }
    let out = Row { values };
    assert(out@ =~= Seq::new(ps.len(), |k: int| row@[ps[k]]));
    Ok(out)
}

fn keep_rows(
    source: &JoinTable,
    filter: &Option<Condition>,
    places: &Option<Vec<usize>>,
) -> (r: Result<Vec<Row>, DbError>)
    ensures
        match r {
            Ok(rows) => kept_from(
                source@.rows,
                source@.columns,
                filter_view(*filter),
                match places {
                    Some(p) => Some(crate::executer::help_functions::positions_view(p@)),
                    None => None,
                },
                0,
                Seq::empty(),
            ) == Ok::<_, DbErrorView>(rows_view(rows@)),
            Err(e) => kept_from(
                source@.rows,
                source@.columns,
                filter_view(*filter),
                match places {
                    Some(p) => Some(crate::executer::help_functions::positions_view(p@)),
                    None => None,
                },
                0,
                Seq::empty(),
            ) == Err::<Seq<Seq<ValueView>>, _>(e@),
        },
{
    let ghost sv = source@;
    let ghost pv = match places {
        Some(p) => Some(crate::executer::help_functions::positions_view(p@)),
        None => None,
    };
    let mut rows: Vec<Row> = Vec::new();
    assert(rows_view(rows@) =~= Seq::empty());
    let mut i: usize = 0;
    while i < source.rows.len()
        invariant
            i <= source.rows.len(),
            sv == source@,
            pv == match places {
                Some(p) => Some(crate::executer::help_functions::positions_view(p@)),
                None => None,
            },
            kept_from(sv.rows, sv.columns, filter_view(*filter), pv, 0, Seq::empty())
                == kept_from(
                sv.rows,
                sv.columns,
                filter_view(*filter),
                pv,
                i as int,
                rows_view(rows@),
            ),
        decreases source.rows.len() - i,
    {
        let row = &source.rows[i];
        assert(sv.rows[i as int] == row@);
        let keep = match filter {
            None => true,
            Some(c) => match eval_condition(c, row, &source.columns, None, None) {
                Ok(b) => b,
                Err(e) => {
                    return Err(DbError::Eval(e));
                },
            },
        };
        if keep {
            let ghost before = rows_view(rows@);
            match places {
                None => {
                    let whole = Row { values: copy_values(&row.values) };
                    rows.push(whole);
                    assert(rows_view(rows@) =~= before.push(row@));
                },
                Some(ps) => match project_row(row, ps) {
                    Err(e) => {
                        return Err(e);
                    },
                    Ok(out) => {
                        rows.push(out);
                        assert(rows_view(rows@) =~= before.push(out@));
                    },
                },
            }
        }
        i += 1;
    }
    Ok(rows)
}

impl Database {
    /// Executes a SELECT on a table or on a materialized row list.
    pub fn select(
        &self,
        table_arg: TableArg,
        column_names: &Vec<String>,
        filter: Option<Condition>,
        xid: u32,
        snapshot: &Snapshot,
    ) -> (r: Result<(Vec<JoinTableColumn>, Vec<Row>), DbError>)
        requires
            self.wf(),
        ensures
            match r {
                Ok((cols, rows)) => self.selected(
                    table_arg@,
                    names_view(column_names@),
                    filter_view(filter),
                    xid,
                    snapshot@,
                ) == Ok::<_, DbErrorView>((column_refs(cols@), rows_view(rows@))),
                Err(e) => self.selected(
                    table_arg@,
                    names_view(column_names@),
                    filter_view(filter),
                    xid,
                    snapshot@,
                ) == Err::<(Seq<ColumnRef>, Seq<Seq<ValueView>>), _>(e@),
            },
    {
        let source: JoinTable = match table_arg {
            TableArg::JoinTable(jt) => jt,
            TableArg::TableName(name) => {
                let t = match self.find_table(name.as_str()) {
                    Some(t) => t,
                    None => {
                        return Err(DbError::TableDoesNotExist(name));
                    },
                };
                let table = &self.tables[t];
                assert(table.wf());
                match self.try_index_lookup(table, &filter) {
                    Some(positions) => {
                        let rows = rows_at(
                            table,
                            &positions,
                            xid,
                            snapshot,
                            &self.transaction_manager,
                        );
                        JoinTable { columns: single_meta(name.as_str(), &table.columns), rows }
                    },
                    None => phys_to_join(
                        table,
                        name.as_str(),
                        xid,
                        snapshot,
                        &self.transaction_manager,
                    ),
                }
            },
        };
        let star = column_names.len() > 0 && str_eq(column_names[0].as_str(), "*");
        assert(column_names.len() > 0 ==> names_view(column_names@)[0] == column_names[0]@);
        let places: Option<Vec<usize>> = if star {
            None
        } else {
            match resolve_names(&source.columns, column_names) {
                Ok(ps) => Some(ps),
                Err(e) => {
                    return Err(e);
                },
            }
        };
        match keep_rows(&source, &filter, &places) {
            Ok(rows) => Ok((source.columns, rows)),
            Err(e) => Err(e),
        }
    }
}

} // verus!
