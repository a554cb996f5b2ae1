use crate::errors::engine_error::{DbError, DbErrorView};
use crate::errors::eval_error::EvalErrorView;
use crate::executer::filter::{bool_result_view, condition_value, eval_condition, RowEnv};
use crate::executer::help_functions::{
    child_failure, ensure_not_referenced, failure_view, key_of, not_referenced_failure,
    reference_failure, references_failure,
};
use crate::executer::insert::{index_keys_failure, opt_key_view};
use crate::executer::join::{aliased_columns, column_refs, single_meta, ColumnRef, JoinTableColumn};
use crate::storage::codec::column_types;
use crate::storage::heap_file::{scan_view, HeapFile, StoredTuple};
use crate::storage::tuple_header::{visible, xmax_of};
use crate::storage::tuple_laws::{
    lemma_heap_tuples_after_stamp, lemma_heap_tuples_ordered, lemma_layout_delete_error,
    lemma_scanned_deletable, lemma_stamped_layout, same_layout, stamped_tuples, with_xmax,
};
use crate::types::b_tree::{entries_without, BTreeIndex, EntryView};
use crate::types::page_types::TupleHeader;
use crate::types::parser_types::{filter_view, Condition, ConditionView};
use crate::types::storage_types::{
    names_view, table_position, values_view, Column, Database, Row, Table, Value, ValueView,
};
use crate::types::transaction_types::{Snapshot, SnapshotView, TransactionManager, TxStatus};
use vstd::prelude::*;

verus! {

/// Whether a DELETE or an UPDATE takes a tuple: it is visible to the
/// transaction and satisfies the predicate, if there is one.
pub open spec fn takes(
    t: StoredTuple,
    cols: Seq<ColumnRef>,
    filter: Option<ConditionView>,
    xid: u32,
    snapshot: SnapshotView,
    statuses: Map<u32, TxStatus>,
) -> Result<bool, EvalErrorView> {
    if !visible(t.header, xid, snapshot, statuses) {
        Ok(false)
    } else {
        match filter {
            None => Ok(true),
            Some(c) => condition_value(
                c,
                RowEnv {
                    left_cols: cols,
                    left_row: t.row,
                    right_cols: Seq::empty(),
                    right_row: Seq::empty(),
                },
            ),
        }
    }
}

/// The tuples after the DELETE by `xid` has gone through the first `n` of
/// them: those that it took have `xid` as their deleter.
pub open spec fn deleted_tuples(
    tuples: Seq<StoredTuple>,
    cols: Seq<ColumnRef>,
    filter: Option<ConditionView>,
    xid: u32,
    snapshot: SnapshotView,
    statuses: Map<u32, TxStatus>,
    n: int,
) -> Seq<StoredTuple> {
    Seq::new(
        tuples.len(),
        |k: int|
            if k < n && takes(tuples[k], cols, filter, xid, snapshot, statuses) == Ok::<
                bool,
                EvalErrorView,
            >(true) {
                StoredTuple { header: with_xmax(tuples[k].header, xmax_of(xid)), ..tuples[k] }
            } else {
                tuples[k]
            },
    )
}

/// How many of the first `n` tuples the statement takes.
pub open spec fn taken_count(
    tuples: Seq<StoredTuple>,
    cols: Seq<ColumnRef>,
    filter: Option<ConditionView>,
    xid: u32,
    snapshot: SnapshotView,
    statuses: Map<u32, TxStatus>,
    n: int,
) -> nat
    decreases n,
{
    if n <= 0 {
        0
    } else {
        taken_count(tuples, cols, filter, xid, snapshot, statuses, n - 1) + if takes(
            tuples[n - 1],
            cols,
            filter,
            xid,
            snapshot,
            statuses,
        ) == Ok::<bool, EvalErrorView>(true) {
            1nat
        } else {
            0nat
        }
    }
}

/// The entries of an index after the DELETE has gone through the first `n`
/// tuples: the position of each tuple that it took is gone from the
/// tuple's key.
pub open spec fn entries_after_deletes(
    es: Seq<EntryView>,
    index_columns: Seq<Seq<char>>,
    table_columns: Seq<Column>,
    tuples: Seq<StoredTuple>,
    cols: Seq<ColumnRef>,
    filter: Option<ConditionView>,
    xid: u32,
    snapshot: SnapshotView,
    statuses: Map<u32, TxStatus>,
    n: int,
) -> Seq<EntryView>
    decreases n,
{
    if n <= 0 {
        es
    } else {
        let prev = entries_after_deletes(
            es,
            index_columns,
            table_columns,
            tuples,
            cols,
            filter,
            xid,
            snapshot,
            statuses,
            n - 1,
        );
        if takes(tuples[n - 1], cols, filter, xid, snapshot, statuses) == Ok::<bool, EvalErrorView>(
            true,
        ) {
            entries_without(
                prev,
                key_of(index_columns, table_columns, tuples[n - 1].row)->Ok_0,
                (tuples[n - 1].page_no as usize, tuples[n - 1].slot_no as usize),
            )
        } else {
            prev
        }
    }
}

impl Database {
    /// Where a DELETE on the table at `t` stops, counted in tuples of the
    /// scan from the `i`-th on, and why: at the end, or at the first tuple
    /// on which the predicate fails, which a foreign key of another table
    /// references, or for which the key of an index cannot be built.
    pub open spec fn delete_stop(
        &self,
        t: int,
        tuples: Seq<StoredTuple>,
        filter: Option<ConditionView>,
        xid: u32,
        snapshot: SnapshotView,
        i: int,
    ) -> (int, Option<DbErrorView>)
        decreases tuples.len() - i,
    {
        let table = self.tables@[t];
        if i < 0 || i >= tuples.len() {
            (tuples.len() as int, None)
        } else {
            match takes(
                tuples[i],
                aliased_columns(table.name@, table.columns@),
                filter,
                xid,
                snapshot,
                self.transaction_manager@.transactions,
            ) {
                Err(e) => (i, Some(DbErrorView::Eval(e))),
                Ok(false) => self.delete_stop(t, tuples, filter, xid, snapshot, i + 1),
                Ok(true) => match not_referenced_failure(self.tables@, table.name@, tuples[i].row) {
                    Some(e) => (i, Some(e)),
                    None => match index_keys_failure(
                        self.indexes@,
                        table.name@,
                        table.columns@,
                        tuples[i].row,
                        0,
                    ) {
                        Some(e) => (i, Some(e)),
                        None => self.delete_stop(t, tuples, filter, xid, snapshot, i + 1),
                    },
                },
            }
        }
    }

    /// Whether `after` is this database after the DELETE by `xid` has gone
    /// through the first `n` tuples of the table at `t`: the tuples that it
    /// took have `xid` as their deleter, and their positions are gone from
    /// every index on the table. Everything else is as it was.
    pub open spec fn rows_deleted(
        &self,
        after: Database,
        t: int,
        filter: Option<ConditionView>,
        xid: u32,
        snapshot: SnapshotView,
        n: int,
    ) -> bool {
        let table = self.tables@[t];
        let schema = column_types(table.columns@);
        let cols = aliased_columns(table.name@, table.columns@);
        let statuses = self.transaction_manager@.transactions;
        &&& after.transaction_manager == self.transaction_manager
        &&& after.tables@.len() == self.tables@.len()
        &&& forall|i: int|
            0 <= i < self.tables@.len() && i != t ==> after.tables@[i] == self.tables@[i]
        &&& after.tables@[t].name == table.name
        &&& after.tables@[t].columns == table.columns
        &&& after.tables@[t].primary_key == table.primary_key
        &&& after.tables@[t].foreign_keys == table.foreign_keys
        &&& after.tables@[t].heap.path == table.heap.path
        &&& same_layout(after.tables@[t].heap, table.heap)
        &&& after.tables@[t].heap.tuples(schema) == deleted_tuples(
            table.heap.tuples(schema),
            cols,
            filter,
            xid,
            snapshot,
            statuses,
            n,
        )
        &&& after.indexes@.len() == self.indexes@.len()
        &&& forall|i: int|
            0 <= i < self.indexes@.len() ==> if self.indexes@[i].table@ == table.name@ {
                &&& (#[trigger] after.indexes@[i]).name == self.indexes@[i].name
                &&& after.indexes@[i].table == self.indexes@[i].table
                &&& after.indexes@[i].columns == self.indexes@[i].columns
                &&& after.indexes@[i].entries() == entries_after_deletes(
                    self.indexes@[i].entries(),
                    names_view(self.indexes@[i].columns@),
                    table.columns@,
                    table.heap.tuples(schema),
                    cols,
                    filter,
                    xid,
                    snapshot,
                    statuses,
                    n,
                )
            } else {
                after.indexes@[i] == self.indexes@[i]
            }
    }

    /// Takes a position from the indexes, each under its key.
    pub fn remove_from_indexes(&mut self, keys: Vec<Option<Vec<Value>>>, pos: (usize, usize))
        requires
            old(self).wf(),
            keys@.len() == old(self).indexes@.len(),
        ensures
            final(self).wf(),
            final(self).tables == old(self).tables,
            final(self).transaction_manager == old(self).transaction_manager,
            final(self).indexes@.len() == old(self).indexes@.len(),
            forall|i: int|
                0 <= i < old(self).indexes@.len() ==> match keys@[i] {
                    Some(key) => (#[trigger] old(self).indexes@[i]).removed(
                        final(self).indexes@[i],
                        values_view(key@),
                        pos,
                    ),
                    None => final(self).indexes@[i] == old(self).indexes@[i],
                },
    {
        let mut i: usize = 0;
        while i < self.indexes.len()
            invariant
                i <= self.indexes@.len(),
                keys@.len() == old(self).indexes@.len(),
                self.indexes@.len() == old(self).indexes@.len(),
                self.tables == old(self).tables,
                self.transaction_manager == old(self).transaction_manager,
                self.wf(),
                forall|j: int| i <= j < self.indexes@.len() ==> self.indexes@[j] == old(self).indexes@[j],
                forall|j: int|
                    0 <= j < i ==> match keys@[j] {
                        Some(key) => (#[trigger] old(self).indexes@[j]).removed(
                            self.indexes@[j],
                            values_view(key@),
                            pos,
                        ),
                        None => self.indexes@[j] == old(self).indexes@[j],
                    },
            decreases self.indexes.len() - i,
        {
            match &keys[i] {
                Some(k) => {
                    assert(self.indexes@[i as int].wf());
                    self.indexes[i].remove(k, pos);
                },
                None => {},
            }
            i += 1;
        }
    }
}

/// Whether a table refers to another depends on the other's name and
/// columns only.
proof fn lemma_child_failure_same(a: Table, b: Table, child: Table, row: Seq<ValueView>, i: int)
    requires
        a.name@ == b.name@,
        a.columns@ == b.columns@,
    ensures
        child_failure(a, child, row, i) == child_failure(b, child, row, i),
    decreases child.foreign_keys@.len() - i,
{
    if 0 <= i < child.foreign_keys@.len() {
        lemma_child_failure_same(a, b, child, row, i + 1);
    }
}

proof fn lemma_references_same(
    xs: Seq<Table>,
    ys: Seq<Table>,
    a: Table,
    b: Table,
    row: Seq<ValueView>,
    t: int,
)
    requires
        xs.len() == ys.len(),
        a.name@ == b.name@,
        a.columns@ == b.columns@,
        forall|i: int| 0 <= i < xs.len() ==> (#[trigger] xs[i]).name@ == ys[i].name@,
        forall|i: int| 0 <= i < xs.len() && xs[i].name@ != a.name@ ==> (#[trigger] xs[i]) == ys[i],
    ensures
        references_failure(xs, a, row, t) == references_failure(ys, b, row, t),
    decreases xs.len() - t,
{
    if 0 <= t < xs.len() {
        lemma_references_same(xs, ys, a, b, row, t + 1);
        assert(xs[t].name@ == ys[t].name@);
        if xs[t].name@ != a.name@ {
            assert(xs[t] == ys[t]);
            lemma_child_failure_same(a, b, xs[t], row, 0);
        }
    }
}

proof fn lemma_table_position_same(xs: Seq<Table>, ys: Seq<Table>, name: Seq<char>, i: int)
    requires
        xs.len() == ys.len(),
        forall|k: int| 0 <= k < xs.len() ==> (#[trigger] xs[k]).name@ == ys[k].name@,
    ensures
        table_position(xs, name, i) == table_position(ys, name, i),
    decreases xs.len() - i,
{
    if 0 <= i < xs.len() {
        lemma_table_position_same(xs, ys, name, i + 1);
    }
}

/// Whether the keys of a row can be built depends on the tables and the
/// columns of the indexes only.
proof fn lemma_index_keys_failure_same(
    xs: Seq<BTreeIndex>,
    ys: Seq<BTreeIndex>,
    table_name: Seq<char>,
    columns: Seq<Column>,
    row: Seq<ValueView>,
    i: int,
)
    requires
        xs.len() == ys.len(),
        forall|k: int|
            0 <= k < xs.len() ==> (#[trigger] xs[k]).table@ == ys[k].table@ && xs[k].columns@
                == ys[k].columns@,
    ensures
        index_keys_failure(xs, table_name, columns, row, i) == index_keys_failure(
            ys,
            table_name,
            columns,
            row,
            i,
        ),
    decreases xs.len() - i,
{
    if 0 <= i < xs.len() {
        lemma_index_keys_failure_same(xs, ys, table_name, columns, row, i + 1);
        assert(xs[i].table@ == ys[i].table@ && xs[i].columns@ == ys[i].columns@);
    }
}

impl Database {
    /// After the DELETE has gone through some tuples, the checks on the
    /// next one come out as they would have before.
    pub proof fn lemma_checks_unchanged(
        &self,
        after: Database,
        t: int,
        filter: Option<ConditionView>,
        xid: u32,
        snapshot: SnapshotView,
        n: int,
        row: Seq<ValueView>,
    )
        requires
            0 <= t < self.tables@.len(),
            table_position(self.tables@, self.tables@[t].name@, 0) == Some(t),
            self.rows_deleted(after, t, filter, xid, snapshot, n),
        ensures
            not_referenced_failure(after.tables@, self.tables@[t].name@, row)
                == not_referenced_failure(self.tables@, self.tables@[t].name@, row),
            index_keys_failure(
                after.indexes@,
                self.tables@[t].name@,
                self.tables@[t].columns@,
                row,
                0,
            ) == index_keys_failure(
                self.indexes@,
                self.tables@[t].name@,
                self.tables@[t].columns@,
                row,
                0,
            ),
    {
        let name = self.tables@[t].name@;
        assert forall|k: int| 0 <= k < self.tables@.len() implies (#[trigger] after.tables@[k]).name@
            == self.tables@[k].name@ by {
            if k != t {
                assert(after.tables@[k] == self.tables@[k]);
            }
        }
        lemma_table_position_same(after.tables@, self.tables@, name, 0);
        assert forall|k: int|
            0 <= k < self.tables@.len() && after.tables@[k].name@ != name implies (
        #[trigger] after.tables@[k]) == self.tables@[k] by {
            assert(k != t);
        }
        lemma_references_same(after.tables@, self.tables@, after.tables@[t], self.tables@[t], row, 0);
        assert forall|k: int| 0 <= k < self.indexes@.len() implies (
        #[trigger] after.indexes@[k]).table@ == self.indexes@[k].table@ && after.indexes@[k].columns@
            == self.indexes@[k].columns@ by {
            if self.indexes@[k].table@ == name {
            } else {
                assert(after.indexes@[k] == self.indexes@[k]);
            }
        }
        lemma_index_keys_failure_same(
            after.indexes@,
            self.indexes@,
            name,
            self.tables@[t].columns@,
            row,
            0,
        );
    }

    /// Deletes the rows of a table that are visible to the transaction and
    /// satisfy the predicate; all visible rows if there is no predicate.
    /// Each row is first checked against the foreign keys that reference
    /// the table; then `xid` is recorded as its deleter and its position is
    /// taken from every index on the table. Returns the number of rows
    /// deleted. A failure stops the statement; the rows before are deleted.
    pub fn delete(
        &mut self,
        table_name: &str,
        filter: Option<Condition>,
        xid: u32,
        snapshot: &Snapshot,
    ) -> (r: Result<usize, DbError>)
        requires
            old(self).wf(),
        ensures
            final(self).wf(),
            match table_position(old(self).tables@, table_name@, 0) {
                None => r matches Err(e) && e@ == DbErrorView::TableDoesNotExist(table_name@)
                    && final(self).same_as(*old(self)),
                Some(t) => {
                    let table = old(self).tables@[t];
                    let tuples = table.heap.tuples(column_types(table.columns@));
                    let stop = old(self).delete_stop(
                        t,
                        tuples,
                        filter_view(filter),
                        xid,
                        snapshot@,
                        0,
                    );
                    &&& old(self).rows_deleted(
                        *final(self),
                        t,
                        filter_view(filter),
                        xid,
                        snapshot@,
                        stop.0,
                    )
                    &&& match r {
                        Ok(n) => stop.1.is_none() && n == taken_count(
                            tuples,
                            aliased_columns(table.name@, table.columns@),
                            filter_view(filter),
                            xid,
                            snapshot@,
                            old(self).transaction_manager@.transactions,
                            tuples.len() as int,
                        ),
                        Err(e) => stop.1 == Some(e@),
                    }
                },
            },
    {
        let t = match self.find_table(table_name) {
            Some(t) => t,
            None => {
                return Err(DbError::TableDoesNotExist(table_name.to_owned()));
            },
        };
        assert(self.tables@[t as int].wf());
        let metas = single_meta(self.tables[t].name.as_str(), &self.tables[t].columns);
        let rows = self.tables[t].heap.scan_all(&self.tables[t].columns);
        let ghost table = old(self).tables@[t as int];
        let ghost schema = column_types(table.columns@);
        let ghost tuples = table.heap.tuples(schema);
        let ghost cols = aliased_columns(table.name@, table.columns@);
        let ghost statuses = old(self).transaction_manager@.transactions;
        let ghost f = filter_view(filter);
        proof {
            lemma_scanned_deletable(table.heap, schema);
            lemma_heap_tuples_ordered(table.heap.pages@, schema, table.heap.pages@.len() as int);
            assert(self.tables@[t as int].heap.tuples(schema) =~= deleted_tuples(
                tuples,
                cols,
                f,
                xid,
                snapshot@,
                statuses,
                0,
            ));
        }
        let mut count: usize = 0;
        let mut k: usize = 0;
        while k < rows.len()
            invariant
                k <= rows.len(),
                t < old(self).tables@.len(),
                table == old(self).tables@[t as int],
                table_position(old(self).tables@, table_name@, 0) == Some(t as int),
                table.name@ == table_name@,
                old(self).wf(),
                self.wf(),
                schema == column_types(table.columns@),
                tuples == table.heap.tuples(schema),
                cols == aliased_columns(table.name@, table.columns@),
                column_refs(metas@) == cols,
                statuses == old(self).transaction_manager@.transactions,
                f == filter_view(filter),
                scan_view(rows@) == tuples,
                count <= k,
                count == taken_count(tuples, cols, f, xid, snapshot@, statuses, k as int),
                old(self).rows_deleted(*self, t as int, f, xid, snapshot@, k as int),
                old(self).delete_stop(t as int, tuples, f, xid, snapshot@, 0)
                    == old(self).delete_stop(t as int, tuples, f, xid, snapshot@, k as int),
                forall|j: int|
                    0 <= j < tuples.len() ==> {
                        let x = #[trigger] tuples[j];
                        &&& table.heap.delete_error(x.page_no, x.slot_no).is_none()
                        &&& 0 <= x.page_no < table.heap.pages@.len()
                    },
                forall|a: int, b: int|
                    0 <= a < b < tuples.len() ==> {
                        let x = #[trigger] tuples[a];
                        let y = #[trigger] tuples[b];
                        x.page_no < y.page_no || (x.page_no == y.page_no && x.slot_no < y.slot_no)
                    },
            decreases rows.len() - k,
        {
            let ghost cur = *self;
            let ghost tk = tuples[k as int];
            assert(tk.header == rows[k as int].2@ && tk.row == rows[k as int].3@ && tk.page_no
                == rows[k as int].0 && tk.slot_no == rows[k as int].1);
            let mut take = rows[k].2.is_visible(xid, snapshot, &self.transaction_manager);
            if take {
                match &filter {
                    None => {},
                    Some(c) => match eval_condition(c, &rows[k].3, &metas, None, None) {
                        Ok(b) => {
                            take = b;
                        },
                        Err(e) => {
                            return Err(DbError::Eval(e));
                        },
                    },
                }
            }
            assert(takes(tk, cols, f, xid, snapshot@, statuses) == Ok::<bool, EvalErrorView>(take));
            if take {
                proof {
                    old(self).lemma_checks_unchanged(
                        cur,
                        t as int,
                        f,
                        xid,
                        snapshot@,
                        k as int,
                        tk.row,
                    );
                }
                match ensure_not_referenced(self, table_name, &rows[k].3.values) {
                    Err(e) => {
                        return Err(e);
                    },
                    Ok(()) => {},
                }
                let keys = match self.index_keys(t, &rows[k].3.values) {
                    Ok(keys) => keys,
                    Err(e) => {
                        return Err(e);
                    },
                };
                proof {
                    lemma_layout_delete_error(
                        cur.tables@[t as int].heap,
                        table.heap,
                        tk.page_no,
                        tk.slot_no,
                    );
                }
                assert(self.tables@[t as int].wf());
                match self.tables[t].heap.delete_at(rows[k].0, rows[k].1, xid) {
                    Ok(()) => {},
                    Err(e) => {
                        return Err(DbError::Storage(e));
                    },
                }
                let ghost mid = *self;
                proof {
                    let before = cur.tables@[t as int].heap;
                    let after = mid.tables@[t as int].heap;
                    lemma_heap_tuples_after_stamp(before, after, tk.page_no, tk.slot_no, xid, schema);
                    lemma_stamped_layout(before, after, tk.page_no, tk.slot_no, xid);
                    assert(after.tuples(schema) =~= deleted_tuples(
                        tuples,
                        cols,
                        f,
                        xid,
                        snapshot@,
                        statuses,
                        k + 1,
                    )) by {
                        assert forall|j: int| 0 <= j < tuples.len() implies after.tuples(schema)[j]
                            == deleted_tuples(tuples, cols, f, xid, snapshot@, statuses, k + 1)[j] by {
                            let was = deleted_tuples(tuples, cols, f, xid, snapshot@, statuses, k as int);
                            assert(after.tuples(schema)[j] == crate::storage::tuple_laws::stamp_at(
                                was[j],
                                tk.page_no,
                                tk.slot_no,
                                xid,
                            ));
                            assert(was[j].page_no == tuples[j].page_no && was[j].slot_no
                                == tuples[j].slot_no);
                            if j < k {
                                assert(tuples[j].page_no != tk.page_no || tuples[j].slot_no
                                    != tk.slot_no);
                            } else if j > k {
                                assert(tuples[j].page_no != tk.page_no || tuples[j].slot_no
                                    != tk.slot_no);
                            }
                        }
                    }
                    assert(mid.wf());
                }
                let ghost keys_view = Seq::new(keys@.len(), |i: int| opt_key_view(keys@[i]));
                self.remove_from_indexes(keys, (rows[k].0 as usize, rows[k].1));
                count += 1;
                proof {
                    assert(self.tables@ == mid.tables@);
                    let after = *self;
                    assert(same_layout(after.tables@[t as int].heap, table.heap)) by {
                        crate::storage::tuple_laws::lemma_same_layout_trans(
                            mid.tables@[t as int].heap,
                            cur.tables@[t as int].heap,
                            table.heap,
                        );
                    }
                    assert forall|i: int|
                        0 <= i < old(self).tables@.len() && i != t implies after.tables@[i]
                        == old(self).tables@[i] by {
                        assert(cur.tables@[i] == old(self).tables@[i]);
                    }
                    assert forall|i: int|
                        0 <= i < old(self).indexes@.len() implies if old(self).indexes@[i].table@
                        == table.name@ {
                        &&& (#[trigger] after.indexes@[i]).name == old(self).indexes@[i].name
                        &&& after.indexes@[i].table == old(self).indexes@[i].table
                        &&& after.indexes@[i].columns == old(self).indexes@[i].columns
                        &&& after.indexes@[i].entries() == entries_after_deletes(
                            old(self).indexes@[i].entries(),
                            names_view(old(self).indexes@[i].columns@),
                            table.columns@,
                            tuples,
                            cols,
                            f,
                            xid,
                            snapshot@,
                            statuses,
                            k + 1,
                        )
                    } else {
                        after.indexes@[i] == old(self).indexes@[i]
                    } by {
                        assert(mid.indexes@[i] == cur.indexes@[i]);
                        if old(self).indexes@[i].table@ == table.name@ {
                            assert(cur.indexes@[i].table == old(self).indexes@[i].table);
                            assert(cur.indexes@[i].columns == old(self).indexes@[i].columns);
                            assert(keys_view[i].is_some());
                            assert(cur.indexes@[i].removed(
                                after.indexes@[i],
                                keys_view[i].unwrap(),
                                (rows[k as int].0 as usize, rows[k as int].1),
                            ));
                        } else {
                            assert(cur.indexes@[i] == old(self).indexes@[i]);
                            assert(keys_view[i].is_none());
                        }
                    }
                    assert(old(self).rows_deleted(*self, t as int, f, xid, snapshot@, k + 1));
                }
            } else {
                proof {
                    assert(deleted_tuples(tuples, cols, f, xid, snapshot@, statuses, k + 1)
                        =~= deleted_tuples(tuples, cols, f, xid, snapshot@, statuses, k as int));
                    assert(old(self).rows_deleted(*self, t as int, f, xid, snapshot@, k + 1));
                }
            }
            k += 1;
        }
        Ok(count)
    }
}

} // verus!
