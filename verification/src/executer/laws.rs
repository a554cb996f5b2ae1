use crate::executer::help_functions::{
    all_columns_known, all_null, all_within, any_row_matches, child_failure, fk_failure,
    fks_failure, name_positions, picked, reference_failure, references_failure, row_matches,
    row_reaches, scan_failure,
};
use crate::executer::insert::{key_taken, pk_failure};
use crate::storage::codec::{column_types, encode_tuple, fresh_header, storable};
use crate::storage::heap_file::StoredTuple;
use crate::storage::tuple_header::visible;
use crate::executer::delete::takes;
use crate::executer::index_laws::{lemma_scan_complete, lemma_updated_positions};
use crate::executer::join::aliased_columns;
use crate::storage::codec::lemma_tuple_round_trip;
use crate::executer::update::{key_taken_elsewhere, pk_conflict};
use crate::storage::tuple_laws::{
    lemma_heap_tuples_after_insert, lemma_heap_tuples_ordered, lemma_heap_tuples_places,
};
use crate::storage::tuple_header::xmax_of;
use crate::types::parser_types::ConditionView;
use crate::errors::eval_error::EvalErrorView;
use crate::types::parser_types::foreign_keys_view;
use crate::types::storage_types::{
    column_position, table_position, Column, Database, ForeignKeyView, Table, ValueView,
};
use crate::types::transaction_types::{SnapshotView, TxStatus};
use vstd::prelude::*;

verus! {

/// Whether no two of the tuples that are visible to a transaction have the
/// same value at a position.
pub open spec fn unique_at(
    tuples: Seq<StoredTuple>,
    position: int,
    xid: u32,
    snapshot: SnapshotView,
    statuses: Map<u32, TxStatus>,
) -> bool {
    forall|a: int, b: int|
        0 <= a < tuples.len() && 0 <= b < tuples.len() && a != b && visible(
            (#[trigger] tuples[a]).header,
            xid,
            snapshot,
            statuses,
        ) && visible((#[trigger] tuples[b]).header, xid, snapshot, statuses) && 0 <= position
            < tuples[a].row.len() && position < tuples[b].row.len() ==> tuples[a].row[position]
            != tuples[b].row[position]
}

/// Whether the primary key of a table is unique among the tuples that are
/// visible to a transaction.
pub open spec fn primary_key_unique(
    table: Table,
    xid: u32,
    snapshot: SnapshotView,
    statuses: Map<u32, TxStatus>,
) -> bool {
    match table.primary_key {
        None => true,
        Some(pk) => match column_position(table.columns@, pk@, 0) {
            None => true,
            Some(i) => unique_at(
                table.heap.tuples(column_types(table.columns@)),
                i,
                xid,
                snapshot,
                statuses,
            ),
        },
    }
}

/// An INSERT keeps the primary key unique among the tuples that are
/// visible to the inserting transaction: if no two visible tuples shared a
/// key before, none do after, the new one counted. The row must be one that
/// is read back as it was stored.
pub proof fn lemma_insert_keeps_primary_key_unique(
    before: Database,
    after: Database,
    t: int,
    row: Seq<ValueView>,
    xid: u32,
    snapshot: SnapshotView,
    page_no: int,
    slot_no: int,
)
    requires
        before.wf(),
        0 <= t < before.tables@.len(),
        before.row_inserted(after, t, row, xid, page_no, slot_no),
        pk_failure(before.tables@[t], row, xid, snapshot, before.transaction_manager@.transactions)
            .is_none(),
        storable(row, column_types(before.tables@[t].columns@)),
        primary_key_unique(
            before.tables@[t],
            xid,
            snapshot,
            before.transaction_manager@.transactions,
        ),
    ensures
        primary_key_unique(
            after.tables@[t],
            xid,
            snapshot,
            after.transaction_manager@.transactions,
        ),
{
    let table = before.tables@[t];
    let schema = column_types(table.columns@);
    let statuses = before.transaction_manager@.transactions;
    let old_tuples = table.heap.tuples(schema);
    assert(table.wf());
    lemma_heap_tuples_after_insert(
        table.heap,
        after.tables@[t].heap,
        row,
        xid,
        schema,
        page_no,
        slot_no,
    );
    let new_tuples = after.tables@[t].heap.tuples(schema);
    if let Some(pk) = table.primary_key {
        if let Some(i) = column_position(table.columns@, pk@, 0) {
            assert forall|a: int, b: int|
                0 <= a < new_tuples.len() && 0 <= b < new_tuples.len() && a != b && visible(
                    (#[trigger] new_tuples[a]).header,
                    xid,
                    snapshot,
                    statuses,
                ) && visible((#[trigger] new_tuples[b]).header, xid, snapshot, statuses) && 0 <= i
                    < new_tuples[a].row.len() && i < new_tuples[b].row.len() implies new_tuples[a].row[i]
                != new_tuples[b].row[i] by {
                let last = old_tuples.len() as int;
                if a < last && b < last {
                    assert(new_tuples[a] == old_tuples[a] && new_tuples[b] == old_tuples[b]);
                } else if a == last {
                    assert(new_tuples[b] == old_tuples[b]);
                    assert(!key_taken(old_tuples, i, row[i], xid, snapshot, statuses));
                } else {
                    assert(new_tuples[a] == old_tuples[a]);
                    assert(!key_taken(old_tuples, i, row[i], xid, snapshot, statuses));
                }
            }
        }
    }
}

/// A DELETE keeps the primary key unique among the tuples that are visible
/// to the deleting transaction: what it takes it no longer sees, and the
/// rest is as it was.
pub proof fn lemma_delete_keeps_primary_key_unique(
    before: Database,
    after: Database,
    t: int,
    filter: Option<ConditionView>,
    xid: u32,
    snapshot: SnapshotView,
    n: int,
)
    requires
        xid != 0,
        0 <= t < before.tables@.len(),
        before.rows_deleted(after, t, filter, xid, snapshot, n),
        primary_key_unique(
            before.tables@[t],
            xid,
            snapshot,
            before.transaction_manager@.transactions,
        ),
    ensures
        primary_key_unique(
            after.tables@[t],
            xid,
            snapshot,
            after.transaction_manager@.transactions,
        ),
{
    let table = before.tables@[t];
    let schema = column_types(table.columns@);
    let statuses = before.transaction_manager@.transactions;
    let old_tuples = table.heap.tuples(schema);
    let new_tuples = after.tables@[t].heap.tuples(schema);
    if let Some(pk) = table.primary_key {
        if let Some(i) = column_position(table.columns@, pk@, 0) {
            assert forall|a: int, b: int|
                0 <= a < new_tuples.len() && 0 <= b < new_tuples.len() && a != b && visible(
                    (#[trigger] new_tuples[a]).header,
                    xid,
                    snapshot,
                    statuses,
                ) && visible((#[trigger] new_tuples[b]).header, xid, snapshot, statuses) && 0 <= i
                    < new_tuples[a].row.len() && i < new_tuples[b].row.len() implies new_tuples[a].row[i]
                != new_tuples[b].row[i] by {
                assert(new_tuples[a].row == old_tuples[a].row);
                assert(new_tuples[b].row == old_tuples[b].row);
                assert(new_tuples[a].header == old_tuples[a].header);
                assert(new_tuples[b].header == old_tuples[b].header);
            }
        }
    }
}

/// Replacing one row by its new version keeps the primary key unique among
/// the tuples that are visible to the updating transaction: the old
/// version is no longer visible to it, and the new one was held against
/// every other visible tuple. The new version must be one that is read back
/// as it was stored.
pub proof fn lemma_row_update_keeps_primary_key_unique(
    before: Database,
    after: Database,
    t: int,
    page_no: int,
    slot_no: int,
    row: Seq<ValueView>,
    targets: Seq<Option<ValueView>>,
    xid: u32,
    snapshot: SnapshotView,
)
    requires
        before.wf(),
        after.wf(),
        xid != 0,
        0 <= t < before.tables@.len(),
        before.row_update_failure(t, page_no, slot_no, row, targets, xid, snapshot).is_none(),
        before.row_updated(
            after,
            t,
            page_no,
            slot_no,
            row,
            before.post_image(t, row, targets),
            xid,
        ),
        storable(before.post_image(t, row, targets), column_types(before.tables@[t].columns@)),
        primary_key_unique(
            before.tables@[t],
            xid,
            snapshot,
            before.transaction_manager@.transactions,
        ),
    ensures
        primary_key_unique(
            after.tables@[t],
            xid,
            snapshot,
            after.transaction_manager@.transactions,
        ),
{
    let table = before.tables@[t];
    let schema = column_types(table.columns@);
    let statuses = before.transaction_manager@.transactions;
    let post = before.post_image(t, row, targets);
    let heap0 = table.heap;
    let heap1 = after.tables@[t].heap;
    assert(table.wf());
    assert(after.tables@[t].wf());
    let (np, ns) = choose|np: int, ns: int| #[trigger]
        heap0.updated(heap1, page_no, slot_no, xid, encode_tuple(post, xid), np, ns);
    lemma_updated_positions(heap0, heap1, page_no, slot_no, xid, encode_tuple(post, xid), np, ns, schema);
    lemma_tuple_round_trip(post, xid, schema);
    lemma_heap_tuples_places(heap0.pages@, schema, heap0.pages@.len() as int);
    lemma_heap_tuples_places(heap1.pages@, schema, heap1.pages@.len() as int);
    lemma_heap_tuples_ordered(heap1.pages@, schema, heap1.pages@.len() as int);
    let old_tuples = heap0.tuples(schema);
    let new_tuples = heap1.tuples(schema);
    if let Some(pk) = table.primary_key {
        if let Some(k) = column_position(table.columns@, pk@, 0) {
            // what a tuple of the new file was before, if it is visible and
            // not the new version
            assert forall|a: int|
                0 <= a < new_tuples.len() && visible(
                    (#[trigger] new_tuples[a]).header,
                    xid,
                    snapshot,
                    statuses,
                ) && !(new_tuples[a].page_no == np && new_tuples[a].slot_no == ns) implies exists|
                j: int,
            |
                0 <= j < old_tuples.len() && #[trigger] old_tuples[j] == new_tuples[a] && !(
                old_tuples[j].page_no == page_no && old_tuples[j].slot_no == slot_no) by {
                let p = new_tuples[a].page_no;
                let q = new_tuples[a].slot_no;
                assert(heap1.spec_get_tuple(p, q, schema) == Some(
                    (new_tuples[a].header, new_tuples[a].row),
                ));
                if p == page_no && q == slot_no {
                    assert(new_tuples[a].header.xmax == xmax_of(xid));
                    assert(false);
                }
                assert(heap1.spec_get_tuple(p, q, schema) == heap0.spec_get_tuple(p, q, schema));
                lemma_scan_complete(heap0, schema, p, q);
            }
            assert forall|a: int, b: int|
                0 <= a < new_tuples.len() && 0 <= b < new_tuples.len() && a != b && visible(
                    (#[trigger] new_tuples[a]).header,
                    xid,
                    snapshot,
                    statuses,
                ) && visible((#[trigger] new_tuples[b]).header, xid, snapshot, statuses) && 0 <= k
                    < new_tuples[a].row.len() && k < new_tuples[b].row.len() implies new_tuples[a].row[k]
                != new_tuples[b].row[k] by {
                let x = new_tuples[a];
                let y = new_tuples[b];
                assert(!(x.page_no == y.page_no && x.slot_no == y.slot_no)) by {
                    if a < b {
                        assert(x.page_no < y.page_no || (x.page_no == y.page_no && x.slot_no
                            < y.slot_no));
                    } else {
                        assert(y.page_no < x.page_no || (y.page_no == x.page_no && y.slot_no
                            < x.slot_no));
                    }
                }
                let x_new = x.page_no == np && x.slot_no == ns;
                let y_new = y.page_no == np && y.slot_no == ns;
                assert(heap1.spec_get_tuple(x.page_no, x.slot_no, schema) == Some((x.header, x.row)));
                assert(heap1.spec_get_tuple(y.page_no, y.slot_no, schema) == Some((y.header, y.row)));
                if !x_new && !y_new {
                    let ja = choose|j: int|
                        0 <= j < old_tuples.len() && #[trigger] old_tuples[j] == x && !(
                        old_tuples[j].page_no == page_no && old_tuples[j].slot_no == slot_no);
                    let jb = choose|j: int|
                        0 <= j < old_tuples.len() && #[trigger] old_tuples[j] == y && !(
                        old_tuples[j].page_no == page_no && old_tuples[j].slot_no == slot_no);
                    assert(ja != jb);
                    assert(visible(old_tuples[ja].header, xid, snapshot, statuses));
                    assert(visible(old_tuples[jb].header, xid, snapshot, statuses));
                } else if x_new {
                    assert(x.row == post);
                    let jb = choose|j: int|
                        0 <= j < old_tuples.len() && #[trigger] old_tuples[j] == y && !(
                        old_tuples[j].page_no == page_no && old_tuples[j].slot_no == slot_no);
                    if y.row[k] == post[k] {
                        assert(key_taken_elsewhere(
                            old_tuples,
                            page_no,
                            slot_no,
                            k,
                            post[k],
                            xid,
                            snapshot,
                            statuses,
                        ));
                        assert(pk_conflict(table, page_no, slot_no, post, xid, snapshot, statuses));
                    }
                } else {
                    assert(y.row == post);
                    let ja = choose|j: int|
                        0 <= j < old_tuples.len() && #[trigger] old_tuples[j] == x && !(
                        old_tuples[j].page_no == page_no && old_tuples[j].slot_no == slot_no);
                    if x.row[k] == post[k] {
                        assert(key_taken_elsewhere(
                            old_tuples,
                            page_no,
                            slot_no,
                            k,
                            post[k],
                            xid,
                            snapshot,
                            statuses,
                        ));
                        assert(pk_conflict(table, page_no, slot_no, post, xid, snapshot, statuses));
                    }
                }
            }
        }
    }
}

/// An UPDATE keeps the primary key unique among the tuples that are visible
/// to the updating transaction, as far as the statement has gone. Each new
/// version must be one that is read back as it was stored.
pub proof fn lemma_update_keeps_primary_key_unique(
    before: Database,
    after: Database,
    t: int,
    targets: Seq<Option<ValueView>>,
    filter: Option<ConditionView>,
    xid: u32,
    snapshot: SnapshotView,
    n: int,
)
    requires
        before.wf(),
        after.wf(),
        xid != 0,
        0 <= t < before.tables@.len(),
        0 <= n <= before.tables@[t].heap.tuples(column_types(before.tables@[t].columns@)).len(),
        before.updates_upto(
            after,
            t,
            before.tables@[t].heap.tuples(column_types(before.tables@[t].columns@)),
            targets,
            filter,
            xid,
            snapshot,
            n,
        ),
        forall|k: int|
            0 <= k < n && takes(
                #[trigger] before.tables@[t].heap.tuples(
                    column_types(before.tables@[t].columns@),
                )[k],
                aliased_columns(before.tables@[t].name@, before.tables@[t].columns@),
                filter,
                xid,
                snapshot,
                before.transaction_manager@.transactions,
            ) == Ok::<bool, EvalErrorView>(true) ==> storable(
                before.post_image(
                    t,
                    before.tables@[t].heap.tuples(column_types(before.tables@[t].columns@))[k].row,
                    targets,
                ),
                column_types(before.tables@[t].columns@),
            ),
        primary_key_unique(
            before.tables@[t],
            xid,
            snapshot,
            before.transaction_manager@.transactions,
        ),
    ensures
        primary_key_unique(
            after.tables@[t],
            xid,
            snapshot,
            after.transaction_manager@.transactions,
        ),
        after.transaction_manager == before.transaction_manager,
        after.tables@.len() == before.tables@.len(),
        after.tables@[t].columns == before.tables@[t].columns,
    decreases n,
{
    let table = before.tables@[t];
    let schema = column_types(table.columns@);
    let tuples = table.heap.tuples(schema);
    let cols = aliased_columns(table.name@, table.columns@);
    let statuses = before.transaction_manager@.transactions;
    if n <= 0 {
        assert(after.tables@ =~= before.tables@);
    } else if takes(tuples[n - 1], cols, filter, xid, snapshot, statuses) == Ok::<
        bool,
        EvalErrorView,
    >(true) {
        let mid = choose|mid: Database|
            {
                &&& before.updates_upto(mid, t, tuples, targets, filter, xid, snapshot, n - 1)
                &&& mid.wf()
                &&& mid.row_update_failure(
                    t,
                    tuples[n - 1].page_no,
                    tuples[n - 1].slot_no,
                    tuples[n - 1].row,
                    targets,
                    xid,
                    snapshot,
                ).is_none()
                &&& #[trigger] mid.row_updated(
                    after,
                    t,
                    tuples[n - 1].page_no,
                    tuples[n - 1].slot_no,
                    tuples[n - 1].row,
                    mid.post_image(t, tuples[n - 1].row, targets),
                    xid,
                )
            };
        lemma_update_keeps_primary_key_unique(before, mid, t, targets, filter, xid, snapshot, n - 1);
        let tk = tuples[n - 1];
        assert(mid.post_image(t, tk.row, targets) == before.post_image(t, tk.row, targets));
        lemma_row_update_keeps_primary_key_unique(
            mid,
            after,
            t,
            tk.page_no,
            tk.slot_no,
            tk.row,
            targets,
            xid,
            snapshot,
        );
    } else {
        lemma_update_keeps_primary_key_unique(before, after, t, targets, filter, xid, snapshot, n - 1);
    }
}

/// Whether a row satisfies a foreign key of its table by the tuples that
/// the referenced table holds, visible or not: the key's values are all
/// NULL, or some tuple of the referenced table has them in the referenced
/// columns.
pub open spec fn fk_satisfied(
    tables: Seq<Table>,
    columns: Seq<Column>,
    fk: ForeignKeyView,
    row: Seq<ValueView>,
) -> bool {
    fk_failure(tables, columns, fk, row).is_none()
}

/// Whether every tuple of every table satisfies every foreign key of its table.
pub open spec fn foreign_keys_hold(tables: Seq<Table>) -> bool {
    forall|c: int, f: int, k: int|
        0 <= c < tables.len() && 0 <= f < tables[c].foreign_keys@.len() && 0 <= k
            < tables[c].heap.tuples(column_types(tables[c].columns@)).len() ==> #[trigger] fk_satisfied(
            tables,
            tables[c].columns@,
            (#[trigger] tables[c].foreign_keys@[f])@,
            (#[trigger] tables[c].heap.tuples(column_types(tables[c].columns@))[k]).row,
        )
}

/// Whether every row of some tuples is the row of one of others.
pub open spec fn rows_kept(tuples: Seq<StoredTuple>, more: Seq<StoredTuple>) -> bool {
    forall|k: int|
        0 <= k < tuples.len() ==> exists|j: int|
            0 <= j < more.len() && (#[trigger] more[j]).row == (#[trigger] tuples[k]).row
}

/// A row that matches one of some tuples matches one of any tuples that
/// keep the rows of those.
pub proof fn lemma_match_stays(
    tuples: Seq<StoredTuple>,
    more: Seq<StoredTuple>,
    positions: Seq<int>,
    vals: Seq<ValueView>,
)
    requires
        any_row_matches(tuples, positions, vals),
        rows_kept(tuples, more),
    ensures
        any_row_matches(more, positions, vals),
{
    let k = choose|k: int|
        0 <= k < tuples.len() && row_matches((#[trigger] tuples[k]).row, positions, vals);
    let j = choose|j: int| 0 <= j < more.len() && (#[trigger] more[j]).row == tuples[k].row;
    assert(row_matches(more[j].row, positions, vals));
}

proof fn lemma_table_position_kept(xs: Seq<Table>, ys: Seq<Table>, name: Seq<char>, i: int)
    requires
        xs.len() == ys.len(),
        forall|k: int| 0 <= k < xs.len() ==> (#[trigger] xs[k]).name@ == ys[k].name@,
    ensures
        table_position(xs, name, i) == table_position(ys, name, i),
        table_position(xs, name, i) matches Some(p) ==> 0 <= p < xs.len(),
    decreases xs.len() - i,
{
    if 0 <= i < xs.len() {
        lemma_table_position_kept(xs, ys, name, i + 1);
    }
}

/// Whether the tables after are the tables before in names and columns,
/// and hold every row that those held.
pub open spec fn tables_keep_rows(before: Seq<Table>, after: Seq<Table>) -> bool {
    &&& before.len() == after.len()
    &&& forall|i: int|
        0 <= i < before.len() ==> {
            &&& (#[trigger] after[i]).name@ == before[i].name@
            &&& after[i].columns@ == before[i].columns@
            &&& rows_kept(
                before[i].heap.tuples(column_types(before[i].columns@)),
                after[i].heap.tuples(column_types(before[i].columns@)),
            )
        }
}

/// A row that satisfies a foreign key still does when the tables have
/// kept their rows.
pub proof fn lemma_fk_stays(
    before: Seq<Table>,
    after: Seq<Table>,
    columns: Seq<Column>,
    fk: ForeignKeyView,
    row: Seq<ValueView>,
)
    requires
        tables_keep_rows(before, after),
        fk_satisfied(before, columns, fk, row),
    ensures
        fk_satisfied(after, columns, fk, row),
{
    lemma_table_position_kept(before, after, fk.referenced_table, 0);
    if all_columns_known(fk.local_columns, columns) && all_within(
        name_positions(fk.local_columns, columns),
        row.len() as int,
    ) {
        let local_values = picked(row, name_positions(fk.local_columns, columns));
        if !all_null(local_values) {
            let p = table_position(before, fk.referenced_table, 0).unwrap();
            assert(after[p].name@ == before[p].name@);
            lemma_match_stays(
                before[p].heap.tuples(column_types(before[p].columns@)),
                after[p].heap.tuples(column_types(before[p].columns@)),
                name_positions(fk.referenced_columns, before[p].columns@),
                local_values,
            );
        }
    }
}

proof fn lemma_fks_failure_none(
    tables: Seq<Table>,
    columns: Seq<Column>,
    fks: Seq<ForeignKeyView>,
    row: Seq<ValueView>,
    i: int,
    f: int,
)
    requires
        0 <= i <= f < fks.len(),
        fks_failure(tables, columns, fks, row, i).is_none(),
    ensures
        fk_failure(tables, columns, fks[f], row).is_none(),
    decreases f - i,
{
    if i < f {
        lemma_fks_failure_none(tables, columns, fks, row, i + 1, f);
    }
}

/// An INSERT keeps the foreign keys satisfied: if every tuple of every
/// table satisfied the foreign keys of its table before, every tuple does
/// after, the new one counted. The row must be one that is read back as it
/// was stored.
pub proof fn lemma_insert_keeps_foreign_keys(
    before: Database,
    after: Database,
    t: int,
    row: Seq<ValueView>,
    xid: u32,
    page_no: int,
    slot_no: int,
)
    requires
        before.wf(),
        0 <= t < before.tables@.len(),
        before.row_inserted(after, t, row, xid, page_no, slot_no),
        fks_failure(
            before.tables@,
            before.tables@[t].columns@,
            foreign_keys_view(before.tables@[t].foreign_keys@),
            row,
            0,
        ).is_none(),
        storable(row, column_types(before.tables@[t].columns@)),
        foreign_keys_hold(before.tables@),
    ensures
        foreign_keys_hold(after.tables@),
{
    let xs = before.tables@;
    let ys = after.tables@;
    let schema = column_types(xs[t].columns@);
    assert(xs[t].wf());
    lemma_heap_tuples_after_insert(xs[t].heap, ys[t].heap, row, xid, schema, page_no, slot_no);
    assert(tables_keep_rows(xs, ys)) by {
        assert forall|i: int| 0 <= i < xs.len() implies {
            &&& (#[trigger] ys[i]).name@ == xs[i].name@
            &&& ys[i].columns@ == xs[i].columns@
            &&& rows_kept(
                xs[i].heap.tuples(column_types(xs[i].columns@)),
                ys[i].heap.tuples(column_types(xs[i].columns@)),
            )
        } by {
            let old_tuples = xs[i].heap.tuples(column_types(xs[i].columns@));
            let new_tuples = ys[i].heap.tuples(column_types(xs[i].columns@));
            if i != t {
                assert(ys[i] == xs[i]);
            }
            assert forall|k: int| 0 <= k < old_tuples.len() implies exists|j: int|
                0 <= j < new_tuples.len() && (#[trigger] new_tuples[j]).row == (
                #[trigger] old_tuples[k]).row by {
                assert(new_tuples[k].row == old_tuples[k].row);
            }
        }
    }
    assert forall|c: int, f: int, k: int|
        0 <= c < ys.len() && 0 <= f < ys[c].foreign_keys@.len() && 0 <= k < ys[c].heap.tuples(
            column_types(ys[c].columns@),
        ).len() implies #[trigger] fk_satisfied(
        ys,
        ys[c].columns@,
        (#[trigger] ys[c].foreign_keys@[f])@,
        (#[trigger] ys[c].heap.tuples(column_types(ys[c].columns@))[k]).row,
    ) by {
        let fk = ys[c].foreign_keys@[f]@;
        let tuple_row = ys[c].heap.tuples(column_types(ys[c].columns@))[k].row;
        if c != t {
            assert(ys[c] == xs[c]);
            assert(fk_satisfied(
                xs,
                xs[c].columns@,
                xs[c].foreign_keys@[f]@,
                xs[c].heap.tuples(column_types(xs[c].columns@))[k].row,
            ));
            lemma_fk_stays(xs, ys, xs[c].columns@, fk, tuple_row);
        } else {
            assert(ys[t].foreign_keys@[f] == xs[t].foreign_keys@[f]);
            if k < xs[t].heap.tuples(schema).len() {
                assert(fk_satisfied(
                    xs,
                    xs[t].columns@,
                    xs[t].foreign_keys@[f]@,
                    xs[t].heap.tuples(schema)[k].row,
                ));
                lemma_fk_stays(xs, ys, xs[t].columns@, fk, tuple_row);
            } else {
                assert(tuple_row == row);
                assert(foreign_keys_view(xs[t].foreign_keys@)[f] == xs[t].foreign_keys@[f]@);
                lemma_fks_failure_none(
                    xs,
                    xs[t].columns@,
                    foreign_keys_view(xs[t].foreign_keys@),
                    row,
                    0,
                    f,
                );
                lemma_fk_stays(xs, ys, xs[t].columns@, fk, row);
            }
        }
    }
}

/// A DELETE keeps the foreign keys satisfied, as far as the statement has
/// gone: it records deleters and takes no row away.
pub proof fn lemma_delete_keeps_foreign_keys(
    before: Database,
    after: Database,
    t: int,
    filter: Option<ConditionView>,
    xid: u32,
    snapshot: SnapshotView,
    n: int,
)
    requires
        0 <= t < before.tables@.len(),
        before.rows_deleted(after, t, filter, xid, snapshot, n),
        foreign_keys_hold(before.tables@),
    ensures
        foreign_keys_hold(after.tables@),
{
    let xs = before.tables@;
    let ys = after.tables@;
    assert(tables_keep_rows(xs, ys)) by {
        assert forall|i: int| 0 <= i < xs.len() implies {
            &&& (#[trigger] ys[i]).name@ == xs[i].name@
            &&& ys[i].columns@ == xs[i].columns@
            &&& rows_kept(
                xs[i].heap.tuples(column_types(xs[i].columns@)),
                ys[i].heap.tuples(column_types(xs[i].columns@)),
            )
        } by {
            let old_tuples = xs[i].heap.tuples(column_types(xs[i].columns@));
            let new_tuples = ys[i].heap.tuples(column_types(xs[i].columns@));
            if i != t {
                assert(ys[i] == xs[i]);
            }
            assert forall|k: int| 0 <= k < old_tuples.len() implies exists|j: int|
                0 <= j < new_tuples.len() && (#[trigger] new_tuples[j]).row == (
                #[trigger] old_tuples[k]).row by {
                assert(new_tuples[k].row == old_tuples[k].row);
            }
        }
    }
    assert forall|c: int, f: int, k: int|
        0 <= c < ys.len() && 0 <= f < ys[c].foreign_keys@.len() && 0 <= k < ys[c].heap.tuples(
            column_types(ys[c].columns@),
        ).len() implies #[trigger] fk_satisfied(
        ys,
        ys[c].columns@,
        (#[trigger] ys[c].foreign_keys@[f])@,
        (#[trigger] ys[c].heap.tuples(column_types(ys[c].columns@))[k]).row,
    ) by {
        let fk = ys[c].foreign_keys@[f]@;
        let tuple_row = ys[c].heap.tuples(column_types(ys[c].columns@))[k].row;
        if c != t {
            assert(ys[c] == xs[c]);
        }
        assert(ys[c].foreign_keys@[f] == xs[c].foreign_keys@[f]);
        assert(xs[c].heap.tuples(column_types(xs[c].columns@))[k].row == tuple_row);
        assert(fk_satisfied(
            xs,
            xs[c].columns@,
            xs[c].foreign_keys@[f]@,
            xs[c].heap.tuples(column_types(xs[c].columns@))[k].row,
        ));
        lemma_fk_stays(xs, ys, xs[c].columns@, fk, tuple_row);
    }
}

/// Storing a new version that satisfies the foreign keys of its table, in
/// place of a row, keeps the foreign keys satisfied.
proof fn lemma_new_version_keeps_foreign_keys(
    before: Database,
    after: Database,
    t: int,
    page_no: int,
    slot_no: int,
    row: Seq<ValueView>,
    post: Seq<ValueView>,
    xid: u32,
)
    requires
        before.wf(),
        after.wf(),
        0 <= t < before.tables@.len(),
        fks_failure(
            before.tables@,
            before.tables@[t].columns@,
            foreign_keys_view(before.tables@[t].foreign_keys@),
            post,
            0,
        ).is_none(),
        before.tables@[t].heap.delete_error(page_no, slot_no).is_none(),
        before.row_updated(after, t, page_no, slot_no, row, post, xid),
        storable(post, column_types(before.tables@[t].columns@)),
        foreign_keys_hold(before.tables@),
    ensures
        foreign_keys_hold(after.tables@),
{
    let xs = before.tables@;
    let ys = after.tables@;
    let table = xs[t];
    let schema = column_types(table.columns@);
    let heap0 = table.heap;
    let heap1 = ys[t].heap;
    assert(table.wf());
    assert(ys[t].wf());
    let (np, ns) = choose|np: int, ns: int| #[trigger]
        heap0.updated(heap1, page_no, slot_no, xid, encode_tuple(post, xid), np, ns);
    lemma_updated_positions(heap0, heap1, page_no, slot_no, xid, encode_tuple(post, xid), np, ns, schema);
    lemma_tuple_round_trip(post, xid, schema);
    lemma_heap_tuples_places(heap0.pages@, schema, heap0.pages@.len() as int);
    lemma_heap_tuples_places(heap1.pages@, schema, heap1.pages@.len() as int);
    let old_tuples = heap0.tuples(schema);
    let new_tuples = heap1.tuples(schema);
    assert(tables_keep_rows(xs, ys)) by {
        assert forall|i: int| 0 <= i < xs.len() implies {
            &&& (#[trigger] ys[i]).name@ == xs[i].name@
            &&& ys[i].columns@ == xs[i].columns@
            &&& rows_kept(
                xs[i].heap.tuples(column_types(xs[i].columns@)),
                ys[i].heap.tuples(column_types(xs[i].columns@)),
            )
        } by {
            if i != t {
                assert(ys[i] == xs[i]);
                let same = xs[i].heap.tuples(column_types(xs[i].columns@));
                assert forall|k: int| 0 <= k < same.len() implies exists|j: int|
                    0 <= j < same.len() && (#[trigger] same[j]).row == (#[trigger] same[k]).row by {
                    assert(same[k].row == same[k].row);
                }
            } else {
                assert forall|k: int| 0 <= k < old_tuples.len() implies exists|j: int|
                    0 <= j < new_tuples.len() && (#[trigger] new_tuples[j]).row == (
                    #[trigger] old_tuples[k]).row by {
                    let p = old_tuples[k].page_no;
                    let s = old_tuples[k].slot_no;
                    assert(heap0.spec_get_tuple(p, s, schema) == Some(
                        (old_tuples[k].header, old_tuples[k].row),
                    ));
                    assert(!(p == np && s == ns));
                    if !(p == page_no && s == slot_no) {
                        assert(heap1.spec_get_tuple(p, s, schema) == heap0.spec_get_tuple(
                            p,
                            s,
                            schema,
                        ));
                    }
                    lemma_scan_complete(heap1, schema, p, s);
                    let j = choose|j: int|
                        0 <= j < new_tuples.len() && #[trigger] new_tuples[j] == (StoredTuple {
                            page_no: p,
                            slot_no: s,
                            header: heap1.spec_get_tuple(p, s, schema).unwrap().0,
                            row: heap1.spec_get_tuple(p, s, schema).unwrap().1,
                        });
                    assert(new_tuples[j].row == old_tuples[k].row);
                }
            }
        }
    }
    assert forall|c: int, f: int, k: int|
        0 <= c < ys.len() && 0 <= f < ys[c].foreign_keys@.len() && 0 <= k < ys[c].heap.tuples(
            column_types(ys[c].columns@),
        ).len() implies #[trigger] fk_satisfied(
        ys,
        ys[c].columns@,
        (#[trigger] ys[c].foreign_keys@[f])@,
        (#[trigger] ys[c].heap.tuples(column_types(ys[c].columns@))[k]).row,
    ) by {
        let fk = ys[c].foreign_keys@[f]@;
        let tuple_row = ys[c].heap.tuples(column_types(ys[c].columns@))[k].row;
        assert(ys[c].foreign_keys@[f] == xs[c].foreign_keys@[f]);
        if c != t {
            assert(ys[c] == xs[c]);
            assert(fk_satisfied(
                xs,
                xs[c].columns@,
                xs[c].foreign_keys@[f]@,
                xs[c].heap.tuples(column_types(xs[c].columns@))[k].row,
            ));
        } else {
            let p = new_tuples[k].page_no;
            let s = new_tuples[k].slot_no;
            assert(heap1.spec_get_tuple(p, s, schema) == Some(
                (new_tuples[k].header, new_tuples[k].row),
            ));
            if p == np && s == ns {
                assert(tuple_row == post);
                assert(foreign_keys_view(table.foreign_keys@)[f] == fk);
                lemma_fks_failure_none(
                    xs,
                    table.columns@,
                    foreign_keys_view(table.foreign_keys@),
                    post,
                    0,
                    f,
                );
            } else {
                if !(p == page_no && s == slot_no) {
                    assert(heap1.spec_get_tuple(p, s, schema) == heap0.spec_get_tuple(
                        p,
                        s,
                        schema,
                    ));
                }
                lemma_scan_complete(heap0, schema, p, s);
                let j = choose|j: int|
                    0 <= j < old_tuples.len() && #[trigger] old_tuples[j] == (StoredTuple {
                        page_no: p,
                        slot_no: s,
                        header: heap0.spec_get_tuple(p, s, schema).unwrap().0,
                        row: heap0.spec_get_tuple(p, s, schema).unwrap().1,
                    });
                assert(old_tuples[j].row == tuple_row);
                assert(fk_satisfied(
                    xs,
                    xs[t].columns@,
                    xs[t].foreign_keys@[f]@,
                    xs[t].heap.tuples(column_types(xs[t].columns@))[j].row,
                ));
            }
        }
        lemma_fk_stays(xs, ys, xs[c].columns@, fk, tuple_row);
    }
}

/// Replacing one row by its new version keeps the foreign keys satisfied:
/// the rows that were there stay, and the new version was held against the
/// foreign keys of its table. The new version must be one that is read
/// back as it was stored.
pub proof fn lemma_row_update_keeps_foreign_keys(
    before: Database,
    after: Database,
    t: int,
    page_no: int,
    slot_no: int,
    row: Seq<ValueView>,
    targets: Seq<Option<ValueView>>,
    xid: u32,
    snapshot: SnapshotView,
)
    requires
        before.wf(),
        after.wf(),
        0 <= t < before.tables@.len(),
        before.row_update_failure(t, page_no, slot_no, row, targets, xid, snapshot).is_none(),
        before.row_updated(
            after,
            t,
            page_no,
            slot_no,
            row,
            before.post_image(t, row, targets),
            xid,
        ),
        storable(before.post_image(t, row, targets), column_types(before.tables@[t].columns@)),
        foreign_keys_hold(before.tables@),
    ensures
        foreign_keys_hold(after.tables@),
{
    lemma_new_version_keeps_foreign_keys(
        before,
        after,
        t,
        page_no,
        slot_no,
        row,
        before.post_image(t, row, targets),
        xid,
    );
}

/// An UPDATE keeps the foreign keys satisfied, as far as the statement has
/// gone. Each new version must be one that is read back as it was stored.
pub proof fn lemma_update_keeps_foreign_keys(
    before: Database,
    after: Database,
    t: int,
    targets: Seq<Option<ValueView>>,
    filter: Option<ConditionView>,
    xid: u32,
    snapshot: SnapshotView,
    n: int,
)
    requires
        before.wf(),
        after.wf(),
        0 <= t < before.tables@.len(),
        0 <= n <= before.tables@[t].heap.tuples(column_types(before.tables@[t].columns@)).len(),
        before.updates_upto(
            after,
            t,
            before.tables@[t].heap.tuples(column_types(before.tables@[t].columns@)),
            targets,
            filter,
            xid,
            snapshot,
            n,
        ),
        forall|k: int|
            0 <= k < n && takes(
                #[trigger] before.tables@[t].heap.tuples(
                    column_types(before.tables@[t].columns@),
                )[k],
                aliased_columns(before.tables@[t].name@, before.tables@[t].columns@),
                filter,
                xid,
                snapshot,
                before.transaction_manager@.transactions,
            ) == Ok::<bool, EvalErrorView>(true) ==> storable(
                before.post_image(
                    t,
                    before.tables@[t].heap.tuples(column_types(before.tables@[t].columns@))[k].row,
                    targets,
                ),
                column_types(before.tables@[t].columns@),
            ),
        foreign_keys_hold(before.tables@),
    ensures
        foreign_keys_hold(after.tables@),
        after.tables@.len() == before.tables@.len(),
        after.tables@[t].columns == before.tables@[t].columns,
    decreases n,
{
    let table = before.tables@[t];
    let schema = column_types(table.columns@);
    let tuples = table.heap.tuples(schema);
    let cols = aliased_columns(table.name@, table.columns@);
    let statuses = before.transaction_manager@.transactions;
    if n <= 0 {
        assert(after.tables@ =~= before.tables@);
    } else if takes(tuples[n - 1], cols, filter, xid, snapshot, statuses) == Ok::<
        bool,
        EvalErrorView,
    >(true) {
        let mid = choose|mid: Database|
            {
                &&& before.updates_upto(mid, t, tuples, targets, filter, xid, snapshot, n - 1)
                &&& mid.wf()
                &&& mid.row_update_failure(
                    t,
                    tuples[n - 1].page_no,
                    tuples[n - 1].slot_no,
                    tuples[n - 1].row,
                    targets,
                    xid,
                    snapshot,
                ).is_none()
                &&& #[trigger] mid.row_updated(
                    after,
                    t,
                    tuples[n - 1].page_no,
                    tuples[n - 1].slot_no,
                    tuples[n - 1].row,
                    mid.post_image(t, tuples[n - 1].row, targets),
                    xid,
                )
            };
        lemma_update_keeps_foreign_keys(before, mid, t, targets, filter, xid, snapshot, n - 1);
        let tk = tuples[n - 1];
        assert(mid.post_image(t, tk.row, targets) == before.post_image(t, tk.row, targets));
        lemma_row_update_keeps_foreign_keys(
            mid,
            after,
            t,
            tk.page_no,
            tk.slot_no,
            tk.row,
            targets,
            xid,
            snapshot,
        );
    } else {
        lemma_update_keeps_foreign_keys(before, after, t, targets, filter, xid, snapshot, n - 1);
    }
}

/// Whether a foreign key of a child table references a row of the table
/// `target`: the key references that table, and a tuple of the child,
/// visible or not, has the row's values in the key's columns.
pub open spec fn key_references(
    target: Table,
    child: Table,
    fk: ForeignKeyView,
    row: Seq<ValueView>,
) -> bool {
    fk.referenced_table == target.name@ && any_row_matches(
        child.heap.tuples(column_types(child.columns@)),
        name_positions(fk.local_columns, child.columns@),
        picked(row, name_positions(fk.referenced_columns, target.columns@)),
    )
}

/// Whether a foreign key that references the table `target` names columns
/// that both tables have, and that the row has.
pub open spec fn key_resolves(target: Table, child: Table, fk: ForeignKeyView, row: Seq<ValueView>)
    -> bool {
    fk.referenced_table == target.name@ ==> all_columns_known(
        fk.referenced_columns,
        target.columns@,
    ) && all_within(name_positions(fk.referenced_columns, target.columns@), row.len() as int)
        && all_columns_known(fk.local_columns, child.columns@)
}

/// Whether a row of the table `target` is referenced from another table.
pub open spec fn row_referenced(tables: Seq<Table>, target: Table, row: Seq<ValueView>) -> bool {
    exists|c: int, f: int|
        0 <= c < tables.len() && tables[c].name@ != target.name@ && 0 <= f
            < tables[c].foreign_keys@.len() && #[trigger] key_references(
            target,
            tables[c],
            tables[c].foreign_keys@[f]@,
            row,
        )
}

/// Whether every foreign key of another table that references the table
/// `target` names columns that exist.
pub open spec fn references_resolve(tables: Seq<Table>, target: Table, row: Seq<ValueView>)
    -> bool {
    forall|c: int, f: int|
        0 <= c < tables.len() && tables[c].name@ != target.name@ && 0 <= f
            < tables[c].foreign_keys@.len() ==> #[trigger] key_resolves(
            target,
            tables[c],
            tables[c].foreign_keys@[f]@,
            row,
        )
}

/// Where every name of a key is a column's, a row reaches no error: from
/// the `k`-th pair on it matches exactly if it has each value in the
/// column of its name.
proof fn lemma_row_reaches(
    columns: Seq<Column>,
    names: Seq<Seq<char>>,
    vals: Seq<ValueView>,
    row: Seq<ValueView>,
    k: int,
)
    requires
        0 <= k,
        all_columns_known(names, columns),
    ensures
        row_reaches(columns, names, vals, row, k) == Ok::<bool, Seq<char>>(
            forall|j: int|
                k <= j < names.len() && j < vals.len() ==> 0 <= (#[trigger] name_positions(
                    names,
                    columns,
                )[j]) < row.len() && row[name_positions(names, columns)[j]] == vals[j],
        ),
    decreases names.len() - k,
{
    let ps = name_positions(names, columns);
    if k < names.len() && k < vals.len() {
        lemma_row_reaches(columns, names, vals, row, k + 1);
        assert(column_position(columns, names[k], 0).is_some());
        assert(ps[k] == column_position(columns, names[k], 0).unwrap());
        crate::types::storage_types::lemma_column_position_bounds(columns, names[k], 0);
        if ps[k] < row.len() && row[ps[k]] == vals[k] {
            assert forall|j: int| k <= j < names.len() && j < vals.len() && (forall|i: int|
                k + 1 <= i < names.len() && i < vals.len() ==> 0 <= (#[trigger] ps[i]) < row.len()
                    && row[ps[i]] == vals[i]) implies 0 <= (#[trigger] ps[j]) < row.len()
                && row[ps[j]] == vals[j] by {
                if j > k {
                }
            }
        } else {
            assert(!(0 <= ps[k] < row.len() && row[ps[k]] == vals[k]));
        }
    }
}

/// Where every name of a key is a column's, the tuples of the child give
/// a failure exactly if one of them matches, and then that the row is
/// referenced.
proof fn lemma_scan_failure(
    child: Table,
    tuples: Seq<StoredTuple>,
    names: Seq<Seq<char>>,
    vals: Seq<ValueView>,
    t: int,
)
    requires
        0 <= t,
        all_columns_known(names, child.columns@),
    ensures
        scan_failure(child, tuples, names, vals, t).is_some() <==> (exists|j: int|
            t <= j < tuples.len() && row_matches(
                (#[trigger] tuples[j]).row,
                name_positions(names, child.columns@),
                vals,
            )),
        scan_failure(child, tuples, names, vals, t) matches Some(e) ==> e is FkReferenced,
    decreases tuples.len() - t,
{
    let ps = name_positions(names, child.columns@);
    if t < tuples.len() {
        lemma_scan_failure(child, tuples, names, vals, t + 1);
        lemma_row_reaches(child.columns@, names, vals, tuples[t].row, 0);
        assert(row_reaches(child.columns@, names, vals, tuples[t].row, 0) == Ok::<
            bool,
            Seq<char>,
        >(row_matches(tuples[t].row, ps, vals)));
        if scan_failure(child, tuples, names, vals, t).is_some() {
            if row_matches(tuples[t].row, ps, vals) {
            } else {
                let j = choose|j: int|
                    t + 1 <= j < tuples.len() && row_matches((#[trigger] tuples[j]).row, ps, vals);
                assert(t <= j < tuples.len() && row_matches(tuples[j].row, ps, vals));
            }
        }
        if exists|j: int| t <= j < tuples.len() && row_matches((#[trigger] tuples[j]).row, ps, vals) {
            let j = choose|j: int|
                t <= j < tuples.len() && row_matches((#[trigger] tuples[j]).row, ps, vals);
            if j > t {
                assert(t + 1 <= j < tuples.len() && row_matches(tuples[j].row, ps, vals));
            }
        }
    }
}

proof fn lemma_child_failure(target: Table, child: Table, row: Seq<ValueView>, i: int)
    requires
        0 <= i,
        forall|f: int|
            0 <= f < child.foreign_keys@.len() ==> #[trigger] key_resolves(
                target,
                child,
                child.foreign_keys@[f]@,
                row,
            ),
    ensures
        child_failure(target, child, row, i).is_some() <==> (exists|f: int|
            i <= f < child.foreign_keys@.len() && #[trigger] key_references(
                target,
                child,
                child.foreign_keys@[f]@,
                row,
            )),
        child_failure(target, child, row, i) matches Some(e) ==> e is FkReferenced,
    decreases child.foreign_keys@.len() - i,
{
    if i < child.foreign_keys@.len() {
        lemma_child_failure(target, child, row, i + 1);
        let fk = child.foreign_keys@[i]@;
        assert(key_resolves(target, child, fk, row));
        if fk.referenced_table == target.name@ {
            lemma_scan_failure(
                child,
                child.heap.tuples(column_types(child.columns@)),
                fk.local_columns,
                picked(row, name_positions(fk.referenced_columns, target.columns@)),
                0,
            );
        }
        assert(reference_failure(target, child, fk, row).is_some() <==> key_references(
            target,
            child,
            fk,
            row,
        ));
        if child_failure(target, child, row, i).is_some() {
            if reference_failure(target, child, fk, row).is_some() {
                assert(key_references(target, child, child.foreign_keys@[i]@, row));
            } else {
                let f = choose|f: int|
                    i + 1 <= f < child.foreign_keys@.len() && #[trigger] key_references(
                        target,
                        child,
                        child.foreign_keys@[f]@,
                        row,
                    );
                assert(i <= f < child.foreign_keys@.len() && key_references(
                    target,
                    child,
                    child.foreign_keys@[f]@,
                    row,
                ));
            }
        }
        if exists|f: int|
            i <= f < child.foreign_keys@.len() && #[trigger] key_references(
                target,
                child,
                child.foreign_keys@[f]@,
                row,
            ) {
            let f = choose|f: int|
                i <= f < child.foreign_keys@.len() && #[trigger] key_references(
                    target,
                    child,
                    child.foreign_keys@[f]@,
                    row,
                );
            if f > i {
                assert(i + 1 <= f < child.foreign_keys@.len() && key_references(
                    target,
                    child,
                    child.foreign_keys@[f]@,
                    row,
                ));
            }
        }
    }
}

/// Whether one of the tables from the `t`-th on, the table of the target's
/// own name left out, references the row.
pub open spec fn referenced_from(tables: Seq<Table>, target: Table, row: Seq<ValueView>, t: int)
    -> bool {
    exists|c: int, f: int|
        t <= c < tables.len() && tables[c].name@ != target.name@ && 0 <= f
            < tables[c].foreign_keys@.len() && #[trigger] key_references(
            target,
            tables[c],
            tables[c].foreign_keys@[f]@,
            row,
        )
}

proof fn lemma_references_failure(tables: Seq<Table>, target: Table, row: Seq<ValueView>, t: int)
    requires
        0 <= t,
        references_resolve(tables, target, row),
    ensures
        references_failure(tables, target, row, t).is_some() <==> referenced_from(
            tables,
            target,
            row,
            t,
        ),
        references_failure(tables, target, row, t) matches Some(e) ==> e is FkReferenced,
    decreases tables.len() - t,
{
    if t < tables.len() {
        lemma_references_failure(tables, target, row, t + 1);
        let child = tables[t];
        if child.name@ != target.name@ {
            assert forall|f: int| 0 <= f < child.foreign_keys@.len() implies #[trigger] key_resolves(
                target,
                child,
                child.foreign_keys@[f]@,
                row,
            ) by {
                assert(key_resolves(target, tables[t], tables[t].foreign_keys@[f]@, row));
            }
            lemma_child_failure(target, child, row, 0);
        }
        if references_failure(tables, target, row, t).is_some() {
            if child.name@ != target.name@ && child_failure(target, child, row, 0).is_some() {
                let f = choose|f: int|
                    0 <= f < child.foreign_keys@.len() && #[trigger] key_references(
                        target,
                        child,
                        child.foreign_keys@[f]@,
                        row,
                    );
                assert(t <= t < tables.len() && tables[t].name@ != target.name@ && 0 <= f
                    < tables[t].foreign_keys@.len() && key_references(
                    target,
                    tables[t],
                    tables[t].foreign_keys@[f]@,
                    row,
                ));
            } else {
                let (c, f) = choose|c: int, f: int|
                    t + 1 <= c < tables.len() && tables[c].name@ != target.name@ && 0 <= f
                        < tables[c].foreign_keys@.len() && #[trigger] key_references(
                        target,
                        tables[c],
                        tables[c].foreign_keys@[f]@,
                        row,
                    );
                assert(t <= c < tables.len() && tables[c].name@ != target.name@ && 0 <= f
                    < tables[c].foreign_keys@.len() && key_references(
                    target,
                    tables[c],
                    tables[c].foreign_keys@[f]@,
                    row,
                ));
            }
        }
        if referenced_from(tables, target, row, t) {
            let (c, f) = choose|c: int, f: int|
                t <= c < tables.len() && tables[c].name@ != target.name@ && 0 <= f
                    < tables[c].foreign_keys@.len() && #[trigger] key_references(
                    target,
                    tables[c],
                    tables[c].foreign_keys@[f]@,
                    row,
                );
            if c == t {
                assert(0 <= f < child.foreign_keys@.len() && key_references(
                    target,
                    child,
                    child.foreign_keys@[f]@,
                    row,
                ));
            } else {
                assert(t + 1 <= c < tables.len() && tables[c].name@ != target.name@ && 0 <= f
                    < tables[c].foreign_keys@.len() && key_references(
                    target,
                    tables[c],
                    tables[c].foreign_keys@[f]@,
                    row,
                ));
            }
        }
    }
}

/// A row of a table must not be deleted exactly if another table
/// references it, where the foreign keys that reference the table name
/// columns that exist: the check then fails with `FkReferenced` if and
/// only if a tuple of another table, visible or not, has the row's values
/// in the columns of a foreign key that references the table.
pub proof fn lemma_referenced_rows_stay(tables: Seq<Table>, target: Table, row: Seq<ValueView>)
    requires
        references_resolve(tables, target, row),
    ensures
        references_failure(tables, target, row, 0).is_some() <==> row_referenced(
            tables,
            target,
            row,
        ),
        references_failure(tables, target, row, 0) matches Some(e) ==> e is FkReferenced,
{
    lemma_references_failure(tables, target, row, 0);
    if referenced_from(tables, target, row, 0) {
        let (c, f) = choose|c: int, f: int|
            0 <= c < tables.len() && tables[c].name@ != target.name@ && 0 <= f
                < tables[c].foreign_keys@.len() && #[trigger] key_references(
                target,
                tables[c],
                tables[c].foreign_keys@[f]@,
                row,
            );
        assert(row_referenced(tables, target, row));
    }
    if row_referenced(tables, target, row) {
        let (c, f) = choose|c: int, f: int|
            0 <= c < tables.len() && tables[c].name@ != target.name@ && 0 <= f
                < tables[c].foreign_keys@.len() && #[trigger] key_references(
                target,
                tables[c],
                tables[c].foreign_keys@[f]@,
                row,
            );
        assert(referenced_from(tables, target, row, 0));
    }
}

} // verus!
