use crate::executer::help_functions::key_of;
use crate::executer::index_laws::{index_consistent, lemma_scan_complete, live_key_at};
use crate::executer::select::rows_at_upto;
use crate::storage::codec::column_types;
use crate::storage::heap_file::{HeapFile, StoredTuple};
use crate::storage::tuple_header::visible;
use crate::storage::tuple_laws::lemma_heap_tuples_places;
use crate::types::b_tree::{lemma_key_index_unique, positions_where, BTreeIndex, EntryView};
use crate::types::index_laws::holds;
use crate::types::storage_types::{names_view, ColumnType, Table, ValueView};
use crate::types::transaction_types::{SnapshotView, TxStatus};
use vstd::prelude::*;

verus! {

/// Whether a scan gives the row: one of the tuples is visible to the
/// transaction and has it.
pub open spec fn scan_gives(
    tuples: Seq<StoredTuple>,
    row: Seq<ValueView>,
    xid: u32,
    snapshot: SnapshotView,
    statuses: Map<u32, TxStatus>,
) -> bool {
    exists|k: int|
        0 <= k < tuples.len() && visible((#[trigger] tuples[k]).header, xid, snapshot, statuses)
            && tuples[k].row == row
}

/// Every row that is read at positions of a heap file is a row that a scan
/// of the file gives: a SELECT that goes by an index shows nothing that a
/// scan would not show.
pub proof fn lemma_rows_at_are_scanned(
    heap: HeapFile,
    schema: Seq<ColumnType>,
    positions: Seq<(usize, usize)>,
    xid: u32,
    snapshot: SnapshotView,
    statuses: Map<u32, TxStatus>,
    n: int,
)
    requires
        heap.wf(),
        0 <= n <= positions.len(),
    ensures
        forall|r: int|
            #![trigger rows_at_upto(heap, schema, positions, xid, snapshot, statuses, n)[r]]
            0 <= r < rows_at_upto(heap, schema, positions, xid, snapshot, statuses, n).len()
                ==> scan_gives(
                heap.tuples(schema),
                rows_at_upto(heap, schema, positions, xid, snapshot, statuses, n)[r],
                xid,
                snapshot,
                statuses,
            ),
    decreases n,
{
    if n > 0 {
        lemma_rows_at_are_scanned(heap, schema, positions, xid, snapshot, statuses, n - 1);
        let prev = rows_at_upto(heap, schema, positions, xid, snapshot, statuses, n - 1);
        let cur = rows_at_upto(heap, schema, positions, xid, snapshot, statuses, n);
        let pos = positions[n - 1];
        let tuples = heap.tuples(schema);
        assert forall|r: int| 0 <= r < cur.len() implies scan_gives(
            tuples,
            #[trigger] cur[r],
            xid,
            snapshot,
            statuses,
        ) by {
            if r < prev.len() {
                assert(cur[r] == prev[r]);
            } else {
                let got = heap.spec_get_tuple(pos.0 as int, pos.1 as int, schema);
                assert(got.is_some());
                lemma_scan_complete(heap, schema, pos.0 as int, pos.1 as int);
                let k = choose|k: int|
                    0 <= k < tuples.len() && #[trigger] tuples[k] == (StoredTuple {
                        page_no: pos.0 as int,
                        slot_no: pos.1 as int,
                        header: got.unwrap().0,
                        row: got.unwrap().1,
                    });
                assert(visible(tuples[k].header, xid, snapshot, statuses) && tuples[k].row
                    == cur[r]);
            }
        }
    }
}

/// The rows that are read at positions hold the row of each visible tuple
/// at one of the positions.
pub proof fn lemma_rows_at_hold(
    heap: HeapFile,
    schema: Seq<ColumnType>,
    positions: Seq<(usize, usize)>,
    xid: u32,
    snapshot: SnapshotView,
    statuses: Map<u32, TxStatus>,
    n: int,
    j: int,
)
    requires
        0 <= j < n <= positions.len(),
        positions[j].0 <= u32::MAX,
        heap.spec_get_tuple(positions[j].0 as int, positions[j].1 as int, schema).is_some(),
        visible(
            heap.spec_get_tuple(positions[j].0 as int, positions[j].1 as int, schema).unwrap().0,
            xid,
            snapshot,
            statuses,
        ),
    ensures
        rows_at_upto(heap, schema, positions, xid, snapshot, statuses, n).contains(
            heap.spec_get_tuple(positions[j].0 as int, positions[j].1 as int, schema).unwrap().1,
        ),
    decreases n,
{
    let row = heap.spec_get_tuple(positions[j].0 as int, positions[j].1 as int, schema).unwrap().1;
    let cur = rows_at_upto(heap, schema, positions, xid, snapshot, statuses, n);
    let prev = rows_at_upto(heap, schema, positions, xid, snapshot, statuses, n - 1);
    if j == n - 1 {
        assert(cur == prev.push(row));
        assert(cur[cur.len() - 1] == row);
    } else {
        lemma_rows_at_hold(heap, schema, positions, xid, snapshot, statuses, n - 1, j);
        let r = choose|r: int| 0 <= r < prev.len() && prev[r] == row;
        assert(cur[r] == row);
    }
}

/// The positions of the entries whose key passes a test hold each position
/// that stands under such a key.
pub proof fn lemma_positions_where_hold(
    es: Seq<EntryView>,
    test: spec_fn(Seq<ValueView>) -> bool,
    n: int,
    i: int,
    pos: (usize, usize),
)
    requires
        0 <= i < n <= es.len(),
        test(es[i].key),
        es[i].positions.contains(pos),
    ensures
        positions_where(es, test, n).contains(pos),
    decreases n,
{
    let cur = positions_where(es, test, n);
    let prev = positions_where(es, test, n - 1);
    if i == n - 1 {
        let k = choose|k: int| 0 <= k < es[i].positions.len() && es[i].positions[k] == pos;
        assert(cur == prev + es[i].positions);
        assert(cur[prev.len() + k] == pos);
    } else {
        lemma_positions_where_hold(es, test, n - 1, i, pos);
        let k = choose|k: int| 0 <= k < prev.len() && prev[k] == pos;
        assert(cur[k] == pos);
    }
}

/// An index that agrees with the heap file of its table gives, for a key,
/// the row of every tuple of a scan that is visible to the transaction,
/// has no deleter and has the key: a SELECT that goes by the index under a
/// key misses no such row.
pub proof fn lemma_lookup_gives_live_rows(
    idx: BTreeIndex,
    table: Table,
    key: Seq<ValueView>,
    k: int,
    xid: u32,
    snapshot: SnapshotView,
    statuses: Map<u32, TxStatus>,
)
    requires
        table.wf(),
        idx.wf(),
        index_consistent(idx, table),
        0 <= k < table.heap.tuples(column_types(table.columns@)).len(),
        table.heap.tuples(column_types(table.columns@))[k].header.xmax.is_none(),
        visible(
            table.heap.tuples(column_types(table.columns@))[k].header,
            xid,
            snapshot,
            statuses,
        ),
        key_of(
            names_view(idx.columns@),
            table.columns@,
            table.heap.tuples(column_types(table.columns@))[k].row,
        ) == Ok::<_, crate::errors::engine_error::DbErrorView>(key),
    ensures
        idx.lookup(key).is_some(),
        rows_at_upto(
            table.heap,
            column_types(table.columns@),
            idx.lookup(key).unwrap(),
            xid,
            snapshot,
            statuses,
            idx.lookup(key).unwrap().len() as int,
        ).contains(table.heap.tuples(column_types(table.columns@))[k].row),
{
    let schema = column_types(table.columns@);
    let tuples = table.heap.tuples(schema);
    let tk = tuples[k];
    let es = idx.entries();
    lemma_heap_tuples_places(table.heap.pages@, schema, table.heap.pages@.len() as int);
    assert(table.heap.spec_get_tuple(tk.page_no, tk.slot_no, schema) == Some((tk.header, tk.row)));
    let pos = (tk.page_no as usize, tk.slot_no as usize);
    assert(pos.0 as int == tk.page_no && pos.1 as int == tk.slot_no);
    assert(live_key_at(table.heap, schema, names_view(idx.columns@), table.columns@, key, pos));
    assert(holds(es, key, pos));
    let i = choose|i: int|
        0 <= i < es.len() && (#[trigger] es[i]).key == key && es[i].positions.contains(pos);
    lemma_key_index_unique(es, key, i);
    let ps = idx.lookup(key).unwrap();
    assert(ps == es[i].positions);
    let j = choose|j: int| 0 <= j < ps.len() && ps[j] == pos;
    lemma_rows_at_hold(table.heap, schema, ps, xid, snapshot, statuses, ps.len() as int, j);
}

/// An index that agrees with the heap file of its table gives, for a test
/// of keys, the row of every tuple of a scan that is visible to the
/// transaction, has no deleter and has a key that passes the test: a
/// SELECT that goes by the index over a range of keys misses no such row.
pub proof fn lemma_range_gives_live_rows(
    idx: BTreeIndex,
    table: Table,
    test: spec_fn(Seq<ValueView>) -> bool,
    key: Seq<ValueView>,
    k: int,
    xid: u32,
    snapshot: SnapshotView,
    statuses: Map<u32, TxStatus>,
)
    requires
        table.wf(),
        index_consistent(idx, table),
        0 <= k < table.heap.tuples(column_types(table.columns@)).len(),
        table.heap.tuples(column_types(table.columns@))[k].header.xmax.is_none(),
        visible(
            table.heap.tuples(column_types(table.columns@))[k].header,
            xid,
            snapshot,
            statuses,
        ),
        key_of(
            names_view(idx.columns@),
            table.columns@,
            table.heap.tuples(column_types(table.columns@))[k].row,
        ) == Ok::<_, crate::errors::engine_error::DbErrorView>(key),
        test(key),
    ensures
        rows_at_upto(
            table.heap,
            column_types(table.columns@),
            positions_where(idx.entries(), test, idx.entries().len() as int),
            xid,
            snapshot,
            statuses,
            positions_where(idx.entries(), test, idx.entries().len() as int).len() as int,
        ).contains(table.heap.tuples(column_types(table.columns@))[k].row),
{
    let schema = column_types(table.columns@);
    let tuples = table.heap.tuples(schema);
    let tk = tuples[k];
    let es = idx.entries();
    lemma_heap_tuples_places(table.heap.pages@, schema, table.heap.pages@.len() as int);
    assert(table.heap.spec_get_tuple(tk.page_no, tk.slot_no, schema) == Some((tk.header, tk.row)));
    let pos = (tk.page_no as usize, tk.slot_no as usize);
    assert(pos.0 as int == tk.page_no && pos.1 as int == tk.slot_no);
    assert(live_key_at(table.heap, schema, names_view(idx.columns@), table.columns@, key, pos));
    assert(holds(es, key, pos));
    let i = choose|i: int|
        0 <= i < es.len() && (#[trigger] es[i]).key == key && es[i].positions.contains(pos);
    let ps = positions_where(es, test, es.len() as int);
    lemma_positions_where_hold(es, test, es.len() as int, i, pos);
    let j = choose|j: int| 0 <= j < ps.len() && ps[j] == pos;
    lemma_rows_at_hold(table.heap, schema, ps, xid, snapshot, statuses, ps.len() as int, j);
}

} // verus!
