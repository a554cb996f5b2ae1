use crate::consts::PAGE_SIZE;
use crate::executer::help_functions::key_of;
use crate::storage::codec::{
    column_types, decode_tuple, encode_tuple, fresh_header, lemma_tuple_round_trip, storable,
};
use crate::storage::heap_file::{
    heap_tuples_upto, page_tuples, page_tuples_upto, HeapFile, StoredTuple, MAX_PAGES,
};
use crate::storage::page::MAX_SLOTS;
use crate::storage::page_header::empty_header;
use crate::storage::tuple_laws::{
    lemma_heap_tuples_places, lemma_page_after_insert, lemma_page_after_stamp,
    lemma_page_tuples_places, with_xmax,
};
use crate::storage::tuple_header::xmax_of;
use crate::types::b_tree::{BTreeIndex, EntryView};
use crate::types::index_laws::{
    buckets_nonempty, holds, lemma_added_holds, lemma_added_keeps_buckets,
    lemma_without_holds, lemma_without_keeps_buckets,
};
use crate::types::page_types::{Page, TupleHeaderView};
use crate::types::storage_types::{names_view, Column, ColumnType, Database, Table, ValueView};
use crate::errors::eval_error::EvalErrorView;
use crate::executer::delete::{deleted_tuples, entries_after_deletes, takes};
use crate::executer::join::{aliased_columns, ColumnRef};
use crate::storage::tuple_laws::lemma_heap_tuples_ordered;
use crate::types::b_tree::ascending;
use crate::types::parser_types::ConditionView;
use crate::types::transaction_types::{SnapshotView, TxStatus};
use crate::storage::vacuum::{
    entries_after_vacuum, entries_less_dead, entries_less_row, lemma_vacuumed_tuples,
};
use crate::executer::insert::index_keys_failure;
use vstd::prelude::*;

verus! {

/// Whether the heap file holds, at a position, a live tuple that has the
/// key under an index: a tuple without a deleter whose values at the
/// index's columns are the key.
pub open spec fn live_key_at(
    heap: HeapFile,
    schema: Seq<ColumnType>,
    index_columns: Seq<Seq<char>>,
    table_columns: Seq<Column>,
    key: Seq<ValueView>,
    pos: (usize, usize),
) -> bool {
    match heap.spec_get_tuple(pos.0 as int, pos.1 as int, schema) {
        Some((h, row)) => h.xmax.is_none() && key_of(index_columns, table_columns, row) == Ok::<
            _,
            crate::errors::engine_error::DbErrorView,
        >(key),
        None => false,
    }
}

/// Whether an index agrees with the heap file of its table: it holds a
/// position under a key exactly where the heap file holds a live tuple of
/// that key at that position.
pub open spec fn index_consistent(idx: BTreeIndex, table: Table) -> bool {
    forall|key: Seq<ValueView>, pos: (usize, usize)|
        #![trigger holds(idx.entries(), key, pos)]
        holds(idx.entries(), key, pos) <==> live_key_at(
            table.heap,
            column_types(table.columns@),
            names_view(idx.columns@),
            table.columns@,
            key,
            pos,
        )
}

/// A scan finds every tuple that can be read at a position of a page.
pub proof fn lemma_page_scan_complete(
    page: Page,
    schema: Seq<ColumnType>,
    page_no: int,
    n: int,
    s: int,
)
    requires
        0 <= s < n,
        page.spec_get_tuple(s, schema).is_some(),
    ensures
        exists|k: int|
            0 <= k < page_tuples_upto(page, schema, page_no, n).len() && #[trigger] page_tuples_upto(
                page,
                schema,
                page_no,
                n,
            )[k] == (StoredTuple {
                page_no,
                slot_no: s,
                header: page.spec_get_tuple(s, schema).unwrap().0,
                row: page.spec_get_tuple(s, schema).unwrap().1,
            }),
    decreases n,
{
    let cur = page_tuples_upto(page, schema, page_no, n);
    let prev = page_tuples_upto(page, schema, page_no, n - 1);
    if s == n - 1 {
        assert(cur[cur.len() - 1] == (StoredTuple {
            page_no,
            slot_no: s,
            header: page.spec_get_tuple(s, schema).unwrap().0,
            row: page.spec_get_tuple(s, schema).unwrap().1,
        }));
    } else {
        lemma_page_scan_complete(page, schema, page_no, n - 1, s);
        let k = choose|k: int|
            0 <= k < prev.len() && #[trigger] prev[k] == (StoredTuple {
                page_no,
                slot_no: s,
                header: page.spec_get_tuple(s, schema).unwrap().0,
                row: page.spec_get_tuple(s, schema).unwrap().1,
            });
        assert(cur[k] == prev[k]);
    }
}

/// A scan finds every tuple that can be read at a position of a heap file,
/// and what it finds can be read at its position.
pub proof fn lemma_scan_complete(heap: HeapFile, schema: Seq<ColumnType>, page_no: int, slot_no: int)
    requires
        heap.wf(),
        heap.spec_get_tuple(page_no, slot_no, schema).is_some(),
    ensures
        exists|k: int|
            0 <= k < heap.tuples(schema).len() && #[trigger] heap.tuples(schema)[k]
                == (StoredTuple {
                page_no,
                slot_no,
                header: heap.spec_get_tuple(page_no, slot_no, schema).unwrap().0,
                row: heap.spec_get_tuple(page_no, slot_no, schema).unwrap().1,
            }),
{
    lemma_scan_complete_upto(heap.pages@, schema, heap.pages@.len() as int, page_no, slot_no);
    let target = StoredTuple {
        page_no,
        slot_no,
        header: heap.pages@[page_no].spec_get_tuple(slot_no, schema).unwrap().0,
        row: heap.pages@[page_no].spec_get_tuple(slot_no, schema).unwrap().1,
    };
    let all = heap_tuples_upto(heap.pages@, schema, heap.pages@.len() as int);
    let k = choose|k: int| 0 <= k < all.len() && #[trigger] all[k] == target;
    assert(heap.tuples(schema)[k] == target);
}

proof fn lemma_scan_complete_upto(
    pages: Seq<Page>,
    schema: Seq<ColumnType>,
    n: int,
    page_no: int,
    slot_no: int,
)
    requires
        0 <= page_no < n <= pages.len(),
        pages[page_no].spec_get_tuple(slot_no, schema).is_some(),
    ensures
        exists|k: int|
            0 <= k < heap_tuples_upto(pages, schema, n).len() && #[trigger] heap_tuples_upto(
                pages,
                schema,
                n,
            )[k] == (StoredTuple {
                page_no,
                slot_no,
                header: pages[page_no].spec_get_tuple(slot_no, schema).unwrap().0,
                row: pages[page_no].spec_get_tuple(slot_no, schema).unwrap().1,
            }),
    decreases n,
{
    let target = StoredTuple {
        page_no,
        slot_no,
        header: pages[page_no].spec_get_tuple(slot_no, schema).unwrap().0,
        row: pages[page_no].spec_get_tuple(slot_no, schema).unwrap().1,
    };
    let prev = heap_tuples_upto(pages, schema, n - 1);
    let last = page_tuples(pages[n - 1], schema, n - 1);
    let all = heap_tuples_upto(pages, schema, n);
    if page_no == n - 1 {
        lemma_page_scan_complete(
            pages[n - 1],
            schema,
            n - 1,
            pages[n - 1].header.slot_count as int,
            slot_no,
        );
        let k = choose|k: int| 0 <= k < last.len() && #[trigger] last[k] == target;
        assert(all[prev.len() + k] == target);
    } else {
        lemma_scan_complete_upto(pages, schema, n - 1, page_no, slot_no);
        let k = choose|k: int| 0 <= k < prev.len() && #[trigger] prev[k] == target;
        assert(all[k] == target);
    }
}

/// After an insertion a heap file holds, at the new position, what the
/// inserted bytes are read as; the new position held nothing before; and
/// every other position holds what it held.
pub proof fn lemma_inserted_positions(
    before: HeapFile,
    after: HeapFile,
    tuple: Seq<u8>,
    page_no: int,
    slot_no: int,
    schema: Seq<ColumnType>,
)
    requires
        before.wf(),
        before.inserted(after, tuple, page_no, slot_no),
    ensures
        0 <= page_no <= MAX_PAGES,
        0 <= slot_no < MAX_SLOTS,
        after.spec_get_tuple(page_no, slot_no, schema) == decode_tuple(tuple, schema),
        before.spec_get_tuple(page_no, slot_no, schema).is_none(),
        forall|p: int, s: int|
            !(p == page_no && s == slot_no) ==> #[trigger] after.spec_get_tuple(p, s, schema)
                == before.spec_get_tuple(p, s, schema),
{
    let n = before.pages@.len() as int;
    let last = before.pages@.last();
    if last.has_room(tuple.len() as int) {
        lemma_page_after_insert(last, after.pages@[n - 1], tuple, schema);
        assert forall|p: int, s: int| !(p == page_no && s == slot_no) implies #[trigger] after.spec_get_tuple(
            p,
            s,
            schema,
        ) == before.spec_get_tuple(p, s, schema) by {
            if 0 <= p < n - 1 {
                assert(after.pages@[p] == before.pages@[p]);
            } else if p == n - 1 {
                if 0 <= s < last.header.slot_count {
                } else {
                }
            }
        }
    } else {
        let empty = choose|empty: Page|
            empty.header == empty_header(n as u32) && empty.wf() && empty.data@
                == Page::spec_new_data(n as u32) && empty.has_room(tuple.len() as int)
                && after.pages@[n].header == empty.header_with(tuple.len() as int)
                && after.pages@[n].data@ == empty.data_with(tuple);
        lemma_page_after_insert(empty, after.pages@[n], tuple, schema);
        assert forall|p: int, s: int| !(p == page_no && s == slot_no) implies #[trigger] after.spec_get_tuple(
            p,
            s,
            schema,
        ) == before.spec_get_tuple(p, s, schema) by {
            if 0 <= p < n {
                assert(after.pages@[p] == before.pages@[p]);
            }
        }
    }
}

/// An INSERT keeps an index on the table in agreement with the table's
/// heap file. The row must be one that is read back as it was stored.
pub proof fn lemma_insert_keeps_index(
    before: Database,
    after: Database,
    t: int,
    i: int,
    row: Seq<ValueView>,
    xid: u32,
    page_no: int,
    slot_no: int,
)
    requires
        before.wf(),
        0 <= t < before.tables@.len(),
        0 <= i < before.indexes@.len(),
        before.indexes@[i].table@ == before.tables@[t].name@,
        before.row_inserted(after, t, row, xid, page_no, slot_no),
        storable(row, column_types(before.tables@[t].columns@)),
        index_consistent(before.indexes@[i], before.tables@[t]),
    ensures
        index_consistent(after.indexes@[i], after.tables@[t]),
{
    let table = before.tables@[t];
    let idx = before.indexes@[i];
    let schema = column_types(table.columns@);
    let cols = names_view(idx.columns@);
    let new_key = key_of(cols, table.columns@, row)->Ok_0;
    let new_pos = (page_no as usize, slot_no as usize);
    assert(table.wf());
    assert(idx.wf());
    lemma_inserted_positions(
        table.heap,
        after.tables@[t].heap,
        encode_tuple(row, xid),
        page_no,
        slot_no,
        schema,
    );
    lemma_tuple_round_trip(row, xid, schema);
    assert(idx.added(after.indexes@[i], new_key, new_pos));
    lemma_added_holds(idx, after.indexes@[i], new_key, new_pos);
    assert forall|key: Seq<ValueView>, pos: (usize, usize)|
        #![trigger holds(after.indexes@[i].entries(), key, pos)]
        holds(after.indexes@[i].entries(), key, pos) <==> live_key_at(
            after.tables@[t].heap,
            schema,
            cols,
            table.columns@,
            key,
            pos,
        ) by {
        assert(holds(idx.entries(), key, pos) <==> live_key_at(
            table.heap,
            schema,
            cols,
            table.columns@,
            key,
            pos,
        ));
        if pos.0 as int == page_no && pos.1 as int == slot_no {
            assert(pos == new_pos);
        } else {
            assert(after.tables@[t].heap.spec_get_tuple(pos.0 as int, pos.1 as int, schema)
                == table.heap.spec_get_tuple(pos.0 as int, pos.1 as int, schema));
        }
    }
}

/// Whether one of the first `n` tuples is taken by the statement and has
/// the key and the position.
pub open spec fn taken_pair(
    tuples: Seq<StoredTuple>,
    index_columns: Seq<Seq<char>>,
    table_columns: Seq<Column>,
    cols: Seq<ColumnRef>,
    filter: Option<ConditionView>,
    xid: u32,
    snapshot: SnapshotView,
    statuses: Map<u32, TxStatus>,
    n: int,
    key: Seq<ValueView>,
    pos: (usize, usize),
) -> bool {
    exists|k: int|
        0 <= k < n && takes(#[trigger] tuples[k], cols, filter, xid, snapshot, statuses) == Ok::<
            bool,
            EvalErrorView,
        >(true) && key_of(index_columns, table_columns, tuples[k].row)->Ok_0 == key && (
            tuples[k].page_no as usize,
            tuples[k].slot_no as usize,
        ) == pos
}

/// After a DELETE has gone through some tuples, an index holds what it
/// held but the positions of the tuples that were taken, each under the
/// tuple's key.
pub proof fn lemma_entries_after_deletes(
    es: Seq<EntryView>,
    index_columns: Seq<Seq<char>>,
    table_columns: Seq<Column>,
    tuples: Seq<StoredTuple>,
    cols: Seq<ColumnRef>,
    filter: Option<ConditionView>,
    xid: u32,
    snapshot: SnapshotView,
    statuses: Map<u32, TxStatus>,
    n: int,
)
    requires
        ascending(es),
        0 <= n <= tuples.len(),
    ensures
        ascending(
            entries_after_deletes(
                es,
                index_columns,
                table_columns,
                tuples,
                cols,
                filter,
                xid,
                snapshot,
                statuses,
                n,
            ),
        ),
        forall|key: Seq<ValueView>, pos: (usize, usize)|
            #[trigger] holds(
                entries_after_deletes(
                    es,
                    index_columns,
                    table_columns,
                    tuples,
                    cols,
                    filter,
                    xid,
                    snapshot,
                    statuses,
                    n,
                ),
                key,
                pos,
            ) <==> (holds(es, key, pos) && !taken_pair(
                tuples,
                index_columns,
                table_columns,
                cols,
                filter,
                xid,
                snapshot,
                statuses,
                n,
                key,
                pos,
            )),
    decreases n,
{
    let cur = entries_after_deletes(
        es,
        index_columns,
        table_columns,
        tuples,
        cols,
        filter,
        xid,
        snapshot,
        statuses,
        n,
    );
    if n > 0 {
        lemma_entries_after_deletes(
            es,
            index_columns,
            table_columns,
            tuples,
            cols,
            filter,
            xid,
            snapshot,
            statuses,
            n - 1,
        );
        let prev = entries_after_deletes(
            es,
            index_columns,
            table_columns,
            tuples,
            cols,
            filter,
            xid,
            snapshot,
            statuses,
            n - 1,
        );
        let taken = takes(tuples[n - 1], cols, filter, xid, snapshot, statuses) == Ok::<
            bool,
            EvalErrorView,
        >(true);
        let key_n = key_of(index_columns, table_columns, tuples[n - 1].row)->Ok_0;
        let pos_n = (tuples[n - 1].page_no as usize, tuples[n - 1].slot_no as usize);
        if taken {
            lemma_without_holds(prev, key_n, pos_n);
        }
        assert forall|key: Seq<ValueView>, pos: (usize, usize)|
            #[trigger] holds(cur, key, pos) <==> (holds(es, key, pos) && !taken_pair(
                tuples,
                index_columns,
                table_columns,
                cols,
                filter,
                xid,
                snapshot,
                statuses,
                n,
                key,
                pos,
            )) by {
            let before_n = taken_pair(
                tuples,
                index_columns,
                table_columns,
                cols,
                filter,
                xid,
                snapshot,
                statuses,
                n - 1,
                key,
                pos,
            );
            let upto_n = taken_pair(
                tuples,
                index_columns,
                table_columns,
                cols,
                filter,
                xid,
                snapshot,
                statuses,
                n,
                key,
                pos,
            );
            assert(holds(prev, key, pos) <==> (holds(es, key, pos) && !before_n));
            if before_n {
                let k = choose|k: int|
                    0 <= k < n - 1 && takes(
                        #[trigger] tuples[k],
                        cols,
                        filter,
                        xid,
                        snapshot,
                        statuses,
                    ) == Ok::<bool, EvalErrorView>(true) && key_of(
                        index_columns,
                        table_columns,
                        tuples[k].row,
                    )->Ok_0 == key && (tuples[k].page_no as usize, tuples[k].slot_no as usize)
                        == pos;
                assert(0 <= k < n);
                assert(upto_n);
            }
            if taken && key == key_n && pos == pos_n {
                assert(tuples[n - 1] == tuples[n - 1]);
                assert(upto_n);
            }
            if upto_n && !before_n {
                let k = choose|k: int|
                    0 <= k < n && takes(#[trigger] tuples[k], cols, filter, xid, snapshot, statuses)
                        == Ok::<bool, EvalErrorView>(true) && key_of(
                        index_columns,
                        table_columns,
                        tuples[k].row,
                    )->Ok_0 == key && (tuples[k].page_no as usize, tuples[k].slot_no as usize)
                        == pos;
                assert(k == n - 1);
            }
        }
    } else {
        assert forall|key: Seq<ValueView>, pos: (usize, usize)|
            #[trigger] holds(cur, key, pos) <==> (holds(es, key, pos) && !taken_pair(
                tuples,
                index_columns,
                table_columns,
                cols,
                filter,
                xid,
                snapshot,
                statuses,
                n,
                key,
                pos,
            )) by {}
    }
}

/// A DELETE by a transaction keeps an index on the table in agreement with
/// the table's heap file, as far as the statement has gone.
pub proof fn lemma_delete_keeps_index(
    before: Database,
    after: Database,
    t: int,
    i: int,
    filter: Option<ConditionView>,
    xid: u32,
    snapshot: SnapshotView,
    n: int,
)
    requires
        before.wf(),
        after.wf(),
        xid != 0,
        0 <= t < before.tables@.len(),
        0 <= i < before.indexes@.len(),
        before.indexes@[i].table@ == before.tables@[t].name@,
        0 <= n <= before.tables@[t].heap.tuples(column_types(before.tables@[t].columns@)).len(),
        before.rows_deleted(after, t, filter, xid, snapshot, n),
        index_consistent(before.indexes@[i], before.tables@[t]),
    ensures
        index_consistent(after.indexes@[i], after.tables@[t]),
{
    let table = before.tables@[t];
    let idx = before.indexes@[i];
    let schema = column_types(table.columns@);
    let icols = names_view(idx.columns@);
    let cols = aliased_columns(table.name@, table.columns@);
    let statuses = before.transaction_manager@.transactions;
    let old_tuples = table.heap.tuples(schema);
    let heap0 = table.heap;
    let heap1 = after.tables@[t].heap;
    let new_tuples = heap1.tuples(schema);
    assert(table.wf() && idx.wf());
    assert(after.tables@[t].wf());
    assert(new_tuples == deleted_tuples(old_tuples, cols, filter, xid, snapshot, statuses, n));
    lemma_entries_after_deletes(
        idx.entries(),
        icols,
        table.columns@,
        old_tuples,
        cols,
        filter,
        xid,
        snapshot,
        statuses,
        n,
    );
    lemma_heap_tuples_places(heap0.pages@, schema, heap0.pages@.len() as int);
    lemma_heap_tuples_places(heap1.pages@, schema, heap1.pages@.len() as int);
    lemma_heap_tuples_ordered(heap0.pages@, schema, heap0.pages@.len() as int);
    let es1 = after.indexes@[i].entries();
    assert forall|key: Seq<ValueView>, pos: (usize, usize)|
        #![trigger holds(es1, key, pos)]
        holds(es1, key, pos) <==> live_key_at(heap1, schema, icols, table.columns@, key, pos) by {
        let removed = taken_pair(
            old_tuples,
            icols,
            table.columns@,
            cols,
            filter,
            xid,
            snapshot,
            statuses,
            n,
            key,
            pos,
        );
        assert(holds(es1, key, pos) <==> (holds(idx.entries(), key, pos) && !removed));
        assert(holds(idx.entries(), key, pos) <==> live_key_at(
            heap0,
            schema,
            icols,
            table.columns@,
            key,
            pos,
        ));
        let p = pos.0 as int;
        let s = pos.1 as int;
        if holds(idx.entries(), key, pos) && !removed {
            lemma_scan_complete(heap0, schema, p, s);
            let k = choose|k: int|
                0 <= k < old_tuples.len() && #[trigger] old_tuples[k] == (StoredTuple {
                    page_no: p,
                    slot_no: s,
                    header: heap0.spec_get_tuple(p, s, schema).unwrap().0,
                    row: heap0.spec_get_tuple(p, s, schema).unwrap().1,
                });
            if k < n && takes(old_tuples[k], cols, filter, xid, snapshot, statuses) == Ok::<
                bool,
                EvalErrorView,
            >(true) {
                assert(removed);
            }
            assert(new_tuples[k] == old_tuples[k]);
            assert(heap1.spec_get_tuple(p, s, schema) == Some(
                (new_tuples[k].header, new_tuples[k].row),
            ));
        }
        if live_key_at(heap1, schema, icols, table.columns@, key, pos) {
            lemma_scan_complete(heap1, schema, p, s);
            let k = choose|k: int|
                0 <= k < new_tuples.len() && #[trigger] new_tuples[k] == (StoredTuple {
                    page_no: p,
                    slot_no: s,
                    header: heap1.spec_get_tuple(p, s, schema).unwrap().0,
                    row: heap1.spec_get_tuple(p, s, schema).unwrap().1,
                });
            assert(new_tuples[k].header.xmax.is_none());
            assert(new_tuples[k] == old_tuples[k]);
            assert(heap0.spec_get_tuple(p, s, schema) == Some(
                (old_tuples[k].header, old_tuples[k].row),
            ));
            if removed {
                let j = choose|j: int|
                    0 <= j < n && takes(
                        #[trigger] old_tuples[j],
                        cols,
                        filter,
                        xid,
                        snapshot,
                        statuses,
                    ) == Ok::<bool, EvalErrorView>(true) && key_of(
                        icols,
                        table.columns@,
                        old_tuples[j].row,
                    )->Ok_0 == key && (old_tuples[j].page_no as usize, old_tuples[j].slot_no as usize)
                        == pos;
                assert(old_tuples[j].page_no == p && old_tuples[j].slot_no == s);
                if j < k {
                    assert(old_tuples[j].page_no < old_tuples[k].page_no || (old_tuples[j].page_no
                        == old_tuples[k].page_no && old_tuples[j].slot_no < old_tuples[k].slot_no));
                } else if k < j {
                    assert(old_tuples[k].page_no < old_tuples[j].page_no || (old_tuples[k].page_no
                        == old_tuples[j].page_no && old_tuples[k].slot_no < old_tuples[j].slot_no));
                }
                assert(j == k);
            }
        }
    }
}

/// Each of the dead tuples that a vacuum finds in the first `n` slots of a
/// page lies in one of those slots, is read there with the row that is
/// noted, and has a deleter.
pub proof fn lemma_dead_rows_facts(
    page: Page,
    schema: Seq<ColumnType>,
    statuses: Map<u32, TxStatus>,
    n: int,
)
    requires
        0 <= n,
    ensures
        forall|k: int|
            0 <= k < page.dead_rows_upto(schema, statuses, n).len() ==> {
                let d = #[trigger] page.dead_rows_upto(schema, statuses, n)[k];
                &&& 0 <= d.0 < n
                &&& page.spec_get_tuple(d.0, schema).is_some()
                &&& page.spec_get_tuple(d.0, schema).unwrap().1 == d.1
                &&& page.spec_get_tuple(d.0, schema).unwrap().0.xmax.is_some()
            },
    decreases n,
{
    if n > 0 {
        lemma_dead_rows_facts(page, schema, statuses, n - 1);
    }
}

/// Whether an index holds none of the positions of some rows of a page
/// under the rows' keys.
pub open spec fn none_held(
    es: Seq<EntryView>,
    index_columns: Seq<Seq<char>>,
    table_columns: Seq<Column>,
    page_no: int,
    rows: Seq<(int, Seq<ValueView>)>,
) -> bool {
    forall|k: int|
        0 <= k < rows.len() && key_of(index_columns, table_columns, (#[trigger] rows[k]).1).is_ok()
            ==> !holds(
            es,
            key_of(index_columns, table_columns, rows[k].1)->Ok_0,
            (page_no as usize, rows[k].0 as usize),
        )
}

/// Taking from an index positions that it does not hold leaves it holding
/// what it held.
pub proof fn lemma_entries_less_dead(
    base: Seq<EntryView>,
    es: Seq<EntryView>,
    index_columns: Seq<Seq<char>>,
    table_columns: Seq<Column>,
    page_no: int,
    rows: Seq<(int, Seq<ValueView>)>,
    n: int,
)
    requires
        ascending(es),
        0 <= n <= rows.len(),
        none_held(base, index_columns, table_columns, page_no, rows),
        forall|key: Seq<ValueView>, pos: (usize, usize)|
            #[trigger] holds(es, key, pos) <==> holds(base, key, pos),
    ensures
        ascending(entries_less_dead(es, index_columns, table_columns, page_no, rows, n)),
        forall|key: Seq<ValueView>, pos: (usize, usize)|
            #[trigger] holds(
                entries_less_dead(es, index_columns, table_columns, page_no, rows, n),
                key,
                pos,
            ) <==> holds(base, key, pos),
    decreases n,
{
    if n > 0 {
        lemma_entries_less_dead(base, es, index_columns, table_columns, page_no, rows, n - 1);
        let prev = entries_less_dead(es, index_columns, table_columns, page_no, rows, n - 1);
        let cur = entries_less_dead(es, index_columns, table_columns, page_no, rows, n);
        let pos_n = (page_no as usize, rows[n - 1].0 as usize);
        match key_of(index_columns, table_columns, rows[n - 1].1) {
            Ok(key_n) => {
                lemma_without_holds(prev, key_n, pos_n);
                assert(!holds(base, key_n, pos_n));
                assert forall|key: Seq<ValueView>, pos: (usize, usize)|
                    #[trigger] holds(cur, key, pos) <==> holds(base, key, pos) by {
                    assert(holds(prev, key, pos) <==> holds(base, key, pos));
                }
            },
            Err(_) => {
                assert(cur == prev);
            },
        }
    }
}

/// Whether an index holds none of the positions of the dead tuples of the
/// first `k` pages under the tuples' keys.
pub open spec fn no_dead_held(
    es: Seq<EntryView>,
    index_columns: Seq<Seq<char>>,
    table_columns: Seq<Column>,
    pages: Seq<Page>,
    statuses: Map<u32, TxStatus>,
    k: int,
) -> bool {
    forall|p: int|
        0 <= p < k ==> #[trigger] none_held(
            es,
            index_columns,
            table_columns,
            p,
            pages[p].dead_rows(column_types(table_columns), statuses),
        )
}

/// A vacuum leaves an index holding what it held, if the index held none of
/// the dead tuples' positions.
pub proof fn lemma_entries_after_vacuum(
    es: Seq<EntryView>,
    index_columns: Seq<Seq<char>>,
    table_columns: Seq<Column>,
    pages: Seq<Page>,
    statuses: Map<u32, TxStatus>,
    k: int,
)
    requires
        ascending(es),
        0 <= k <= pages.len(),
        no_dead_held(es, index_columns, table_columns, pages, statuses, k),
    ensures
        ascending(entries_after_vacuum(es, index_columns, table_columns, pages, statuses, k)),
        forall|key: Seq<ValueView>, pos: (usize, usize)|
            #[trigger] holds(
                entries_after_vacuum(es, index_columns, table_columns, pages, statuses, k),
                key,
                pos,
            ) <==> holds(es, key, pos),
    decreases k,
{
    if k > 0 {
        lemma_entries_after_vacuum(es, index_columns, table_columns, pages, statuses, k - 1);
        let prev = entries_after_vacuum(es, index_columns, table_columns, pages, statuses, k - 1);
        let rows = pages[k - 1].dead_rows(column_types(table_columns), statuses);
        assert(none_held(es, index_columns, table_columns, k - 1, rows));
        lemma_entries_less_dead(
            es,
            prev,
            index_columns,
            table_columns,
            k - 1,
            rows,
            rows.len() as int,
        );
    }
}

/// A vacuum keeps an index on the table in agreement with the table's heap
/// file.
pub proof fn lemma_vacuum_keeps_index(before: Database, after: Database, t: int, i: int)
    requires
        before.wf(),
        0 <= t < before.tables@.len(),
        0 <= i < before.indexes@.len(),
        before.indexes@[i].table@ == before.tables@[t].name@,
        before.table_vacuumed(after, t),
        index_consistent(before.indexes@[i], before.tables@[t]),
    ensures
        index_consistent(after.indexes@[i], after.tables@[t]),
{
    let table = before.tables@[t];
    let idx = before.indexes@[i];
    let schema = column_types(table.columns@);
    let icols = names_view(idx.columns@);
    let statuses = before.transaction_manager@.transactions;
    let heap0 = table.heap;
    let heap1 = after.tables@[t].heap;
    let es0 = idx.entries();
    assert(table.wf() && idx.wf());
    assert forall|p: int| 0 <= p < heap0.pages@.len() implies #[trigger] none_held(
        es0,
        icols,
        table.columns@,
        p,
        heap0.pages@[p].dead_rows(schema, statuses),
    ) by {
        let rows = heap0.pages@[p].dead_rows(schema, statuses);
        lemma_dead_rows_facts(heap0.pages@[p], schema, statuses, heap0.pages@[p].header.slot_count as int);
        assert forall|k: int|
            0 <= k < rows.len() && key_of(icols, table.columns@, (#[trigger] rows[k]).1).is_ok()
            implies !holds(
            es0,
            key_of(icols, table.columns@, rows[k].1)->Ok_0,
            (p as usize, rows[k].0 as usize),
        ) by {
            let key = key_of(icols, table.columns@, rows[k].1)->Ok_0;
            let pos = (p as usize, rows[k].0 as usize);
            assert(pos.0 as int == p && pos.1 as int == rows[k].0);
            assert(!live_key_at(heap0, schema, icols, table.columns@, key, pos));
            assert(holds(es0, key, pos) <==> live_key_at(
                heap0,
                schema,
                icols,
                table.columns@,
                key,
                pos,
            ));
        }
    }
    lemma_entries_after_vacuum(
        es0,
        icols,
        table.columns@,
        heap0.pages@,
        statuses,
        heap0.pages@.len() as int,
    );
    let es1 = after.indexes@[i].entries();
    assert forall|key: Seq<ValueView>, pos: (usize, usize)|
        #![trigger holds(es1, key, pos)]
        holds(es1, key, pos) <==> live_key_at(heap1, schema, icols, table.columns@, key, pos) by {
        assert(holds(es1, key, pos) <==> holds(es0, key, pos));
        assert(holds(es0, key, pos) <==> live_key_at(
            heap0,
            schema,
            icols,
            table.columns@,
            key,
            pos,
        ));
        let p = pos.0 as int;
        let s = pos.1 as int;
        if 0 <= p < heap0.pages@.len() {
            assert(heap0.pages@[p].vacuumed(heap1.pages@[p], schema, statuses));
            lemma_vacuumed_tuples(heap0.pages@[p], heap1.pages@[p], schema, statuses, schema);
            assert(heap1.pages@[p].spec_get_tuple(s, schema) == if heap0.pages@[p].kept(
                s,
                schema,
                statuses,
            ) {
                heap0.pages@[p].spec_get_tuple(s, schema)
            } else {
                None
            });
        }
    }
}

/// After a tuple has been replaced by a new version, the heap file holds,
/// at the new position, what the new bytes are read as, and held nothing
/// there before; at the old position, the old tuple with the new deleter;
/// and at every other position what it held.
pub proof fn lemma_updated_positions(
    before: HeapFile,
    after: HeapFile,
    page_no: int,
    slot_no: int,
    xid: u32,
    tuple: Seq<u8>,
    np: int,
    ns: int,
    schema: Seq<ColumnType>,
)
    requires
        before.wf(),
        before.delete_error(page_no, slot_no).is_none(),
        before.updated(after, page_no, slot_no, xid, tuple, np, ns),
    ensures
        0 <= np <= MAX_PAGES,
        0 <= ns < MAX_SLOTS,
        !(np == page_no && ns == slot_no),
        after.spec_get_tuple(np, ns, schema) == decode_tuple(tuple, schema),
        before.spec_get_tuple(np, ns, schema).is_none(),
        after.spec_get_tuple(page_no, slot_no, schema) == match before.spec_get_tuple(
            page_no,
            slot_no,
            schema,
        ) {
            Some((h, row)) => Some((with_xmax(h, xmax_of(xid)), row)),
            None => None,
        },
        forall|p: int, s: int|
            !(p == page_no && s == slot_no) && !(p == np && s == ns)
                ==> #[trigger] after.spec_get_tuple(p, s, schema) == before.spec_get_tuple(
                p,
                s,
                schema,
            ),
{
    let n = before.pages@.len() as int;
    let page = before.pages@[page_no];
    assert(page.wf());
    if page.has_room(tuple.len() as int) {
        let stamped = choose|stamped: Page|
            stamped.wf() && stamped.header == page.header && stamped.data@ == page.data_stamped(
                slot_no,
                xid,
            ) && after.pages@[page_no].header == stamped.header_with(tuple.len() as int)
                && after.pages@[page_no].data@ == stamped.data_with(tuple);
        lemma_page_after_stamp(page, stamped, slot_no, xid, schema);
        lemma_page_after_insert(stamped, after.pages@[page_no], tuple, schema);
        assert forall|p: int, s: int|
            !(p == page_no && s == slot_no) && !(p == np && s == ns) implies #[trigger] after.spec_get_tuple(
            p,
            s,
            schema,
        ) == before.spec_get_tuple(p, s, schema) by {
            if 0 <= p < n && p != page_no {
                assert(after.pages@[p] == before.pages@[p]);
            } else if p == page_no {
                if 0 <= s < page.header.slot_count {
                    assert(after.pages@[p].spec_get_tuple(s, schema) == stamped.spec_get_tuple(
                        s,
                        schema,
                    ));
                    assert(stamped.spec_get_tuple(s, schema) == page.spec_get_tuple(s, schema));
                }
            }
        }
    } else {
        lemma_page_after_stamp(page, after.pages@[page_no], slot_no, xid, schema);
        let empty = choose|empty: Page|
            empty.header == empty_header(n as u32) && empty.wf() && empty.data@
                == Page::spec_new_data(n as u32) && empty.has_room(tuple.len() as int)
                && after.pages@[n].header == empty.header_with(tuple.len() as int)
                && after.pages@[n].data@ == empty.data_with(tuple);
        lemma_page_after_insert(empty, after.pages@[n], tuple, schema);
        assert forall|p: int, s: int|
            !(p == page_no && s == slot_no) && !(p == np && s == ns) implies #[trigger] after.spec_get_tuple(
            p,
            s,
            schema,
        ) == before.spec_get_tuple(p, s, schema) by {
            if 0 <= p < n && p != page_no {
                assert(after.pages@[p] == before.pages@[p]);
            }
        }
    }
}

/// Where the keys of a row can be built under all indexes on a table, the
/// row has a key under each of them.
pub proof fn lemma_index_key_exists(
    indexes: Seq<BTreeIndex>,
    table_name: Seq<char>,
    columns: Seq<Column>,
    row: Seq<ValueView>,
    from: int,
    i: int,
)
    requires
        0 <= from <= i < indexes.len(),
        indexes[i].table@ == table_name,
        index_keys_failure(indexes, table_name, columns, row, from).is_none(),
    ensures
        key_of(names_view(indexes[i].columns@), columns, row).is_ok(),
    decreases i - from,
{
    if from < i {
        lemma_index_keys_failure_step(indexes, table_name, columns, row, from);
        lemma_index_key_exists(indexes, table_name, columns, row, from + 1, i);
    }
}

proof fn lemma_index_keys_failure_step(
    indexes: Seq<BTreeIndex>,
    table_name: Seq<char>,
    columns: Seq<Column>,
    row: Seq<ValueView>,
    from: int,
)
    requires
        0 <= from < indexes.len(),
        index_keys_failure(indexes, table_name, columns, row, from).is_none(),
    ensures
        index_keys_failure(indexes, table_name, columns, row, from + 1).is_none(),
{
}

/// Replacing one row by its new version keeps an index on the table in
/// agreement with the table's heap file. The row must be the one that the
/// heap file holds at the position, and the new version one that is read
/// back as it was stored.
pub proof fn lemma_row_update_keeps_index(
    before: Database,
    after: Database,
    t: int,
    i: int,
    page_no: int,
    slot_no: int,
    header: TupleHeaderView,
    row: Seq<ValueView>,
    targets: Seq<Option<ValueView>>,
    xid: u32,
    snapshot: SnapshotView,
)
    requires
        before.wf(),
        xid != 0,
        0 <= t < before.tables@.len(),
        0 <= i < before.indexes@.len(),
        before.indexes@[i].table@ == before.tables@[t].name@,
        before.tables@[t].heap.spec_get_tuple(
            page_no,
            slot_no,
            column_types(before.tables@[t].columns@),
        ) == Some((header, row)),
        0 <= page_no <= MAX_PAGES,
        0 <= slot_no < MAX_SLOTS,
        before.row_update_failure(t, page_no, slot_no, row, targets, xid, snapshot).is_none(),
        before.row_updated(
            after,
            t,
            page_no,
            slot_no,
            row,
            before.post_image(t, row, targets),
            xid,
        ),
        storable(before.post_image(t, row, targets), column_types(before.tables@[t].columns@)),
        index_consistent(before.indexes@[i], before.tables@[t]),
    ensures
        index_consistent(after.indexes@[i], after.tables@[t]),
        after.indexes@[i].table == before.indexes@[i].table,
        after.indexes@[i].columns == before.indexes@[i].columns,
        forall|p: int, s: int|
            !(p == page_no && s == slot_no) && before.tables@[t].heap.spec_get_tuple(
                p,
                s,
                column_types(before.tables@[t].columns@),
            ).is_some() ==> #[trigger] after.tables@[t].heap.spec_get_tuple(
                p,
                s,
                column_types(before.tables@[t].columns@),
            ) == before.tables@[t].heap.spec_get_tuple(
                p,
                s,
                column_types(before.tables@[t].columns@),
            ),
{
    let table = before.tables@[t];
    let idx = before.indexes@[i];
    let schema = column_types(table.columns@);
    let icols = names_view(idx.columns@);
    let post = before.post_image(t, row, targets);
    let heap0 = table.heap;
    let heap1 = after.tables@[t].heap;
    assert(table.wf() && idx.wf());
    lemma_index_key_exists(before.indexes@, table.name@, table.columns@, post, 0, i);
    lemma_index_key_exists(before.indexes@, table.name@, table.columns@, row, 0, i);
    let new_key = key_of(icols, table.columns@, post)->Ok_0;
    let old_key = key_of(icols, table.columns@, row)->Ok_0;
    let old_pos = (page_no as usize, slot_no as usize);
    let (np, ns) = choose|np: int, ns: int|
        {
            &&& #[trigger] table.heap.updated(
                after.tables@[t].heap,
                page_no,
                slot_no,
                xid,
                encode_tuple(post, xid),
                np,
                ns,
            )
            &&& after.indexes@.len() == before.indexes@.len()
            &&& forall|j: int|
                0 <= j < before.indexes@.len() ==> if before.indexes@[j].table@ == table.name@ {
                    exists|mid: BTreeIndex|
                        (#[trigger] before.indexes@[j]).added(
                            mid,
                            key_of(names_view(before.indexes@[j].columns@), table.columns@, post)->Ok_0,
                            (np as usize, ns as usize),
                        ) && mid.wf() && #[trigger] mid.removed(
                            after.indexes@[j],
                            key_of(names_view(before.indexes@[j].columns@), table.columns@, row)->Ok_0,
                            (page_no as usize, slot_no as usize),
                        )
                } else {
                    after.indexes@[j] == before.indexes@[j]
                }
        };
    let new_pos = (np as usize, ns as usize);
    lemma_updated_positions(heap0, heap1, page_no, slot_no, xid, encode_tuple(post, xid), np, ns, schema);
    lemma_tuple_round_trip(post, xid, schema);
    assert(before.indexes@[i].table@ == table.name@);
    let mid = choose|mid: BTreeIndex|
        (#[trigger] before.indexes@[i]).added(mid, new_key, new_pos) && mid.wf()
            && #[trigger] mid.removed(after.indexes@[i], old_key, old_pos);
    lemma_added_holds(idx, mid, new_key, new_pos);
    lemma_without_holds(mid.entries(), old_key, old_pos);
    let es1 = after.indexes@[i].entries();
    assert forall|key: Seq<ValueView>, pos: (usize, usize)|
        #![trigger holds(es1, key, pos)]
        holds(es1, key, pos) <==> live_key_at(heap1, schema, icols, table.columns@, key, pos) by {
        assert(holds(idx.entries(), key, pos) <==> live_key_at(
            heap0,
            schema,
            icols,
            table.columns@,
            key,
            pos,
        ));
        assert(holds(mid.entries(), key, pos) <==> (holds(idx.entries(), key, pos) || (key
            == new_key && pos == new_pos)));
        assert(holds(es1, key, pos) <==> (holds(mid.entries(), key, pos) && !(key == old_key
            && pos == old_pos)));
        let p = pos.0 as int;
        let s = pos.1 as int;
        if p == np && s == ns {
            assert(pos == new_pos);
        } else if p == page_no && s == slot_no {
            assert(pos == old_pos);
        } else {
            assert(heap1.spec_get_tuple(p, s, schema) == heap0.spec_get_tuple(p, s, schema));
        }
    }
}

/// What replacing one row by its new version does to an index on the
/// table that agreed with the heap file: the index holds the new position
/// under the key of the new version; it holds the old position under no
/// key, also where the key has not changed; and for every other position
/// it holds what it held.
pub proof fn lemma_row_update_index_entries(
    before: Database,
    after: Database,
    t: int,
    i: int,
    page_no: int,
    slot_no: int,
    header: TupleHeaderView,
    row: Seq<ValueView>,
    targets: Seq<Option<ValueView>>,
    xid: u32,
    snapshot: SnapshotView,
    np: int,
    ns: int,
)
    requires
        before.wf(),
        xid != 0,
        0 <= t < before.tables@.len(),
        0 <= i < before.indexes@.len(),
        before.indexes@[i].table@ == before.tables@[t].name@,
        before.tables@[t].heap.spec_get_tuple(
            page_no,
            slot_no,
            column_types(before.tables@[t].columns@),
        ) == Some((header, row)),
        0 <= page_no <= MAX_PAGES,
        0 <= slot_no < MAX_SLOTS,
        before.row_update_failure(t, page_no, slot_no, row, targets, xid, snapshot).is_none(),
        before.row_updated(
            after,
            t,
            page_no,
            slot_no,
            row,
            before.post_image(t, row, targets),
            xid,
        ),
        before.tables@[t].heap.updated(
            after.tables@[t].heap,
            page_no,
            slot_no,
            xid,
            encode_tuple(before.post_image(t, row, targets), xid),
            np,
            ns,
        ),
        storable(before.post_image(t, row, targets), column_types(before.tables@[t].columns@)),
        index_consistent(before.indexes@[i], before.tables@[t]),
    ensures
        holds(
            after.indexes@[i].entries(),
            key_of(
                names_view(before.indexes@[i].columns@),
                before.tables@[t].columns@,
                before.post_image(t, row, targets),
            )->Ok_0,
            (np as usize, ns as usize),
        ),
        forall|key: Seq<ValueView>|
            !#[trigger] holds(
                after.indexes@[i].entries(),
                key,
                (page_no as usize, slot_no as usize),
            ),
        forall|key: Seq<ValueView>, pos: (usize, usize)|
            pos != (np as usize, ns as usize) && pos != (page_no as usize, slot_no as usize)
                ==> (#[trigger] holds(after.indexes@[i].entries(), key, pos) <==> holds(
                before.indexes@[i].entries(),
                key,
                pos,
            )),
{
    let table = before.tables@[t];
    let schema = column_types(table.columns@);
    let icols = names_view(before.indexes@[i].columns@);
    let post = before.post_image(t, row, targets);
    let heap0 = table.heap;
    let heap1 = after.tables@[t].heap;
    let es0 = before.indexes@[i].entries();
    let es1 = after.indexes@[i].entries();
    assert(table.wf());
    lemma_row_update_keeps_index(
        before,
        after,
        t,
        i,
        page_no,
        slot_no,
        header,
        row,
        targets,
        xid,
        snapshot,
    );
    lemma_index_key_exists(before.indexes@, table.name@, table.columns@, post, 0, i);
    lemma_updated_positions(heap0, heap1, page_no, slot_no, xid, encode_tuple(post, xid), np, ns, schema);
    lemma_tuple_round_trip(post, xid, schema);
    let new_key = key_of(icols, table.columns@, post)->Ok_0;
    let new_pos = (np as usize, ns as usize);
    let old_pos = (page_no as usize, slot_no as usize);
    assert(after.tables@[t].columns == table.columns);
    assert(live_key_at(heap1, schema, icols, table.columns@, new_key, new_pos));
    assert(holds(es1, new_key, new_pos));
    assert forall|key: Seq<ValueView>| !#[trigger] holds(es1, key, old_pos) by {
        assert(!live_key_at(heap1, schema, icols, table.columns@, key, old_pos));
    }
    assert forall|key: Seq<ValueView>, pos: (usize, usize)|
        pos != new_pos && pos != old_pos implies (#[trigger] holds(es1, key, pos) <==> holds(
        es0,
        key,
        pos,
    )) by {
        let p = pos.0 as int;
        let q = pos.1 as int;
        assert(!(p == np && q == ns));
        assert(!(p == page_no && q == slot_no));
        assert(heap1.spec_get_tuple(p, q, schema) == heap0.spec_get_tuple(p, q, schema));
        assert(holds(es0, key, pos) <==> live_key_at(
            heap0,
            schema,
            icols,
            table.columns@,
            key,
            pos,
        ));
        assert(holds(es1, key, pos) <==> live_key_at(
            heap1,
            schema,
            icols,
            table.columns@,
            key,
            pos,
        ));
    }
}

/// Replacing one row by its new version leaves no entry of an index
/// without positions, if there was none: the key that loses its last
/// position goes.
pub proof fn lemma_row_update_keeps_buckets(
    before: Database,
    after: Database,
    t: int,
    i: int,
    page_no: int,
    slot_no: int,
    row: Seq<ValueView>,
    post: Seq<ValueView>,
    xid: u32,
)
    requires
        0 <= t < before.tables@.len(),
        0 <= i < before.indexes@.len(),
        before.row_updated(after, t, page_no, slot_no, row, post, xid),
        buckets_nonempty(before.indexes@[i].entries()),
    ensures
        buckets_nonempty(after.indexes@[i].entries()),
{
    let table = before.tables@[t];
    let (np, ns) = choose|np: int, ns: int|
        {
            &&& #[trigger] table.heap.updated(
                after.tables@[t].heap,
                page_no,
                slot_no,
                xid,
                encode_tuple(post, xid),
                np,
                ns,
            )
            &&& after.indexes@.len() == before.indexes@.len()
            &&& forall|j: int|
                0 <= j < before.indexes@.len() ==> if before.indexes@[j].table@ == table.name@ {
                    exists|mid: BTreeIndex|
                        (#[trigger] before.indexes@[j]).added(
                            mid,
                            key_of(names_view(before.indexes@[j].columns@), table.columns@, post)->Ok_0,
                            (np as usize, ns as usize),
                        ) && mid.wf() && #[trigger] mid.removed(
                            after.indexes@[j],
                            key_of(names_view(before.indexes@[j].columns@), table.columns@, row)->Ok_0,
                            (page_no as usize, slot_no as usize),
                        )
                } else {
                    after.indexes@[j] == before.indexes@[j]
                }
        };
    if before.indexes@[i].table@ == table.name@ {
        let new_key = key_of(names_view(before.indexes@[i].columns@), table.columns@, post)->Ok_0;
        let old_key = key_of(names_view(before.indexes@[i].columns@), table.columns@, row)->Ok_0;
        let mid = choose|mid: BTreeIndex|
            (#[trigger] before.indexes@[i]).added(mid, new_key, (np as usize, ns as usize))
                && mid.wf() && #[trigger] mid.removed(
                after.indexes@[i],
                old_key,
                (page_no as usize, slot_no as usize),
            );
        lemma_added_keeps_buckets(before.indexes@[i], mid, new_key, (np as usize, ns as usize));
        lemma_without_keeps_buckets(mid.entries(), old_key, (page_no as usize, slot_no as usize));
    } else {
        assert(after.indexes@[i] == before.indexes@[i]);
    }
}

/// Whether `cur` is in step with `before` while an UPDATE has gone through
/// the first `n` tuples of the scan: the table and the index are the same
/// in name and columns, the index agrees with the heap file, and the tuples
/// from the `n`-th on are where they were.
pub open spec fn update_in_step(
    before: Database,
    cur: Database,
    t: int,
    i: int,
    tuples: Seq<StoredTuple>,
    n: int,
) -> bool {
    let schema = column_types(before.tables@[t].columns@);
    &&& cur.tables@.len() == before.tables@.len()
    &&& cur.indexes@.len() == before.indexes@.len()
    &&& cur.tables@[t].name == before.tables@[t].name
    &&& cur.tables@[t].columns == before.tables@[t].columns
    &&& cur.indexes@[i].table == before.indexes@[i].table
    &&& cur.indexes@[i].columns == before.indexes@[i].columns
    &&& index_consistent(cur.indexes@[i], cur.tables@[t])
    &&& forall|j: int|
        n <= j < tuples.len() ==> cur.tables@[t].heap.spec_get_tuple(
            (#[trigger] tuples[j]).page_no,
            tuples[j].slot_no,
            schema,
        ) == Some((tuples[j].header, tuples[j].row))
}

/// An UPDATE by a transaction keeps an index on the table in agreement
/// with the table's heap file, as far as the statement has gone. Each new
/// version must be one that is read back as it was stored.
pub proof fn lemma_update_keeps_index(
    before: Database,
    after: Database,
    t: int,
    i: int,
    targets: Seq<Option<ValueView>>,
    filter: Option<ConditionView>,
    xid: u32,
    snapshot: SnapshotView,
    n: int,
)
    requires
        before.wf(),
        after.wf(),
        xid != 0,
        0 <= t < before.tables@.len(),
        0 <= i < before.indexes@.len(),
        before.indexes@[i].table@ == before.tables@[t].name@,
        0 <= n <= before.tables@[t].heap.tuples(column_types(before.tables@[t].columns@)).len(),
        before.updates_upto(
            after,
            t,
            before.tables@[t].heap.tuples(column_types(before.tables@[t].columns@)),
            targets,
            filter,
            xid,
            snapshot,
            n,
        ),
        forall|k: int|
            0 <= k < n && takes(
                #[trigger] before.tables@[t].heap.tuples(
                    column_types(before.tables@[t].columns@),
                )[k],
                aliased_columns(before.tables@[t].name@, before.tables@[t].columns@),
                filter,
                xid,
                snapshot,
                before.transaction_manager@.transactions,
            ) == Ok::<bool, EvalErrorView>(true) ==> storable(
                before.post_image(
                    t,
                    before.tables@[t].heap.tuples(column_types(before.tables@[t].columns@))[k].row,
                    targets,
                ),
                column_types(before.tables@[t].columns@),
            ),
        index_consistent(before.indexes@[i], before.tables@[t]),
    ensures
        update_in_step(
            before,
            after,
            t,
            i,
            before.tables@[t].heap.tuples(column_types(before.tables@[t].columns@)),
            n,
        ),
    decreases n,
{
    let table = before.tables@[t];
    let schema = column_types(table.columns@);
    let tuples = table.heap.tuples(schema);
    let cols = aliased_columns(table.name@, table.columns@);
    let statuses = before.transaction_manager@.transactions;
    assert(table.wf());
    lemma_heap_tuples_places(table.heap.pages@, schema, table.heap.pages@.len() as int);
    lemma_heap_tuples_ordered(table.heap.pages@, schema, table.heap.pages@.len() as int);
    if n <= 0 {
        assert(after.tables@[t] == before.tables@[t]);
        assert(after.indexes@[i] == before.indexes@[i]);
    } else if takes(tuples[n - 1], cols, filter, xid, snapshot, statuses) == Ok::<
        bool,
        EvalErrorView,
    >(true) {
        let mid = choose|mid: Database|
            {
                &&& before.updates_upto(mid, t, tuples, targets, filter, xid, snapshot, n - 1)
                &&& mid.wf()
                &&& mid.row_update_failure(
                    t,
                    tuples[n - 1].page_no,
                    tuples[n - 1].slot_no,
                    tuples[n - 1].row,
                    targets,
                    xid,
                    snapshot,
                ).is_none()
                &&& #[trigger] mid.row_updated(
                    after,
                    t,
                    tuples[n - 1].page_no,
                    tuples[n - 1].slot_no,
                    tuples[n - 1].row,
                    mid.post_image(t, tuples[n - 1].row, targets),
                    xid,
                )
            };
        lemma_update_keeps_index(before, mid, t, i, targets, filter, xid, snapshot, n - 1);
        let tk = tuples[n - 1];
        assert(mid.post_image(t, tk.row, targets) == before.post_image(t, tk.row, targets));
        assert(mid.indexes@[i].table@ == mid.tables@[t].name@);
        lemma_row_update_keeps_index(
            mid,
            after,
            t,
            i,
            tk.page_no,
            tk.slot_no,
            tk.header,
            tk.row,
            targets,
            xid,
            snapshot,
        );
        assert forall|j: int| n <= j < tuples.len() implies after.tables@[t].heap.spec_get_tuple(
            (#[trigger] tuples[j]).page_no,
            tuples[j].slot_no,
            schema,
        ) == Some((tuples[j].header, tuples[j].row)) by {
            assert(tuples[n - 1].page_no < tuples[j].page_no || (tuples[n - 1].page_no
                == tuples[j].page_no && tuples[n - 1].slot_no < tuples[j].slot_no));
            assert(mid.tables@[t].heap.spec_get_tuple(tuples[j].page_no, tuples[j].slot_no, schema)
                == Some((tuples[j].header, tuples[j].row)));
        }
    } else {
        lemma_update_keeps_index(before, after, t, i, targets, filter, xid, snapshot, n - 1);
    }
}

/// Whether one of the first `n` tuples is live and has the key and the
/// position.
pub open spec fn live_pair(
    tuples: Seq<StoredTuple>,
    index_columns: Seq<Seq<char>>,
    table_columns: Seq<Column>,
    n: int,
    key: Seq<ValueView>,
    pos: (usize, usize),
) -> bool {
    exists|k: int|
        0 <= k < n && (#[trigger] tuples[k]).header.xmax.is_none() && key_of(
            index_columns,
            table_columns,
            tuples[k].row,
        ) == Ok::<_, crate::errors::engine_error::DbErrorView>(key) && (
            tuples[k].page_no as usize,
            tuples[k].slot_no as usize,
        ) == pos
}

/// An index that holds a position under a key exactly for the live tuples
/// of a scan of the heap file agrees with the heap file.
pub proof fn lemma_built_from_scan(idx: BTreeIndex, table: Table)
    requires
        table.wf(),
        forall|key: Seq<ValueView>, pos: (usize, usize)|
            #[trigger] holds(idx.entries(), key, pos) <==> live_pair(
                table.heap.tuples(column_types(table.columns@)),
                names_view(idx.columns@),
                table.columns@,
                table.heap.tuples(column_types(table.columns@)).len() as int,
                key,
                pos,
            ),
    ensures
        index_consistent(idx, table),
{
    let schema = column_types(table.columns@);
    let icols = names_view(idx.columns@);
    let tuples = table.heap.tuples(schema);
    lemma_heap_tuples_places(table.heap.pages@, schema, table.heap.pages@.len() as int);
    assert forall|key: Seq<ValueView>, pos: (usize, usize)|
        #![trigger holds(idx.entries(), key, pos)]
        holds(idx.entries(), key, pos) <==> live_key_at(
            table.heap,
            schema,
            icols,
            table.columns@,
            key,
            pos,
        ) by {
        let listed = live_pair(tuples, icols, table.columns@, tuples.len() as int, key, pos);
        assert(holds(idx.entries(), key, pos) <==> listed);
        let p = pos.0 as int;
        let s = pos.1 as int;
        if listed {
            let k = choose|k: int|
                0 <= k < tuples.len() && (#[trigger] tuples[k]).header.xmax.is_none() && key_of(
                    icols,
                    table.columns@,
                    tuples[k].row,
                ) == Ok::<_, crate::errors::engine_error::DbErrorView>(key) && (
                    tuples[k].page_no as usize,
                    tuples[k].slot_no as usize,
                ) == pos;
            assert(tuples[k].page_no == p && tuples[k].slot_no == s);
        }
        if live_key_at(table.heap, schema, icols, table.columns@, key, pos) {
            lemma_scan_complete(table.heap, schema, p, s);
            let k = choose|k: int|
                0 <= k < tuples.len() && #[trigger] tuples[k] == (StoredTuple {
                    page_no: p,
                    slot_no: s,
                    header: table.heap.spec_get_tuple(p, s, schema).unwrap().0,
                    row: table.heap.spec_get_tuple(p, s, schema).unwrap().1,
                });
            assert(tuples[k].header.xmax.is_none());
            assert(listed);
        }
    }
}

} // verus!
