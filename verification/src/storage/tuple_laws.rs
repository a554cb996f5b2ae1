use crate::consts::{ITEM_ID_SIZE, PAGE_HEADER_SIZE, PAGE_SIZE};
use crate::storage::bytes::{lemma_overwrite, lemma_same_range, overwrite, u16_at, u32_at};
use crate::storage::codec::{
    decode_tuple, decode_value, decode_values, encode_tuple, fresh_header, lemma_row_nullmap,
    lemma_tuple_round_trip, storable,
};
use crate::storage::heap_file::{
    heap_tuples_upto, page_tuples, page_tuples_upto, HeapFile, StoredTuple,
};
use crate::storage::item_id::item_at;
use crate::storage::page::{slot_pos, MAX_SLOTS};
use crate::storage::page_header::empty_header;
use crate::storage::tuple_header::{
    header_fits, header_len, tuple_header_of, xmax_of,
};
use crate::types::page_types::{Page, TupleHeaderView};
use crate::types::storage_types::{ColumnType, ValueView};
use vstd::prelude::*;

verus! {

/// Two pages with the same slot count, the same item id in a slot and the
/// same bytes where the slot's tuple lies hold the same tuple in the slot.
pub proof fn lemma_same_tuple(p: Page, q: Page, slot: int, schema: Seq<ColumnType>)
    requires
        p.header.slot_count == q.header.slot_count,
        p.item(slot) == q.item(slot),
        p.item(slot).offset + p.item(slot).len <= PAGE_SIZE ==> p.tuple_bytes(slot)
            == q.tuple_bytes(slot),
    ensures
        p.spec_get_tuple(slot, schema) == q.spec_get_tuple(slot, schema),
{
}

/// What the values of a tuple are read as depends only on the bytes from the
/// place on where the reading begins.
pub proof fn lemma_decode_values_suffix(
    a: Seq<u8>,
    b: Seq<u8>,
    cursor: int,
    schema: Seq<ColumnType>,
    nullmap: Seq<u8>,
    i: int,
    acc: Seq<ValueView>,
)
    requires
        a.len() == b.len(),
        0 <= cursor,
        forall|k: int| cursor <= k < a.len() ==> a[k] == b[k],
    ensures
        decode_values(a, cursor, schema, nullmap, i, acc) == decode_values(
            b,
            cursor,
            schema,
            nullmap,
            i,
            acc,
        ),
    decreases schema.len() - i,
{
    if 0 <= i < schema.len() {
        if crate::storage::tuple_header::null_at(nullmap, i) {
            lemma_decode_values_suffix(a, b, cursor, schema, nullmap, i + 1, acc.push(ValueView::Null));
        } else {
            assert(decode_value(a, cursor, schema[i]) == decode_value(b, cursor, schema[i])) by {
                if cursor <= a.len() {
                    lemma_same_range(a, b, cursor, a.len() as int);
                    if cursor + 2 <= a.len() {
                        let n = u16_at(a, cursor) as int;
                        if cursor + 2 + n <= a.len() {
                            assert(a.subrange(cursor + 2, cursor + 2 + n) =~= b.subrange(
                                cursor + 2,
                                cursor + 2 + n,
                            ));
                        }
                    }
                }
            }
            match decode_value(a, cursor, schema[i]) {
                None => {},
                Some((v, next)) => {
                    lemma_decode_values_suffix(a, b, next, schema, nullmap, i + 1, acc.push(v));
                },
            }
        }
    }
}

/// A tuple's header with another deleter.
pub open spec fn with_xmax(h: TupleHeaderView, xmax: Option<u32>) -> TupleHeaderView {
    TupleHeaderView { xmax, ..h }
}

/// A tuple whose `xmax` field is overwritten is read as the same tuple with
/// the new deleter.
pub proof fn lemma_stamped_tuple(bytes: Seq<u8>, xid: u32, schema: Seq<ColumnType>)
    requires
        bytes.len() >= 8,
    ensures
        decode_tuple(overwrite(bytes, 4, crate::storage::bytes::u32_bytes(xid)), schema)
            == match decode_tuple(bytes, schema) {
            Some((h, row)) => Some((with_xmax(h, xmax_of(xid)), row)),
            None => None,
        },
{
    crate::storage::bytes::lemma_u32_round_trip();
    let src = crate::storage::bytes::u32_bytes(xid);
    let after = overwrite(bytes, 4, src);
    lemma_overwrite(bytes, 4, src);
    assert(after.subrange(0, 4) =~= bytes.subrange(0, 4));
    assert(after.subrange(4, 8) =~= src);
    if bytes.len() >= 10 {
        assert(after.subrange(8, 10) =~= bytes.subrange(8, 10));
        if header_fits(bytes) {
            let n = crate::storage::tuple_header::announced_nullmap_len(bytes);
            assert(after.subrange(10, 10 + n) =~= bytes.subrange(10, 10 + n));
            assert(after.subrange(10 + n, 12 + n) =~= bytes.subrange(10 + n, 12 + n));
            let h = tuple_header_of(bytes);
            assert(tuple_header_of(after) == with_xmax(h, xmax_of(xid)));
            lemma_decode_values_suffix(
                after,
                bytes,
                header_len(bytes),
                schema,
                h.nullmap,
                0,
                Seq::empty(),
            );
        }
    }
}

/// The tuples in the first `n` slots of a page all carry the page's number
/// and the number of a slot before `n`, in ascending order of the slots.
pub proof fn lemma_page_tuples_places(page: Page, schema: Seq<ColumnType>, page_no: int, n: int)
    requires
        0 <= n,
    ensures
        forall|k: int|
            0 <= k < page_tuples_upto(page, schema, page_no, n).len() ==> {
                let t = #[trigger] page_tuples_upto(page, schema, page_no, n)[k];
                &&& t.page_no == page_no
                &&& 0 <= t.slot_no < n
                &&& page.spec_get_tuple(t.slot_no, schema) == Some((t.header, t.row))
            },
        forall|a: int, b: int|
            0 <= a < b < page_tuples_upto(page, schema, page_no, n).len() ==> (
            #[trigger] page_tuples_upto(page, schema, page_no, n)[a]).slot_no < (
            #[trigger] page_tuples_upto(page, schema, page_no, n)[b]).slot_no,
    decreases n,
{
    if n > 0 {
        lemma_page_tuples_places(page, schema, page_no, n - 1);
    }
}

/// Pages that hold the same tuple in each of the first `n` slots have the
/// same tuples there.
pub proof fn lemma_page_tuples_same(p: Page, q: Page, schema: Seq<ColumnType>, page_no: int, n: int)
    requires
        forall|s: int| 0 <= s < n ==> p.spec_get_tuple(s, schema) == q.spec_get_tuple(s, schema),
    ensures
        page_tuples_upto(p, schema, page_no, n) == page_tuples_upto(q, schema, page_no, n),
    decreases n,
{
    if n > 0 {
        lemma_page_tuples_same(p, q, schema, page_no, n - 1);
    }
}

/// The tuples of the first `k` pages depend on those pages only.
pub proof fn lemma_heap_tuples_same(a: Seq<Page>, b: Seq<Page>, schema: Seq<ColumnType>, k: int)
    requires
        0 <= k <= a.len(),
        k <= b.len(),
        forall|i: int| 0 <= i < k ==> a[i] == b[i],
    ensures
        heap_tuples_upto(a, schema, k) == heap_tuples_upto(b, schema, k),
    decreases k,
{
    if k > 0 {
        lemma_heap_tuples_same(a, b, schema, k - 1);
    }
}

/// After an insertion a page holds, in the slots that it had, the tuples
/// that it held, and in the new slot what the inserted bytes are read as.
pub proof fn lemma_page_after_insert(
    before: Page,
    after: Page,
    tuple: Seq<u8>,
    schema: Seq<ColumnType>,
)
    requires
        before.wf(),
        before.has_room(tuple.len() as int),
        after.header == before.header_with(tuple.len() as int),
        after.data@ == before.data_with(tuple),
    ensures
        after.wf(),
        forall|s: int|
            0 <= s < before.header.slot_count ==> after.spec_get_tuple(s, schema)
                == before.spec_get_tuple(s, schema),
        after.spec_get_tuple(before.header.slot_count as int, schema) == decode_tuple(
            tuple,
            schema,
        ),
{
    before.lemma_insert_keeps(tuple);
    let n = before.header.slot_count as int;
    assert forall|s: int| 0 <= s < n implies after.spec_get_tuple(s, schema)
        == before.spec_get_tuple(s, schema) by {
        assert(after.item(s) == before.item(s));
        if before.used(s) {
            assert(after.used(s));
            let lo = before.item(s).offset as int;
            let hi = lo + before.item(s).len;
            lemma_same_range(after.data@, before.data@, lo, hi);
        }
    }
    assert(after.item(n) == before.next_item(tuple.len() as int));
    assert(after.used(n));
    assert(after.tuple_bytes(n) == tuple);
}

/// After an insertion a page has the tuples that it had and, after them,
/// the tuple that was inserted, provided that the row can be stored under
/// the column types.
pub proof fn lemma_page_tuples_after_insert(
    before: Page,
    after: Page,
    row: Seq<ValueView>,
    xid: u32,
    schema: Seq<ColumnType>,
    page_no: int,
)
    requires
        before.wf(),
        before.has_room(encode_tuple(row, xid).len() as int),
        after.header == before.header_with(encode_tuple(row, xid).len() as int),
        after.data@ == before.data_with(encode_tuple(row, xid)),
        storable(row, schema),
    ensures
        page_tuples(after, schema, page_no) == page_tuples(before, schema, page_no).push(
            StoredTuple {
                page_no,
                slot_no: before.header.slot_count as int,
                header: fresh_header(row, xid),
                row,
            },
        ),
{
    let tuple = encode_tuple(row, xid);
    lemma_page_after_insert(before, after, tuple, schema);
    lemma_tuple_round_trip(row, xid, schema);
    let n = before.header.slot_count as int;
    lemma_page_tuples_same(after, before, schema, page_no, n);
}

/// After an insertion a heap file has the tuples that it had and, after
/// them, the tuple that was inserted, provided that the row can be stored
/// under the column types.
pub proof fn lemma_heap_tuples_after_insert(
    before: HeapFile,
    after: HeapFile,
    row: Seq<ValueView>,
    xid: u32,
    schema: Seq<ColumnType>,
    page_no: int,
    slot_no: int,
)
    requires
        before.wf(),
        before.inserted(after, encode_tuple(row, xid), page_no, slot_no),
        storable(row, schema),
    ensures
        after.tuples(schema) == before.tuples(schema).push(
            StoredTuple { page_no, slot_no, header: fresh_header(row, xid), row },
        ),
{
    let tuple = encode_tuple(row, xid);
    let n = before.pages@.len() as int;
    let last = before.pages@.last();
    if last.has_room(tuple.len() as int) {
        lemma_heap_tuples_same(after.pages@, before.pages@, schema, n - 1);
        lemma_page_tuples_after_insert(last, after.pages@[n - 1], row, xid, schema, n - 1);
        assert(after.tuples(schema) =~= before.tuples(schema).push(
            StoredTuple { page_no, slot_no, header: fresh_header(row, xid), row },
        ));
    } else {
        lemma_heap_tuples_same(after.pages@, before.pages@, schema, n);
        let empty = choose|empty: Page|
            empty.header == empty_header(n as u32) && empty.wf() && empty.data@
                == Page::spec_new_data(n as u32) && empty.has_room(tuple.len() as int)
                && after.pages@[n].header == empty.header_with(tuple.len() as int)
                && after.pages@[n].data@ == empty.data_with(tuple);
        lemma_page_tuples_after_insert(empty, after.pages@[n], row, xid, schema, n);
        assert(page_tuples(empty, schema, n) =~= Seq::empty());
        assert(after.tuples(schema) =~= before.tuples(schema).push(
            StoredTuple { page_no, slot_no, header: fresh_header(row, xid), row },
        ));
    }
}

/// A tuple with `xid` as its deleter, if it is the one at the position;
/// else the tuple as it is.
pub open spec fn stamp_at(t: StoredTuple, page_no: int, slot_no: int, xid: u32) -> StoredTuple {
    if t.page_no == page_no && t.slot_no == slot_no {
        StoredTuple { header: with_xmax(t.header, xmax_of(xid)), ..t }
    } else {
        t
    }
}

/// The tuples with `xid` as the deleter of the one at the position.
pub open spec fn stamped_tuples(ts: Seq<StoredTuple>, page_no: int, slot_no: int, xid: u32) -> Seq<
    StoredTuple,
> {
    Seq::new(ts.len(), |k: int| stamp_at(ts[k], page_no, slot_no, xid))
}

/// After a tuple has been marked as deleted, its page holds the same
/// tuples, and that one with the new deleter.
pub proof fn lemma_page_after_stamp(
    before: Page,
    after: Page,
    slot: int,
    xid: u32,
    schema: Seq<ColumnType>,
)
    requires
        before.wf(),
        before.stamp_error(slot).is_none(),
        after.header == before.header,
        after.data@ == before.data_stamped(slot, xid),
    ensures
        after.wf(),
        forall|s: int|
            s != slot ==> after.spec_get_tuple(s, schema) == before.spec_get_tuple(s, schema),
        after.spec_get_tuple(slot, schema) == match before.spec_get_tuple(slot, schema) {
            Some((h, row)) => Some((with_xmax(h, xmax_of(xid)), row)),
            None => None,
        },
{
    before.lemma_stamp_keeps(slot, xid);
    let off = before.item(slot).offset as int;
    let len = before.item(slot).len as int;
    assert(before.used(slot));
    assert forall|s: int| s != slot implies after.spec_get_tuple(s, schema)
        == before.spec_get_tuple(s, schema) by {
        if 0 <= s < before.header.slot_count {
            assert(after.item(s) == before.item(s));
            if before.used(s) {
                assert(after.used(s));
                let lo = before.item(s).offset as int;
                let hi = lo + before.item(s).len;
                if s < slot {
                    assert(before.item(s).offset + before.item(s).len <= before.item(slot).offset);
                } else {
                    assert(before.item(slot).offset + before.item(slot).len <= before.item(s).offset);
                }
                lemma_same_range(after.data@, before.data@, lo, hi);
            }
        }
    }
    assert(after.item(slot) == before.item(slot));
    if slot < MAX_SLOTS && off + len <= PAGE_SIZE {
        let src = crate::storage::bytes::u32_bytes(xid);
        crate::storage::bytes::lemma_u32_round_trip();
        assert(after.tuple_bytes(slot) =~= overwrite(before.tuple_bytes(slot), 4, src));
        lemma_stamped_tuple(before.tuple_bytes(slot), xid, schema);
    }
}

/// After a tuple has been marked as deleted, its page has the tuples that
/// it had, and that one with the new deleter.
pub proof fn lemma_page_tuples_after_stamp(
    before: Page,
    after: Page,
    slot: int,
    xid: u32,
    schema: Seq<ColumnType>,
    page_no: int,
    n: int,
)
    requires
        before.wf(),
        before.stamp_error(slot).is_none(),
        after.header == before.header,
        after.data@ == before.data_stamped(slot, xid),
        0 <= n,
    ensures
        page_tuples_upto(after, schema, page_no, n) == stamped_tuples(
            page_tuples_upto(before, schema, page_no, n),
            page_no,
            slot,
            xid,
        ),
    decreases n,
{
    lemma_page_after_stamp(before, after, slot, xid, schema);
    if n > 0 {
        lemma_page_tuples_after_stamp(before, after, slot, xid, schema, page_no, n - 1);
        lemma_page_tuples_places(before, schema, page_no, n - 1);
        let prev_b = page_tuples_upto(before, schema, page_no, n - 1);
        let prev_a = page_tuples_upto(after, schema, page_no, n - 1);
        assert(page_tuples_upto(after, schema, page_no, n) =~= stamped_tuples(
            page_tuples_upto(before, schema, page_no, n),
            page_no,
            slot,
            xid,
        ));
    } else {
        assert(page_tuples_upto(after, schema, page_no, n) =~= stamped_tuples(
            page_tuples_upto(before, schema, page_no, n),
            page_no,
            slot,
            xid,
        ));
    }
}

/// The tuples of the first `k` pages all lie on a page before `k`.
pub proof fn lemma_heap_tuples_places(pages: Seq<Page>, schema: Seq<ColumnType>, k: int)
    requires
        0 <= k <= pages.len(),
    ensures
        forall|j: int|
            0 <= j < heap_tuples_upto(pages, schema, k).len() ==> {
                let t = #[trigger] heap_tuples_upto(pages, schema, k)[j];
                &&& 0 <= t.page_no < k
                &&& 0 <= t.slot_no < pages[t.page_no].header.slot_count
                &&& pages[t.page_no].spec_get_tuple(t.slot_no, schema) == Some((t.header, t.row))
            },
    decreases k,
{
    if k > 0 {
        lemma_heap_tuples_places(pages, schema, k - 1);
        lemma_page_tuples_places(pages[k - 1], schema, k - 1, pages[k - 1].header.slot_count as int);
    }
}

/// After a tuple has been marked as deleted, the heap file has the tuples
/// that it had, and that one with the new deleter.
pub proof fn lemma_heap_tuples_after_stamp(
    before: HeapFile,
    after: HeapFile,
    page_no: int,
    slot_no: int,
    xid: u32,
    schema: Seq<ColumnType>,
)
    requires
        before.wf(),
        before.delete_error(page_no, slot_no).is_none(),
        before.stamped(after, page_no, slot_no, xid),
    ensures
        after.tuples(schema) == stamped_tuples(before.tuples(schema), page_no, slot_no, xid),
{
    lemma_heap_stamp_upto(before, after, page_no, slot_no, xid, schema, before.pages@.len() as int);
}

proof fn lemma_heap_stamp_upto(
    before: HeapFile,
    after: HeapFile,
    page_no: int,
    slot_no: int,
    xid: u32,
    schema: Seq<ColumnType>,
    k: int,
)
    requires
        before.wf(),
        before.delete_error(page_no, slot_no).is_none(),
        before.stamped(after, page_no, slot_no, xid),
        0 <= k <= before.pages@.len(),
    ensures
        heap_tuples_upto(after.pages@, schema, k) == stamped_tuples(
            heap_tuples_upto(before.pages@, schema, k),
            page_no,
            slot_no,
            xid,
        ),
    decreases k,
{
    if k > 0 {
        lemma_heap_stamp_upto(before, after, page_no, slot_no, xid, schema, k - 1);
        let pb = before.pages@[k - 1];
        let pa = after.pages@[k - 1];
        let n = pb.header.slot_count as int;
        if k - 1 == page_no {
            lemma_page_tuples_after_stamp(pb, pa, slot_no, xid, schema, k - 1, n);
        } else {
            assert(pa == pb);
            lemma_page_tuples_places(pb, schema, k - 1, n);
            assert(page_tuples(pa, schema, k - 1) =~= stamped_tuples(
                page_tuples(pb, schema, k - 1),
                page_no,
                slot_no,
                xid,
            ));
        }
        assert(heap_tuples_upto(after.pages@, schema, k) =~= stamped_tuples(
            heap_tuples_upto(before.pages@, schema, k),
            page_no,
            slot_no,
            xid,
        ));
    } else {
        assert(heap_tuples_upto(after.pages@, schema, k) =~= stamped_tuples(
            heap_tuples_upto(before.pages@, schema, k),
            page_no,
            slot_no,
            xid,
        ));
    }
}

/// Whether two heap files have the same pages as far as headers and item
/// ids go.
pub open spec fn same_layout(a: HeapFile, b: HeapFile) -> bool {
    &&& a.pages@.len() == b.pages@.len()
    &&& forall|i: int|
        0 <= i < a.pages@.len() ==> (#[trigger] a.pages@[i]).header == b.pages@[i].header
    &&& forall|i: int, s: int|
        0 <= i < a.pages@.len() && 0 <= s < a.pages@[i].header.slot_count ==> (
        #[trigger] a.pages@[i].item(s)) == b.pages@[i].item(s)
}

/// Heap files of the same layout as a third are of the same layout.
pub proof fn lemma_same_layout_trans(a: HeapFile, b: HeapFile, c: HeapFile)
    requires
        same_layout(a, b),
        same_layout(b, c),
    ensures
        same_layout(a, c),
{
    assert forall|i: int| 0 <= i < a.pages@.len() implies (#[trigger] a.pages@[i]).header
        == c.pages@[i].header by {
        assert(a.pages@[i].header == b.pages@[i].header);
        assert(b.pages@[i].header == c.pages@[i].header);
    }
    assert forall|i: int, s: int|
        0 <= i < a.pages@.len() && 0 <= s < a.pages@[i].header.slot_count implies (
    #[trigger] a.pages@[i].item(s)) == c.pages@[i].item(s) by {
        assert(a.pages@[i].header == b.pages@[i].header);
        assert(a.pages@[i].item(s) == b.pages@[i].item(s));
        assert(b.pages@[i].item(s) == c.pages@[i].item(s));
    }
}

/// Marking a tuple as deleted leaves the layout as it is.
pub proof fn lemma_stamped_layout(
    before: HeapFile,
    after: HeapFile,
    page_no: int,
    slot_no: int,
    xid: u32,
)
    requires
        before.wf(),
        before.delete_error(page_no, slot_no).is_none(),
        before.stamped(after, page_no, slot_no, xid),
    ensures
        same_layout(after, before),
{
    before.pages@[page_no].lemma_stamp_keeps(slot_no, xid);
    assert forall|i: int, s: int|
        0 <= i < after.pages@.len() && 0 <= s < after.pages@[i].header.slot_count implies (
    #[trigger] after.pages@[i].item(s)) == before.pages@[i].item(s) by {
        if i == page_no {
            assert(item_at(before.pages@[i].data_stamped(slot_no, xid), slot_pos(s))
                == before.pages@[i].item(s));
        }
    }
}

/// Whether a tuple can be marked as deleted depends on the layout only.
pub proof fn lemma_layout_delete_error(a: HeapFile, b: HeapFile, page_no: int, slot_no: int)
    requires
        same_layout(a, b),
    ensures
        a.delete_error(page_no, slot_no) == b.delete_error(page_no, slot_no),
{
    if 0 <= page_no < a.pages@.len() {
        assert(a.pages@[page_no].header == b.pages@[page_no].header);
        if 0 <= slot_no < a.pages@[page_no].header.slot_count {
            assert(a.pages@[page_no].item(slot_no) == b.pages@[page_no].item(slot_no));
        }
    }
}

/// Every tuple that a scan finds can be marked as deleted, and lies at a
/// position that fits the machine's numbers.
pub proof fn lemma_scanned_deletable(heap: HeapFile, schema: Seq<ColumnType>)
    requires
        heap.wf(),
    ensures
        forall|j: int|
            0 <= j < heap.tuples(schema).len() ==> {
                let t = #[trigger] heap.tuples(schema)[j];
                &&& heap.delete_error(t.page_no, t.slot_no).is_none()
                &&& 0 <= t.page_no < heap.pages@.len()
                &&& 0 <= t.slot_no < MAX_SLOTS
                &&& heap.spec_get_tuple(t.page_no, t.slot_no, schema) == Some((t.header, t.row))
            },
{
    lemma_heap_tuples_places(heap.pages@, schema, heap.pages@.len() as int);
}

/// The tuples of a heap file come in ascending order of their positions,
/// so no two of them lie at one position.
pub proof fn lemma_heap_tuples_ordered(pages: Seq<Page>, schema: Seq<ColumnType>, k: int)
    requires
        0 <= k <= pages.len(),
    ensures
        forall|a: int, b: int|
            0 <= a < b < heap_tuples_upto(pages, schema, k).len() ==> {
                let x = #[trigger] heap_tuples_upto(pages, schema, k)[a];
                let y = #[trigger] heap_tuples_upto(pages, schema, k)[b];
                x.page_no < y.page_no || (x.page_no == y.page_no && x.slot_no < y.slot_no)
            },
    decreases k,
{
    if k > 0 {
        lemma_heap_tuples_ordered(pages, schema, k - 1);
        lemma_heap_tuples_places(pages, schema, k - 1);
        lemma_page_tuples_places(pages[k - 1], schema, k - 1, pages[k - 1].header.slot_count as int);
        let prev = heap_tuples_upto(pages, schema, k - 1);
        let cur = page_tuples(pages[k - 1], schema, k - 1);
        let all = heap_tuples_upto(pages, schema, k);
        assert forall|a: int, b: int| 0 <= a < b < all.len() implies ({
            let x = #[trigger] all[a];
            let y = #[trigger] all[b];
            x.page_no < y.page_no || (x.page_no == y.page_no && x.slot_no < y.slot_no)
        }) by {
            if b < prev.len() {
                assert(all[a] == prev[a] && all[b] == prev[b]);
            } else if a < prev.len() {
                assert(all[a] == prev[a] && all[b] == cur[b - prev.len()]);
            } else {
                assert(all[a] == cur[a - prev.len()] && all[b] == cur[b - prev.len()]);
            }
        }
    }
}

/// A row that has been inserted is read back at its position as it was
/// stored, value by value, NULL or not, provided that it can be stored under
/// the column types: one value per column, each NULL or of the column's
/// type, integers within 32 bits, texts shorter than 65536 bytes.
pub proof fn lemma_insert_then_get(
    before: HeapFile,
    after: HeapFile,
    row: Seq<ValueView>,
    xid: u32,
    schema: Seq<ColumnType>,
    page_no: int,
    slot_no: int,
)
    requires
        before.wf(),
        before.inserted(after, encode_tuple(row, xid), page_no, slot_no),
        storable(row, schema),
    ensures
        after.spec_get_tuple(page_no, slot_no, schema) == Some((fresh_header(row, xid), row)),
{
    let tuple = encode_tuple(row, xid);
    let n = before.pages@.len() as int;
    let last = before.pages@.last();
    lemma_tuple_round_trip(row, xid, schema);
    if last.has_room(tuple.len() as int) {
        lemma_page_after_insert(last, after.pages@[n - 1], tuple, schema);
    } else {
        let empty = choose|empty: Page|
            empty.header == empty_header(n as u32) && empty.wf() && empty.data@
                == Page::spec_new_data(n as u32) && empty.has_room(tuple.len() as int)
                && after.pages@[n].header == empty.header_with(tuple.len() as int)
                && after.pages@[n].data@ == empty.data_with(tuple);
        lemma_page_after_insert(empty, after.pages@[n], tuple, schema);
    }
}

/// In a well-formed page the tuples of the slots in use lie behind the
/// header and before the free space, no two of them overlap, and the free
/// space does not end before it begins.
pub proof fn lemma_page_integrity(page: Page)
    requires
        page.wf(),
    ensures
        page.header.free_start <= page.header.free_end,
        forall|i: int|
            page.used(i) ==> PAGE_HEADER_SIZE <= (#[trigger] page.item(i)).offset && page.item(
                i,
            ).offset + page.item(i).len <= page.header.free_start,
        forall|i: int, j: int|
            page.used(i) && page.used(j) && i != j ==> (#[trigger] page.item(i)).offset
                + page.item(i).len <= (#[trigger] page.item(j)).offset || page.item(j).offset
                + page.item(j).len <= page.item(i).offset,
{
    assert forall|i: int, j: int| page.used(i) && page.used(j) && i != j implies (
    #[trigger] page.item(i)).offset + page.item(i).len <= (#[trigger] page.item(j)).offset
        || page.item(j).offset + page.item(j).len <= page.item(i).offset by {
        if i < j {
            assert(page.item(i).offset + page.item(i).len <= page.item(j).offset);
        } else {
            assert(page.item(j).offset + page.item(j).len <= page.item(i).offset);
        }
    }
}

} // verus!
