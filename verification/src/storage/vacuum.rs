use crate::consts::{ITEM_ID_SIZE, PAGE_HEADER_SIZE, PAGE_SIZE};
use crate::storage::bytes::{copy_range, lemma_overwrite, lemma_same_range, overwrite, write_bytes};
use crate::storage::codec::column_types;
use crate::storage::item_id::{item_at, item_bytes, lemma_item_round_trip};
use crate::storage::page::{slot_pos, MAX_SLOTS};
use crate::storage::tuple_header::dead;
use crate::storage::tuple_laws::lemma_same_tuple;
use crate::executer::help_functions::{build_key, key_of};
use crate::storage::heap_file::{HeapFile, MAX_PAGES};
use crate::types::b_tree::{entries_without, BTreeIndex, EntryView};
use crate::types::page_types::{ItemId, Page, PageHeader};
use crate::types::storage_types::{names_view, values_view, Value};
use crate::types::storage_types::{Column, ColumnType, Row, ValueView};
use crate::types::transaction_types::{TransactionManager, TxStatus};
use vstd::prelude::*;

verus! {

/// The view of the slots that a vacuum freed, each with its row.
pub open spec fn removed_view(removed: Seq<(usize, Row)>) -> Seq<(int, Seq<ValueView>)> {
    Seq::new(removed.len(), |k: int| (removed[k].0 as int, removed[k].1@))
}

impl Page {
    /// Whether a slot holds a dead tuple: one that can be read by the types
    /// of the columns and whose deleter has committed.
    pub open spec fn dead_slot(&self, s: int, schema: Seq<ColumnType>, statuses: Map<u32, TxStatus>)
        -> bool {
        match self.spec_get_tuple(s, schema) {
            Some((h, _)) => dead(h, statuses),
            None => false,
        }
    }

    /// Whether a vacuum keeps the tuple of a slot: the slot is in use and its
    /// tuple is not dead.
    pub open spec fn kept(&self, s: int, schema: Seq<ColumnType>, statuses: Map<u32, TxStatus>)
        -> bool {
        self.used(s) && !self.dead_slot(s, schema, statuses)
    }

    /// The bytes that the tuples take which a vacuum keeps in the first `n` slots.
    pub open spec fn kept_len_upto(
        &self,
        schema: Seq<ColumnType>,
        statuses: Map<u32, TxStatus>,
        n: int,
    ) -> int
        decreases n,
    {
        if n <= 0 {
            0
        } else {
            self.kept_len_upto(schema, statuses, n - 1) + if self.kept(n - 1, schema, statuses) {
                self.item(n - 1).len as int
            } else {
                0
            }
        }
    }

    /// Where a vacuum puts the tuple of a slot that it keeps: behind the
    /// header and the kept tuples of the slots before.
    pub open spec fn packed_offset(
        &self,
        s: int,
        schema: Seq<ColumnType>,
        statuses: Map<u32, TxStatus>,
    ) -> int {
        PAGE_HEADER_SIZE + self.kept_len_upto(schema, statuses, s)
    }

    /// The dead tuples in the first `n` slots: each slot with the row that
    /// it holds, in ascending order of the slots.
    pub open spec fn dead_rows_upto(
        &self,
        schema: Seq<ColumnType>,
        statuses: Map<u32, TxStatus>,
        n: int,
    ) -> Seq<(int, Seq<ValueView>)>
        decreases n,
    {
        if n <= 0 {
            Seq::empty()
        } else {
            let prev = self.dead_rows_upto(schema, statuses, n - 1);
            match self.spec_get_tuple(n - 1, schema) {
                Some((h, row)) => if dead(h, statuses) {
                    prev.push((n - 1, row))
                } else {
                    prev
                },
                None => prev,
            }
        }
    }

    /// The dead tuples of the page: each slot with the row that it holds.
    pub open spec fn dead_rows(&self, schema: Seq<ColumnType>, statuses: Map<u32, TxStatus>) -> Seq<
        (int, Seq<ValueView>),
    > {
        self.dead_rows_upto(schema, statuses, self.header.slot_count as int)
    }

    /// Whether the bytes hold the tuple of a slot where this page holds it.
    pub open spec fn intact(&self, data: Seq<u8>, j: int) -> bool {
        forall|b: int|
            self.item(j).offset <= b < self.item(j).offset + self.item(j).len ==> #[trigger] data[b]
                == self.data@[b]
    }

    /// Whether the bytes hold the tuple of a slot where a vacuum puts it.
    pub open spec fn packed(
        &self,
        data: Seq<u8>,
        j: int,
        schema: Seq<ColumnType>,
        statuses: Map<u32, TxStatus>,
    ) -> bool {
        forall|c: int|
            self.packed_offset(j, schema, statuses) <= c < self.packed_offset(j, schema, statuses)
                + self.item(j).len ==> #[trigger] data[c] == self.data@[c - self.packed_offset(
                j,
                schema,
                statuses,
            ) + self.item(j).offset]
    }

    /// Whether `after` is this page after a vacuum. The slot of each dead
    /// tuple is no longer in use. Each other tuple is where the tuples
    /// before it end, with its bytes as they were, and its item id points
    /// there. The free space begins behind the last tuple. The slots keep
    /// their numbers, and the slot array its place.
    pub open spec fn vacuumed(
        &self,
        after: Page,
        schema: Seq<ColumnType>,
        statuses: Map<u32, TxStatus>,
    ) -> bool {
        &&& after.wf()
        &&& after.header == (PageHeader {
            free_start: self.packed_offset(self.header.slot_count as int, schema, statuses) as u16,
            ..self.header
        })
        &&& forall|s: int|
            0 <= s < self.header.slot_count && self.kept(s, schema, statuses) ==> {
                &&& (#[trigger] after.item(s)) == (ItemId {
                    offset: self.packed_offset(s, schema, statuses) as u16,
                    ..self.item(s)
                })
                &&& after.tuple_bytes(s) == self.tuple_bytes(s)
            }
        &&& forall|s: int|
            0 <= s < self.header.slot_count && !self.kept(s, schema, statuses) ==> (
            #[trigger] after.item(s)) == (ItemId { flags: 0, ..self.item(s) })
    }

    /// The kept tuples of the slots before a slot in use end where that
    /// slot's tuple begins, or before; those of all slots end before the
    /// free space.
    pub proof fn lemma_kept_len_bounds(
        &self,
        schema: Seq<ColumnType>,
        statuses: Map<u32, TxStatus>,
        n: int,
    )
        requires
            self.wf(),
            0 <= n <= self.header.slot_count,
        ensures
            0 <= self.kept_len_upto(schema, statuses, n),
            self.packed_offset(n, schema, statuses) <= self.header.free_start,
            forall|j: int|
                n <= j < self.header.slot_count && self.used(j) ==> self.packed_offset(
                    n,
                    schema,
                    statuses,
                ) <= (#[trigger] self.item(j)).offset,
        decreases n,
    {
        if n > 0 {
            self.lemma_kept_len_bounds(schema, statuses, n - 1);
            if self.kept(n - 1, schema, statuses) {
                assert(self.used(n - 1));
                assert(self.packed_offset(n - 1, schema, statuses) <= self.item(n - 1).offset);
                assert forall|j: int|
                    n <= j < self.header.slot_count && self.used(j) implies self.packed_offset(
                    n,
                    schema,
                    statuses,
                ) <= (#[trigger] self.item(j)).offset by {
                    assert(self.item(n - 1).offset + self.item(n - 1).len <= self.item(j).offset);
                }
            }
        }
    }

    /// The places that a vacuum gives to the tuples ascend with the slots.
    pub proof fn lemma_packed_monotone(
        &self,
        schema: Seq<ColumnType>,
        statuses: Map<u32, TxStatus>,
        a: int,
        b: int,
    )
        requires
            0 <= a <= b,
        ensures
            self.kept_len_upto(schema, statuses, a) <= self.kept_len_upto(schema, statuses, b),
            a < b && self.kept(a, schema, statuses) ==> self.kept_len_upto(schema, statuses, a)
                + self.item(a).len <= self.kept_len_upto(schema, statuses, b),
        decreases b - a,
    {
        if a < b {
            self.lemma_packed_monotone(schema, statuses, a, b - 1);
        }
    }

    /// Bytes that agree, below a limit, with bytes that hold a packed tuple
    /// below that limit hold it too.
    pub proof fn lemma_packed_frame(
        &self,
        d1: Seq<u8>,
        d2: Seq<u8>,
        j: int,
        schema: Seq<ColumnType>,
        statuses: Map<u32, TxStatus>,
        limit: int,
    )
        requires
            self.packed(d1, j, schema, statuses),
            0 <= self.packed_offset(j, schema, statuses),
            self.packed_offset(j, schema, statuses) + self.item(j).len <= limit,
            forall|k: int| 0 <= k < limit ==> #[trigger] d2[k] == d1[k],
        ensures
            self.packed(d2, j, schema, statuses),
    {
        assert forall|c: int|
            self.packed_offset(j, schema, statuses) <= c < self.packed_offset(j, schema, statuses)
                + self.item(j).len implies #[trigger] d2[c] == self.data@[c - self.packed_offset(
            j,
            schema,
            statuses,
        ) + self.item(j).offset] by {
            assert(d2[c] == d1[c]);
        }
    }

    /// Bytes that agree, outside a range, with bytes that hold a tuple in
    /// its old place outside that range hold it too.
    pub proof fn lemma_intact_frame(&self, d1: Seq<u8>, d2: Seq<u8>, j: int, lo: int, hi: int)
        requires
            self.intact(d1, j),
            self.item(j).offset + self.item(j).len <= lo || hi <= self.item(j).offset,
            self.item(j).offset + self.item(j).len <= PAGE_SIZE,
            forall|k: int| 0 <= k < PAGE_SIZE && (k < lo || k >= hi) ==> #[trigger] d2[k] == d1[k],
        ensures
            self.intact(d2, j),
    {
        assert forall|b: int|
            self.item(j).offset <= b < self.item(j).offset + self.item(j).len implies #[trigger] d2[b]
            == self.data@[b] by {
            assert(d2[b] == d1[b]);
        }
    }

    /// What holds of the page `cur` while a vacuum of this page has gone
    /// through the first `s` slots: the header is as it was; the slots from
    /// `s` on and their tuples are as they were; before `s`, the dead
    /// tuples' slots are free and the other tuples are packed.
    pub open spec fn vacuum_inv(
        &self,
        cur: Page,
        s: int,
        schema: Seq<ColumnType>,
        statuses: Map<u32, TxStatus>,
    ) -> bool {
        &&& cur.header == self.header
        &&& forall|j: int| s <= j < self.header.slot_count ==> (#[trigger] cur.item(j)) == self.item(j)
        &&& forall|j: int|
            s <= j < self.header.slot_count && self.used(j) ==> #[trigger] self.intact(cur.data@, j)
        &&& forall|j: int|
            0 <= j < s && self.kept(j, schema, statuses) ==> {
                &&& (#[trigger] cur.item(j)) == (ItemId {
                    offset: self.packed_offset(j, schema, statuses) as u16,
                    ..self.item(j)
                })
                &&& self.packed(cur.data@, j, schema, statuses)
            }
        &&& forall|j: int|
            0 <= j < s && !self.kept(j, schema, statuses) ==> (#[trigger] cur.item(j)) == (ItemId {
                flags: 0,
                ..self.item(j)
            })
    }

    /// A slot that is not in use is passed over.
    pub proof fn lemma_vacuum_skip(
        &self,
        cur: Page,
        s: int,
        schema: Seq<ColumnType>,
        statuses: Map<u32, TxStatus>,
    )
        requires
            self.wf(),
            0 <= s < self.header.slot_count,
            self.vacuum_inv(cur, s, schema, statuses),
            !self.used(s),
        ensures
            self.vacuum_inv(cur, s + 1, schema, statuses),
    {
        assert forall|j: int| 0 <= j < s + 1 implies (self.kept(j, schema, statuses) ==> (
            #[trigger] cur.item(j)) == (ItemId {
                offset: self.packed_offset(j, schema, statuses) as u16,
                ..self.item(j)
            }) && self.packed(cur.data@, j, schema, statuses)) && (!self.kept(j, schema, statuses)
            ==> cur.item(j)
            == (ItemId { flags: 0, ..self.item(j) })) by {
            if j == s {
                assert(cur.item(j) == self.item(j));
                assert(self.item(j).flags == 0);
            } else {
                assert(j < s);
            }
        }
        assert forall|j: int| s + 1 <= j < self.header.slot_count implies (
        #[trigger] cur.item(j)) == self.item(j) by {}
        assert forall|j: int|
            s + 1 <= j < self.header.slot_count && self.used(j) implies #[trigger] self.intact(
            cur.data@,
            j,
        ) by {}
    }

    /// A page that differs from `cur` in the bytes of the item id of slot
    /// `s` only has the same item ids in the other slots, the same tuples
    /// from `s` on, and the same packed tuples before `s`.
    proof fn lemma_vacuum_item_frame(
        &self,
        cur: Page,
        next: Page,
        s: int,
        schema: Seq<ColumnType>,
        statuses: Map<u32, TxStatus>,
    )
        requires
            self.wf(),
            0 <= s < self.header.slot_count,
            self.vacuum_inv(cur, s, schema, statuses),
            next.header == cur.header,
            forall|k: int|
                0 <= k < PAGE_SIZE && (k < slot_pos(s) || k >= slot_pos(s) + ITEM_ID_SIZE)
                    ==> #[trigger] next.data@[k] == cur.data@[k],
        ensures
            forall|j: int|
                0 <= j < self.header.slot_count && j != s ==> (#[trigger] next.item(j)) == cur.item(j),
            forall|j: int|
                s < j < self.header.slot_count && self.used(j) ==> #[trigger] self.intact(
                    next.data@,
                    j,
                ),
            forall|j: int|
                0 <= j < s && self.kept(j, schema, statuses) ==> #[trigger] self.packed(
                    next.data@,
                    j,
                    schema,
                    statuses,
                ),
    {
        assert forall|j: int| 0 <= j < self.header.slot_count && j != s implies (
        #[trigger] next.item(j)) == cur.item(j) by {
            lemma_same_range(next.data@, cur.data@, slot_pos(j), slot_pos(j) + ITEM_ID_SIZE);
        }
        assert forall|j: int|
            s < j < self.header.slot_count && self.used(j) implies #[trigger] self.intact(
            next.data@,
            j,
        ) by {
            assert(self.intact(cur.data@, j));
            self.lemma_intact_frame(cur.data@, next.data@, j, slot_pos(s), slot_pos(s) + ITEM_ID_SIZE);
        }
        assert forall|j: int|
            0 <= j < s && self.kept(j, schema, statuses) implies #[trigger] self.packed(
            next.data@,
            j,
            schema,
            statuses,
        ) by {
            assert(cur.item(j) == (ItemId {
                offset: self.packed_offset(j, schema, statuses) as u16,
                ..self.item(j)
            }));
            self.lemma_packed_monotone(schema, statuses, j, s);
            self.lemma_kept_len_bounds(schema, statuses, j);
            self.lemma_kept_len_bounds(schema, statuses, s);
            self.lemma_packed_frame(cur.data@, next.data@, j, schema, statuses, slot_pos(s));
        }
    }

    /// The slot of a dead tuple is freed.
    pub proof fn lemma_vacuum_free(
        &self,
        cur: Page,
        next: Page,
        s: int,
        schema: Seq<ColumnType>,
        statuses: Map<u32, TxStatus>,
    )
        requires
            self.wf(),
            0 <= s < self.header.slot_count,
            self.vacuum_inv(cur, s, schema, statuses),
            !self.kept(s, schema, statuses),
            next.header == cur.header,
            next.item(s) == (ItemId { flags: 0, ..self.item(s) }),
            forall|k: int|
                0 <= k < PAGE_SIZE && (k < slot_pos(s) || k >= slot_pos(s) + ITEM_ID_SIZE)
                    ==> #[trigger] next.data@[k] == cur.data@[k],
        ensures
            self.vacuum_inv(next, s + 1, schema, statuses),
    {
        self.lemma_vacuum_item_frame(cur, next, s, schema, statuses);
        assert forall|j: int| 0 <= j < s + 1 implies (self.kept(j, schema, statuses) ==> (
            #[trigger] next.item(j)) == (ItemId {
                offset: self.packed_offset(j, schema, statuses) as u16,
                ..self.item(j)
            }) && self.packed(next.data@, j, schema, statuses)) && (!self.kept(j, schema, statuses)
            ==> next.item(j)
            == (ItemId { flags: 0, ..self.item(j) })) by {
            if j < s {
                assert(next.item(j) == cur.item(j));
            }
        }
        assert forall|j: int| s + 1 <= j < self.header.slot_count implies (
        #[trigger] next.item(j)) == self.item(j) by {
            assert(next.item(j) == cur.item(j));
        }
    }

    /// The tuple of a slot that is kept is moved to its packed place.
    pub proof fn lemma_vacuum_move(
        &self,
        cur: Page,
        moved: Page,
        next: Page,
        s: int,
        schema: Seq<ColumnType>,
        statuses: Map<u32, TxStatus>,
    )
        requires
            self.wf(),
            0 <= s < self.header.slot_count,
            self.vacuum_inv(cur, s, schema, statuses),
            self.kept(s, schema, statuses),
            moved.header == cur.header,
            (moved.data@ == cur.data@ && self.packed_offset(s, schema, statuses) == self.item(
                s,
            ).offset) || moved.data@ == overwrite(
                cur.data@,
                self.packed_offset(s, schema, statuses),
                cur.data@.subrange(
                    self.item(s).offset as int,
                    self.item(s).offset + self.item(s).len,
                ),
            ),
            next.header == cur.header,
            next.item(s) == (ItemId {
                offset: self.packed_offset(s, schema, statuses) as u16,
                ..self.item(s)
            }),
            forall|k: int|
                0 <= k < PAGE_SIZE && (k < slot_pos(s) || k >= slot_pos(s) + ITEM_ID_SIZE)
                    ==> #[trigger] next.data@[k] == moved.data@[k],
        ensures
            self.vacuum_inv(next, s + 1, schema, statuses),
    {
        let w = self.packed_offset(s, schema, statuses);
        let lo = self.item(s).offset as int;
        let len = self.item(s).len as int;
        self.lemma_kept_len_bounds(schema, statuses, s);
        self.lemma_kept_len_bounds(schema, statuses, s + 1);
        assert(self.used(s));
        assert(self.intact(cur.data@, s));
        let src = cur.data@.subrange(lo, lo + len);
        let in_place = moved.data@ == cur.data@ && w == lo;
        if !in_place {
            lemma_overwrite(cur.data@, w, src);
        }
        assert(self.packed(moved.data@, s, schema, statuses)) by {
            assert forall|c: int| w <= c < w + len implies #[trigger] moved.data@[c]
                == self.data@[c - w + lo] by {
                if !in_place {
                    assert(moved.data@[c] == src[c - w]);
                }
                assert(cur.data@[c - w + lo] == self.data@[c - w + lo]);
            }
        }
        assert forall|k: int|
            0 <= k < PAGE_SIZE && (k < w || k >= w + len) implies #[trigger] moved.data@[k]
            == cur.data@[k] by {}
        assert forall|k: int| 0 <= k < PAGE_SIZE && (k < w || k >= w + len) implies #[trigger] next.data@[k]
            == cur.data@[k] || (slot_pos(s) <= k < slot_pos(s) + ITEM_ID_SIZE) by {
            if !(slot_pos(s) <= k < slot_pos(s) + ITEM_ID_SIZE) {
                assert(next.data@[k] == moved.data@[k]);
            }
        }
        assert forall|j: int| 0 <= j < self.header.slot_count && j != s implies (
        #[trigger] next.item(j)) == cur.item(j) by {
            lemma_same_range(moved.data@, cur.data@, slot_pos(j), slot_pos(j) + ITEM_ID_SIZE);
            lemma_same_range(next.data@, moved.data@, slot_pos(j), slot_pos(j) + ITEM_ID_SIZE);
        }
        assert forall|j: int|
            s + 1 <= j < self.header.slot_count && self.used(j) implies #[trigger] self.intact(
            next.data@,
            j,
        ) by {
            assert(self.intact(cur.data@, j));
            assert(self.item(s).offset + self.item(s).len <= self.item(j).offset);
            self.lemma_intact_frame(cur.data@, moved.data@, j, w, w + len);
            self.lemma_intact_frame(
                moved.data@,
                next.data@,
                j,
                slot_pos(s),
                slot_pos(s) + ITEM_ID_SIZE,
            );
        }
        assert forall|j: int| 0 <= j < s + 1 implies (self.kept(j, schema, statuses) ==> (
            #[trigger] next.item(j)) == (ItemId {
                offset: self.packed_offset(j, schema, statuses) as u16,
                ..self.item(j)
            }) && self.packed(next.data@, j, schema, statuses)) && (!self.kept(j, schema, statuses)
            ==> next.item(j)
            == (ItemId { flags: 0, ..self.item(j) })) by {
            if j < s {
                assert(next.item(j) == cur.item(j));
                if self.kept(j, schema, statuses) {
                    self.lemma_packed_monotone(schema, statuses, j, s);
                    self.lemma_kept_len_bounds(schema, statuses, j);
                    assert(self.packed(cur.data@, j, schema, statuses));
                    self.lemma_packed_frame(cur.data@, moved.data@, j, schema, statuses, w);
                    self.lemma_packed_frame(
                        moved.data@,
                        next.data@,
                        j,
                        schema,
                        statuses,
                        slot_pos(s),
                    );
                }
            } else {
                self.lemma_packed_frame(moved.data@, next.data@, s, schema, statuses, slot_pos(s));
            }
        }
        assert forall|j: int| s + 1 <= j < self.header.slot_count implies (
        #[trigger] next.item(j)) == self.item(j) by {
            assert(next.item(j) == cur.item(j));
        }
    }

    /// When a vacuum has gone through all slots, the page with the free
    /// space set behind the packed tuples is the vacuumed page.
    pub proof fn lemma_vacuum_done(
        &self,
        q: Page,
        after: Page,
        schema: Seq<ColumnType>,
        statuses: Map<u32, TxStatus>,
    )
        requires
            self.wf(),
            self.vacuum_inv(q, self.header.slot_count as int, schema, statuses),
            after.data@ == q.data@,
            after.header == (PageHeader {
                free_start: self.packed_offset(self.header.slot_count as int, schema, statuses) as u16,
                ..self.header
            }),
        ensures
            self.vacuumed(after, schema, statuses),
    {
        let count = self.header.slot_count as int;
        self.lemma_kept_len_bounds(schema, statuses, count);
        assert forall|j: int| 0 <= j < count implies after.item(j) == q.item(j) by {}
        assert forall|j: int| 0 <= j < count && self.kept(j, schema, statuses) implies {
            &&& (#[trigger] after.item(j)) == (ItemId {
                offset: self.packed_offset(j, schema, statuses) as u16,
                ..self.item(j)
            })
            &&& after.tuple_bytes(j) == self.tuple_bytes(j)
        } by {
            assert(after.item(j) == q.item(j));
            self.lemma_kept_len_bounds(schema, statuses, j);
            self.lemma_packed_monotone(schema, statuses, j, count);
            assert(self.packed(q.data@, j, schema, statuses));
            assert forall|x: int| 0 <= x < self.item(j).len implies after.tuple_bytes(j)[x]
                == self.tuple_bytes(j)[x] by {
                let c = self.packed_offset(j, schema, statuses) + x;
                assert(q.data@[c] == self.data@[c - self.packed_offset(j, schema, statuses)
                    + self.item(j).offset]);
            }
            assert(after.tuple_bytes(j) =~= self.tuple_bytes(j));
        }
        assert forall|j: int| 0 <= j < count && !self.kept(j, schema, statuses) implies (
        #[trigger] after.item(j)) == (ItemId { flags: 0, ..self.item(j) }) by {
            assert(after.item(j) == q.item(j));
        }
        assert(after.wf()) by {
            assert forall|i: int| after.used(i) implies PAGE_HEADER_SIZE <= (#[trigger] after.item(
                i,
            )).offset && after.item(i).offset + after.item(i).len <= after.header.free_start by {
                assert(self.kept(i, schema, statuses));
                self.lemma_kept_len_bounds(schema, statuses, i);
                self.lemma_packed_monotone(schema, statuses, i, count);
            }
            assert forall|i: int, j: int| after.used(i) && after.used(j) && i < j implies (
            #[trigger] after.item(i)).offset + after.item(i).len <= (#[trigger] after.item(j)).offset by {
                assert(self.kept(i, schema, statuses) && self.kept(j, schema, statuses));
                self.lemma_kept_len_bounds(schema, statuses, i);
                self.lemma_kept_len_bounds(schema, statuses, j);
                self.lemma_packed_monotone(schema, statuses, i, j);
            }
        }
    }

    fn write_item(&mut self, slot_no: usize, item: ItemId)
        requires
            slot_no < MAX_SLOTS,
        ensures
            final(self).header == old(self).header,
            final(self).item(slot_no as int) == item,
            forall|k: int|
                0 <= k < PAGE_SIZE && (k < slot_pos(slot_no as int) || k >= slot_pos(
                    slot_no as int,
                ) + ITEM_ID_SIZE) ==> #[trigger] final(self).data@[k] == old(self).data@[k],
    {
        let at: usize = PAGE_SIZE - (slot_no + 1) * ITEM_ID_SIZE;
        let encoded = item.to_bytes();
        proof {
            lemma_item_round_trip(item);
            lemma_overwrite(self.data@, at as int, item_bytes(item));
        }
        write_bytes(&mut self.data, at, encoded.as_slice());
        proof {
            let d = self.data@;
            let ib = item_bytes(item);
            assert(d.subrange(at as int, at + 2) =~= ib.subrange(0, 2));
            assert(d.subrange(at + 2, at + 4) =~= ib.subrange(2, 4));
            assert(d.subrange(at + 4, at + 6) =~= ib.subrange(4, 6));
        }
    }

    fn move_tuple(&mut self, from: usize, to: usize, len: usize)
        requires
            to <= from,
            from + len <= PAGE_SIZE,
        ensures
            final(self).header == old(self).header,
            (final(self).data@ == old(self).data@ && to == from) || final(self).data@ == overwrite(
                old(self).data@,
                to as int,
                old(self).data@.subrange(from as int, from + len),
            ),
    {
        if to != from {
            let tmp = copy_range(self.data.as_slice(), from, from + len);
            write_bytes(&mut self.data, to, tmp.as_slice());
        }
    }

    /// Reclaims the dead tuples of the page: frees their slots and moves the
    /// other tuples together towards the header. Returns the slots that were
    /// freed, in ascending order, each with the row that it held.
    pub fn vacuum(&mut self, tm: &TransactionManager, columns: &Vec<Column>) -> (removed: Vec<
        (usize, Row),
    >)
        requires
            old(self).wf(),
        ensures
            old(self).vacuumed(*final(self), column_types(columns@), tm@.transactions),
            removed_view(removed@) == old(self).dead_rows(column_types(columns@), tm@.transactions),
    {
        let ghost p0 = *self;
        let ghost schema = column_types(columns@);
        let ghost statuses = tm@.transactions;
        let count: usize = self.header.slot_count as usize;
        let mut removed: Vec<(usize, Row)> = Vec::new();
        let mut write_ptr: usize = PAGE_HEADER_SIZE;
        let mut s: usize = 0;
        proof {
            p0.lemma_kept_len_bounds(schema, statuses, 0);
            assert forall|j: int| 0 <= j < count && p0.used(j) implies #[trigger] p0.intact(
                self.data@,
                j,
            ) by {}
            assert(removed_view(removed@) =~= p0.dead_rows_upto(schema, statuses, 0));
        }
        while s < count
            invariant
                s <= count,
                count == p0.header.slot_count,
                count <= MAX_SLOTS,
                p0.wf(),
                schema == column_types(columns@),
                statuses == tm@.transactions,
                p0.vacuum_inv(*self, s as int, schema, statuses),
                write_ptr == p0.packed_offset(s as int, schema, statuses),
                PAGE_HEADER_SIZE <= write_ptr <= p0.header.free_start,
                removed_view(removed@) == p0.dead_rows_upto(schema, statuses, s as int),
            decreases count - s,
        {
            let ghost cur = *self;
            let item = self.read_item(s);
            assert(item == p0.item(s as int));
            proof {
                p0.lemma_kept_len_bounds(schema, statuses, s as int);
                p0.lemma_kept_len_bounds(schema, statuses, s + 1);
            }
            if !item.is_used() {
                proof {
                    assert(p0.spec_get_tuple(s as int, schema).is_none());
                    p0.lemma_vacuum_skip(cur, s as int, schema, statuses);
                }
            } else {
                assert(p0.used(s as int));
                proof {
                    let lo = p0.item(s as int).offset as int;
                    let hi = lo + p0.item(s as int).len;
                    assert(p0.intact(cur.data@, s as int));
                    lemma_same_range(cur.data@, p0.data@, lo, hi);
                    lemma_same_tuple(cur, p0, s as int, schema);
                }
                let tuple = self.get_tuple(s, columns);
                let is_dead = match &tuple {
                    Some((h, _)) => h.is_dead(tm),
                    None => false,
                };
                assert(is_dead == p0.dead_slot(s as int, schema, statuses));
                if is_dead {
                    let mut freed = item;
                    freed.mark_unused();
                    self.write_item(s, freed);
                    let ghost before_view = removed_view(removed@);
                    match tuple {
                        Some((_, row)) => {
                            removed.push((s, row));
                        },
                        None => {},
                    }
                    proof {
                        p0.lemma_vacuum_free(cur, *self, s as int, schema, statuses);
                        assert(removed_view(removed@) =~= before_view.push(
                            (s as int, p0.spec_get_tuple(s as int, schema).unwrap().1),
                        ));
                    }
                } else {
                    let from = item.offset as usize;
                    let len = item.len as usize;
                    self.move_tuple(from, write_ptr, len);
                    let ghost moved = *self;
                    let packed = ItemId { offset: write_ptr as u16, len: item.len, flags: item.flags };
                    self.write_item(s, packed);
                    proof {
                        p0.lemma_vacuum_move(cur, moved, *self, s as int, schema, statuses);
                    }
                    write_ptr = write_ptr + len;
                }
            }
            s += 1;
        }
        let ghost q = *self;
        self.header.free_start = write_ptr as u16;
        proof {
            p0.lemma_vacuum_done(q, *self, schema, statuses);
        }
        removed
    }
}

/// After a vacuum a page holds, in each slot, the tuple that it held if
/// the vacuum kept it, and none otherwise, whatever the column types by
/// which it is read.
pub proof fn lemma_vacuumed_tuples(
    before: Page,
    after: Page,
    schema: Seq<ColumnType>,
    statuses: Map<u32, TxStatus>,
    read_by: Seq<ColumnType>,
)
    requires
        before.wf(),
        before.vacuumed(after, schema, statuses),
    ensures
        forall|s: int|
            #[trigger] after.spec_get_tuple(s, read_by) == if before.kept(s, schema, statuses) {
                before.spec_get_tuple(s, read_by)
            } else {
                None
            },
{
    assert forall|s: int|
        #[trigger] after.spec_get_tuple(s, read_by) == if before.kept(s, schema, statuses) {
            before.spec_get_tuple(s, read_by)
        } else {
            None
        } by {
        if 0 <= s < before.header.slot_count {
            if before.kept(s, schema, statuses) {
                assert(after.item(s) == (ItemId {
                    offset: before.packed_offset(s, schema, statuses) as u16,
                    ..before.item(s)
                }));
                assert(after.tuple_bytes(s) == before.tuple_bytes(s));
                assert(after.used(s));
                before.lemma_kept_len_bounds(schema, statuses, s);
                before.lemma_kept_len_bounds(schema, statuses, s + 1);
            } else {
                assert(after.item(s) == (ItemId { flags: 0, ..before.item(s) }));
            }
        }
    }
}

/// The entries of an index without the position of a row under the row's
/// key; as they are, if the row has no key under the index.
pub open spec fn entries_less_row(
    es: Seq<EntryView>,
    index_columns: Seq<Seq<char>>,
    table_columns: Seq<Column>,
    row: Seq<ValueView>,
    pos: (usize, usize),
) -> Seq<EntryView> {
    match key_of(index_columns, table_columns, row) {
        Ok(key) => entries_without(es, key, pos),
        Err(_) => es,
    }
}

/// The entries of an index without the positions of the first `n` of the
/// dead tuples of a page.
pub open spec fn entries_less_dead(
    es: Seq<EntryView>,
    index_columns: Seq<Seq<char>>,
    table_columns: Seq<Column>,
    page_no: int,
    dead_rows: Seq<(int, Seq<ValueView>)>,
    n: int,
) -> Seq<EntryView>
    decreases n,
{
    if n <= 0 {
        es
    } else {
        entries_less_row(
            entries_less_dead(es, index_columns, table_columns, page_no, dead_rows, n - 1),
            index_columns,
            table_columns,
            dead_rows[n - 1].1,
            (page_no as usize, dead_rows[n - 1].0 as usize),
        )
    }
}

/// The entries of an index without the positions of the dead tuples of the
/// first `k` pages.
pub open spec fn entries_after_vacuum(
    es: Seq<EntryView>,
    index_columns: Seq<Seq<char>>,
    table_columns: Seq<Column>,
    pages: Seq<Page>,
    statuses: Map<u32, TxStatus>,
    k: int,
) -> Seq<EntryView>
    decreases k,
{
    if k <= 0 {
        es
    } else {
        let dead_rows = pages[k - 1].dead_rows(column_types(table_columns), statuses);
        entries_less_dead(
            entries_after_vacuum(es, index_columns, table_columns, pages, statuses, k - 1),
            index_columns,
            table_columns,
            k - 1,
            dead_rows,
            dead_rows.len() as int,
        )
    }
}

/// The number of dead tuples in the first `k` pages.
pub open spec fn dead_count(
    pages: Seq<Page>,
    schema: Seq<ColumnType>,
    statuses: Map<u32, TxStatus>,
    k: int,
) -> int
    decreases k,
{
    if k <= 0 {
        0
    } else {
        dead_count(pages, schema, statuses, k - 1) + pages[k - 1].dead_rows(schema, statuses).len()
    }
}

/// A count as a machine number: itself, or the greatest machine number if
/// it is greater.
pub open spec fn capped(n: int) -> usize {
    if n <= usize::MAX {
        n as usize
    } else {
        usize::MAX
    }
}

/// The dead tuples of a page are no more than its slots.
pub proof fn lemma_dead_rows_len(
    page: Page,
    schema: Seq<ColumnType>,
    statuses: Map<u32, TxStatus>,
    n: int,
)
    requires
        0 <= n,
    ensures
        page.dead_rows_upto(schema, statuses, n).len() <= n,
        forall|k: int|
            0 <= k < page.dead_rows_upto(schema, statuses, n).len() ==> 0 <= (
            #[trigger] page.dead_rows_upto(schema, statuses, n)[k]).0 < n,
    decreases n,
{
    if n > 0 {
        lemma_dead_rows_len(page, schema, statuses, n - 1);
    }
}

/// Takes the position of a row from every index on a table, under the key
/// that the row has there.
pub fn remove_row_from_indexes(
    indexes: &mut Vec<BTreeIndex>,
    table_name: &str,
    columns: &Vec<Column>,
    row: &Vec<Value>,
    pos: (usize, usize),
)
    requires
        forall|i: int| 0 <= i < old(indexes)@.len() ==> (#[trigger] old(indexes)@[i]).wf(),
    ensures
        final(indexes)@.len() == old(indexes)@.len(),
        forall|i: int| 0 <= i < final(indexes)@.len() ==> (#[trigger] final(indexes)@[i]).wf(),
        forall|i: int|
            0 <= i < old(indexes)@.len() && old(indexes)@[i].table@ == table_name@ ==> {
                &&& (#[trigger] final(indexes)@[i]).name == old(indexes)@[i].name
                &&& final(indexes)@[i].table == old(indexes)@[i].table
                &&& final(indexes)@[i].columns == old(indexes)@[i].columns
                &&& final(indexes)@[i].entries() == entries_less_row(
                    old(indexes)@[i].entries(),
                    names_view(old(indexes)@[i].columns@),
                    columns@,
                    values_view(row@),
                    pos,
                )
            },
        forall|i: int|
            0 <= i < old(indexes)@.len() && old(indexes)@[i].table@ != table_name@ ==> (
            #[trigger] final(indexes)@[i]) == old(indexes)@[i],
{
    let mut i: usize = 0;
    while i < indexes.len()
        invariant
            i <= indexes@.len(),
            indexes@.len() == old(indexes)@.len(),
            forall|j: int| 0 <= j < indexes@.len() ==> (#[trigger] indexes@[j]).wf(),
            forall|j: int| i <= j < indexes@.len() ==> (#[trigger] indexes@[j]) == old(indexes)@[j],
            forall|j: int|
                0 <= j < i && old(indexes)@[j].table@ == table_name@ ==> {
                    &&& (#[trigger] indexes@[j]).name == old(indexes)@[j].name
                    &&& indexes@[j].table == old(indexes)@[j].table
                    &&& indexes@[j].columns == old(indexes)@[j].columns
                    &&& indexes@[j].entries() == entries_less_row(
                        old(indexes)@[j].entries(),
                        names_view(old(indexes)@[j].columns@),
                        columns@,
                        values_view(row@),
                        pos,
                    )
                },
            forall|j: int|
                0 <= j < i && old(indexes)@[j].table@ != table_name@ ==> (#[trigger] indexes@[j])
                    == old(indexes)@[j],
        decreases indexes.len() - i,
    {
        if crate::text::str_eq(indexes[i].table.as_str(), table_name) {
            match build_key(&indexes[i].columns, columns, row, table_name) {
                Ok(key) => {
                    indexes[i].remove(&key, pos);
                },
                Err(_) => {},
            }
        }
        i += 1;
    }
}

impl HeapFile {
    /// Whether `after` is this file after a vacuum: each page is the
    /// vacuumed page; nothing else has changed.
    pub open spec fn vacuumed(
        &self,
        after: HeapFile,
        schema: Seq<ColumnType>,
        statuses: Map<u32, TxStatus>,
    ) -> bool {
        &&& after.path == self.path
        &&& after.pages@.len() == self.pages@.len()
        &&& forall|i: int|
            0 <= i < self.pages@.len() ==> (#[trigger] self.pages@[i]).vacuumed(
                after.pages@[i],
                schema,
                statuses,
            )
    }

    /// Reclaims the dead tuples of the file, page by page and slot by slot:
    /// takes the position of each from every index on the table, frees its
    /// slot, and moves the other tuples of the page together. Slots keep
    /// their numbers. Returns the number of tuples reclaimed.
    pub fn vacuum(
        &mut self,
        tm: &TransactionManager,
        columns: &Vec<Column>,
        table_name: &str,
        indexes: &mut Vec<BTreeIndex>,
    ) -> (removed: usize)
        requires
            old(self).wf(),
            forall|i: int| 0 <= i < old(indexes)@.len() ==> (#[trigger] old(indexes)@[i]).wf(),
        ensures
            final(self).wf(),
            old(self).vacuumed(*final(self), column_types(columns@), tm@.transactions),
            removed == capped(
                dead_count(
                    old(self).pages@,
                    column_types(columns@),
                    tm@.transactions,
                    old(self).pages@.len() as int,
                ),
            ),
            final(indexes)@.len() == old(indexes)@.len(),
            forall|i: int| 0 <= i < final(indexes)@.len() ==> (#[trigger] final(indexes)@[i]).wf(),
            forall|i: int|
                0 <= i < old(indexes)@.len() && old(indexes)@[i].table@ == table_name@ ==> {
                    &&& (#[trigger] final(indexes)@[i]).name == old(indexes)@[i].name
                    &&& final(indexes)@[i].table == old(indexes)@[i].table
                    &&& final(indexes)@[i].columns == old(indexes)@[i].columns
                    &&& final(indexes)@[i].entries() == entries_after_vacuum(
                        old(indexes)@[i].entries(),
                        names_view(old(indexes)@[i].columns@),
                        columns@,
                        old(self).pages@,
                        tm@.transactions,
                        old(self).pages@.len() as int,
                    )
                },
            forall|i: int|
                0 <= i < old(indexes)@.len() && old(indexes)@[i].table@ != table_name@ ==> (
                #[trigger] final(indexes)@[i]) == old(indexes)@[i],
    {
        let ghost schema = column_types(columns@);
        let ghost statuses = tm@.transactions;
        let ghost pages0 = old(self).pages@;
        let mut removed: usize = 0;
        let mut p: usize = 0;
        while p < self.pages.len()
            invariant
                p <= self.pages@.len(),
                old(self).wf(),
                pages0 == old(self).pages@,
                schema == column_types(columns@),
                statuses == tm@.transactions,
                self.path == old(self).path,
                self.pages@.len() == pages0.len(),
                forall|i: int| 0 <= i < p ==> (#[trigger] pages0[i]).vacuumed(
                    self.pages@[i],
                    schema,
                    statuses,
                ),
                forall|i: int| p <= i < pages0.len() ==> (#[trigger] self.pages@[i]) == pages0[i],
                removed == capped(dead_count(pages0, schema, statuses, p as int)),
                0 <= dead_count(pages0, schema, statuses, p as int),
                indexes@.len() == old(indexes)@.len(),
                forall|i: int| 0 <= i < indexes@.len() ==> (#[trigger] indexes@[i]).wf(),
                forall|i: int|
                    0 <= i < old(indexes)@.len() && old(indexes)@[i].table@ == table_name@ ==> {
                        &&& (#[trigger] indexes@[i]).name == old(indexes)@[i].name
                        &&& indexes@[i].table == old(indexes)@[i].table
                        &&& indexes@[i].columns == old(indexes)@[i].columns
                        &&& indexes@[i].entries() == entries_after_vacuum(
                            old(indexes)@[i].entries(),
                            names_view(old(indexes)@[i].columns@),
                            columns@,
                            pages0,
                            statuses,
                            p as int,
                        )
                    },
                forall|i: int|
                    0 <= i < old(indexes)@.len() && old(indexes)@[i].table@ != table_name@ ==> (
                    #[trigger] indexes@[i]) == old(indexes)@[i],
            decreases self.pages.len() - p,
        {
            assert(self.pages@[p as int] == pages0[p as int]);
            assert(pages0[p as int].wf());
            let freed = self.pages[p].vacuum(tm, columns);
            let ghost dead_rows = pages0[p as int].dead_rows(schema, statuses);
            let ghost before = *indexes;
            proof {
                lemma_dead_rows_len(
                    pages0[p as int],
                    schema,
                    statuses,
                    pages0[p as int].header.slot_count as int,
                );
            }
            let mut k: usize = 0;
            while k < freed.len()
                invariant
                    k <= freed@.len(),
                    removed_view(freed@) == dead_rows,
                    p < pages0.len() <= MAX_PAGES,
                    indexes@.len() == old(indexes)@.len(),
                    before@.len() == old(indexes)@.len(),
                    forall|i: int| 0 <= i < indexes@.len() ==> (#[trigger] indexes@[i]).wf(),
                    forall|i: int|
                        0 <= i < old(indexes)@.len() && old(indexes)@[i].table@ == table_name@ ==> {
                            &&& (#[trigger] before@[i]).table == old(indexes)@[i].table
                            &&& before@[i].columns == old(indexes)@[i].columns
                        },
                    forall|i: int|
                        0 <= i < old(indexes)@.len() && old(indexes)@[i].table@ == table_name@ ==> {
                            &&& (#[trigger] indexes@[i]).name == before@[i].name
                            &&& indexes@[i].table == before@[i].table
                            &&& indexes@[i].columns == before@[i].columns
                            &&& indexes@[i].entries() == entries_less_dead(
                                before@[i].entries(),
                                names_view(old(indexes)@[i].columns@),
                                columns@,
                                p as int,
                                dead_rows,
                                k as int,
                            )
                        },
                    forall|i: int|
                        0 <= i < old(indexes)@.len() && old(indexes)@[i].table@ != table_name@ ==> (
                        #[trigger] indexes@[i]) == before@[i],
                    forall|i: int|
                        0 <= i < old(indexes)@.len() && old(indexes)@[i].table@ != table_name@ ==> (
                        #[trigger] before@[i]) == old(indexes)@[i],
                decreases freed.len() - k,
            {
                assert(dead_rows[k as int] == (freed@[k as int].0 as int, freed@[k as int].1@));
                let ghost step = *indexes;
                remove_row_from_indexes(
                    indexes,
                    table_name,
                    columns,
                    &freed[k].1.values,
                    (p, freed[k].0),
                );
                proof {
                    assert forall|i: int|
                        0 <= i < old(indexes)@.len() && old(indexes)@[i].table@
                            == table_name@ implies {
                        &&& (#[trigger] indexes@[i]).name == before@[i].name
                        &&& indexes@[i].table == before@[i].table
                        &&& indexes@[i].columns == before@[i].columns
                        &&& indexes@[i].entries() == entries_less_dead(
                            before@[i].entries(),
                            names_view(old(indexes)@[i].columns@),
                            columns@,
                            p as int,
                            dead_rows,
                            k + 1,
                        )
                    } by {
                        assert(step@[i].table == before@[i].table);
                        assert(step@[i].table@ == table_name@);
                    }
                    assert forall|i: int|
                        0 <= i < old(indexes)@.len() && old(indexes)@[i].table@
                            != table_name@ implies (#[trigger] indexes@[i]) == before@[i] by {
                        assert(step@[i] == before@[i]);
                        assert(before@[i] == old(indexes)@[i]);
                    }
                }
                k += 1;
            }
            proof {
                assert(freed@.len() == dead_rows.len());
                assert(removed_view(freed@).len() == freed@.len());
            }
            removed = if freed.len() > usize::MAX - removed {
                usize::MAX
            } else {
                removed + freed.len()
            };
            p += 1;
        }
        proof {
            assert forall|i: int| 0 <= i < self.pages@.len() implies (#[trigger] self.pages@[i]).wf()
                && self.pages@[i].header.page_no == i by {
                assert(pages0[i].vacuumed(self.pages@[i], schema, statuses));
                assert(pages0[i].wf() && pages0[i].header.page_no == i);
            }
        }
        removed
    }
}

/// A vacuum leaves every tuple in its place that is visible to a
/// transaction by a snapshot which knows the tuple's deleter, if it has
/// one: the deleter began before the snapshot and is not in flight in it.
pub proof fn lemma_vacuum_keeps_visible(
    before: HeapFile,
    after: HeapFile,
    schema: Seq<ColumnType>,
    statuses: Map<u32, TxStatus>,
    page_no: int,
    slot_no: int,
    xid: u32,
    snapshot: crate::types::transaction_types::SnapshotView,
)
    requires
        before.wf(),
        before.vacuumed(after, schema, statuses),
        before.spec_get_tuple(page_no, slot_no, schema).is_some(),
        crate::storage::tuple_header::visible(
            before.spec_get_tuple(page_no, slot_no, schema).unwrap().0,
            xid,
            snapshot,
            statuses,
        ),
        before.spec_get_tuple(page_no, slot_no, schema).unwrap().0.xmax matches Some(x)
            ==> !snapshot.active_xids.contains(x) && x < snapshot.xmax,
    ensures
        after.spec_get_tuple(page_no, slot_no, schema) == before.spec_get_tuple(
            page_no,
            slot_no,
            schema,
        ),
{
    let page = before.pages@[page_no];
    assert(page.vacuumed(after.pages@[page_no], schema, statuses));
    lemma_vacuumed_tuples(page, after.pages@[page_no], schema, statuses, schema);
    assert(page.used(slot_no));
    assert(!page.dead_slot(slot_no, schema, statuses));
}

} // verus!
