use crate::consts::{ITEM_ID_SIZE, PAGE_HEADER_SIZE, PAGE_SIZE};
use crate::errors::storage_error::StorageError;
use crate::storage::bytes::{lemma_overwrite, lemma_same_range, overwrite, write_bytes};
use crate::storage::codec::{
    column_types, decode_tuple, encode_row, encode_tuple, lemma_row_nullmap, read_tuple,
    row_nullmap,
};
use crate::storage::item_id::{item_at, item_bytes, lemma_item_round_trip};
use crate::storage::page_header::{empty_header, header_bytes, header_of};
use crate::types::page_types::{ItemId, Page, PageHeader, TupleHeader, TupleHeaderView};
use crate::types::storage_types::{Column, ColumnType, Row, ValueView};
use vstd::prelude::*;
use vstd::slice::slice_subrange;

verus! {

/// Where the item id of a slot lies in the page: the slot array grows down
/// from the end of the page.
pub open spec fn slot_pos(slot: int) -> int {
    PAGE_SIZE - ITEM_ID_SIZE * (slot + 1)
}

/// The most slots that a page can have beside its header.
pub const MAX_SLOTS: usize = 1362;

impl Page {
    /// The item id of a slot.
    pub open spec fn item(&self, slot: int) -> ItemId {
        item_at(self.data@, slot_pos(slot))
    }

    /// Whether a slot exists and holds a tuple.
    pub open spec fn used(&self, slot: int) -> bool {
        0 <= slot < self.header.slot_count && self.item(slot).flags != 0
    }

    /// The page's invariant. The free space lies behind the header and before
    /// the slot array, which has one item id per slot. The tuples of the slots
    /// in use lie between the header and the free space, in the order of
    /// their slots, without overlap.
    pub open spec fn wf(&self) -> bool {
        &&& PAGE_HEADER_SIZE <= self.header.free_start <= self.header.free_end <= PAGE_SIZE
        &&& self.header.free_end == PAGE_SIZE - ITEM_ID_SIZE * self.header.slot_count
        &&& forall|i: int|
            self.used(i) ==> PAGE_HEADER_SIZE <= (#[trigger] self.item(i)).offset && self.item(
                i,
            ).offset + self.item(i).len <= self.header.free_start
        &&& forall|i: int, j: int|
            self.used(i) && self.used(j) && i < j ==> (#[trigger] self.item(i)).offset
                + self.item(i).len <= (#[trigger] self.item(j)).offset
    }

    /// The bytes of the tuple in a slot that is in use.
    pub open spec fn tuple_bytes(&self, slot: int) -> Seq<u8> {
        self.data@.subrange(
            self.item(slot).offset as int,
            self.item(slot).offset + self.item(slot).len,
        )
    }

    /// The tuple in a slot, read by the types of the columns: none if the
    /// slot does not exist or holds no tuple, or if what it holds cannot be
    /// read as such a tuple.
    pub open spec fn spec_get_tuple(&self, slot: int, schema: Seq<ColumnType>) -> Option<
        (TupleHeaderView, Seq<ValueView>),
    > {
        if !self.used(slot) || slot >= MAX_SLOTS || self.item(slot).offset + self.item(slot).len
            > PAGE_SIZE {
            None
        } else {
            decode_tuple(self.tuple_bytes(slot), schema)
        }
    }

    /// Whether a tuple of `len` bytes and its item id fit into the free space.
    pub open spec fn has_room(&self, len: int) -> bool {
        len + ITEM_ID_SIZE <= self.header.free_end - self.header.free_start
    }

    /// The item id of a tuple of `len` bytes that is put at the start of the
    /// free space.
    pub open spec fn next_item(&self, len: int) -> ItemId {
        ItemId { offset: self.header.free_start, len: len as u16, flags: 1 }
    }

    /// The page's bytes after `tuple` has been put at the start of the free
    /// space and its item id at the end of it.
    pub open spec fn data_with(&self, tuple: Seq<u8>) -> Seq<u8> {
        overwrite(
            overwrite(self.data@, self.header.free_start as int, tuple),
            self.header.free_end - ITEM_ID_SIZE,
            item_bytes(self.next_item(tuple.len() as int)),
        )
    }

    /// The page's header after a tuple of `len` bytes has been inserted.
    pub open spec fn header_with(&self, len: int) -> PageHeader {
        PageHeader {
            slot_count: (self.header.slot_count + 1) as u16,
            free_start: (self.header.free_start + len) as u16,
            free_end: (self.header.free_end - ITEM_ID_SIZE) as u16,
            ..self.header
        }
    }

    /// The bytes of an empty page: its header, then zeros.
    pub open spec fn spec_new_data(page_no: u32) -> Seq<u8> {
        overwrite(Seq::new(PAGE_SIZE as nat, |i: int| 0u8), 0, header_bytes(empty_header(page_no)))
    }

    /// An empty page.
    pub fn new(page_no: u32) -> (p: Page)
        ensures
            p.header == empty_header(page_no),
            p.data@ == Self::spec_new_data(page_no),
            p.wf(),
    {
        let mut data = [0u8;PAGE_SIZE];
        assert(data@ =~= Seq::new(PAGE_SIZE as nat, |i: int| 0u8));
        let header = PageHeader::new(page_no);
        let hdr_bytes = header.to_bytes();
        write_bytes(&mut data, 0, hdr_bytes.as_slice());
        Page { header, data }
    }

    /// The page as bytes: its data, with the header written over the first
    /// sixteen bytes.
    pub fn to_bytes(&self) -> (buf: [u8; PAGE_SIZE])
        ensures
            buf@ == overwrite(self.data@, 0, header_bytes(self.header)),
    {
        let mut buf = self.data;
        let hdr_bytes = self.header.to_bytes();
        write_bytes(&mut buf, 0, hdr_bytes.as_slice());
        buf
    }

    /// The page that the bytes hold: the header is read from the first
    /// sixteen bytes.
    pub fn from_bytes(buf: [u8; PAGE_SIZE]) -> (p: Page)
        ensures
            p.header == header_of(buf@),
            p.data@ == buf@,
    {
        let header = PageHeader::from_bytes(buf.as_slice());
        Page { header, data: buf }
    }

    /// The item id of a slot.
    pub fn read_item(&self, slot_no: usize) -> (item: ItemId)
        requires
            slot_no < MAX_SLOTS,
        ensures
            item == self.item(slot_no as int),
    {
        let at: usize = PAGE_SIZE - (slot_no + 1) * ITEM_ID_SIZE;
        let bytes = slice_subrange(self.data.as_slice(), at, at + ITEM_ID_SIZE);
        let item = ItemId::from_bytes(bytes);
        proof {
            lemma_same_range(
                bytes@,
                self.data@.subrange(at as int, at + ITEM_ID_SIZE),
                0,
                ITEM_ID_SIZE as int,
            );
            assert(bytes@.subrange(0, 2) =~= self.data@.subrange(at as int, at + 2));
            assert(bytes@.subrange(2, 4) =~= self.data@.subrange(at + 2, at + 4));
            assert(bytes@.subrange(4, 6) =~= self.data@.subrange(at + 4, at + 6));
        }
        item
    }

    /// Stores a row as a tuple that `xid` inserts and returns its slot. The
    /// tuple goes to the start of the free space and its item id to the end
    /// of it. Fails with `NoSpace`, and changes nothing, if the two do not fit.
    pub fn insert_tuple(&mut self, row: Row, xid: u32) -> (r: Result<usize, StorageError>)
        requires
            old(self).wf(),
        ensures
            final(self).wf(),
            match r {
                Ok(slot) => {
                    &&& old(self).has_room(encode_tuple(row@, xid).len() as int)
                    &&& slot == old(self).header.slot_count
                    &&& final(self).header == old(self).header_with(
                        encode_tuple(row@, xid).len() as int,
                    )
                    &&& final(self).data@ == old(self).data_with(encode_tuple(row@, xid))
                },
                Err(e) => {
                    &&& e == StorageError::NoSpace
                    &&& !old(self).has_room(encode_tuple(row@, xid).len() as int)
                    &&& *final(self) == *old(self)
                },
            },
    {
        proof {
            lemma_row_nullmap(row@);
            crate::storage::bytes::lemma_u16_round_trip();
            crate::storage::bytes::lemma_u32_round_trip();
        }
        if row.values.len() > 8 * PAGE_SIZE {
            return Err(StorageError::NoSpace);
        }
        let tuple_bytes = encode_row(&row, xid);
        let available: usize = (self.header.free_end - self.header.free_start) as usize;
        if tuple_bytes.len() > available || available - tuple_bytes.len() < ITEM_ID_SIZE {
            return Err(StorageError::NoSpace);
        }
        let offset = self.header.free_start;
        let tuple_len: u16 = tuple_bytes.len() as u16;
        write_bytes(&mut self.data, offset as usize, tuple_bytes.as_slice());
        let item = ItemId { offset, len: tuple_len, flags: 1 };
        let item_pos: usize = self.header.free_end as usize - ITEM_ID_SIZE;
        let encoded = item.to_bytes();
        proof {
            lemma_item_round_trip(item);
        }
        write_bytes(&mut self.data, item_pos, encoded.as_slice());
        self.header.slot_count = self.header.slot_count + 1;
        self.header.free_start = self.header.free_start + tuple_len;
        self.header.free_end = self.header.free_end - ITEM_ID_SIZE as u16;
        proof {
            old(self).lemma_insert_keeps(tuple_bytes@);
            assert(self.header == old(self).header_with(tuple_bytes@.len() as int));
            assert(self.data@ == old(self).data_with(tuple_bytes@));
        }
        Ok((self.header.slot_count - 1) as usize)
    }

    /// What an insertion leaves as it was: every item id, and every byte
    /// before the old free space; and what it adds: the new slot's item id
    /// and tuple.
    pub proof fn lemma_insert_keeps(&self, tuple: Seq<u8>)
        requires
            self.wf(),
            self.has_room(tuple.len() as int),
        ensures
            self.data_with(tuple).len() == PAGE_SIZE,
            forall|k: int|
                0 <= k < self.header.free_start ==> #[trigger] self.data_with(tuple)[k]
                    == self.data@[k],
            forall|k: int|
                self.header.free_end <= k < PAGE_SIZE ==> #[trigger] self.data_with(tuple)[k]
                    == self.data@[k],
            forall|i: int|
                0 <= i < self.header.slot_count ==> item_at(
                    self.data_with(tuple),
                    #[trigger] slot_pos(i),
                ) == self.item(i),
            item_at(self.data_with(tuple), slot_pos(self.header.slot_count as int))
                == self.next_item(tuple.len() as int),
            self.data_with(tuple).subrange(
                self.header.free_start as int,
                self.header.free_start + tuple.len(),
            ) == tuple,
            forall|p: Page|
                p.header == self.header_with(tuple.len() as int) && p.data@ == self.data_with(
                    tuple,
                ) ==> p.wf(),
    {
        let d0 = self.data@;
        let fs = self.header.free_start as int;
        let fe = self.header.free_end as int;
        let d1 = overwrite(d0, fs, tuple);
        let item = self.next_item(tuple.len() as int);
        let d2 = self.data_with(tuple);
        lemma_item_round_trip(item);
        lemma_overwrite(d0, fs, tuple);
        lemma_overwrite(d1, fe - ITEM_ID_SIZE, item_bytes(item));
        assert(d2.subrange(fs, fs + tuple.len()) =~= tuple);
        assert forall|i: int| 0 <= i < self.header.slot_count implies item_at(
            d2,
            #[trigger] slot_pos(i),
        ) == self.item(i) by {
            lemma_same_range(d2, d0, slot_pos(i), slot_pos(i) + ITEM_ID_SIZE);
        }
        let np = slot_pos(self.header.slot_count as int);
        assert(np == fe - ITEM_ID_SIZE);
        assert(item_at(d2, np) == item) by {
            let ib = item_bytes(item);
            assert(d2.subrange(np, np + ITEM_ID_SIZE) == ib);
            assert(d2.subrange(np, np + 2) =~= ib.subrange(0, 2));
            assert(d2.subrange(np + 2, np + 4) =~= ib.subrange(2, 4));
            assert(d2.subrange(np + 4, np + 6) =~= ib.subrange(4, 6));
        }
        assert forall|p: Page|
            p.header == self.header_with(tuple.len() as int) && p.data@ == d2 implies p.wf() by {
            assert forall|i: int| p.used(i) implies PAGE_HEADER_SIZE <= (#[trigger] p.item(
                i,
            )).offset && p.item(i).offset + p.item(i).len <= p.header.free_start by {
                if i < self.header.slot_count {
                    assert(p.item(i) == item_at(d2, slot_pos(i)));
                    assert(self.used(i));
                }
            }
            assert forall|i: int, j: int| p.used(i) && p.used(j) && i < j implies (
            #[trigger] p.item(i)).offset + p.item(i).len <= (#[trigger] p.item(j)).offset by {
                assert(p.item(i) == item_at(d2, slot_pos(i)));
                assert(p.item(j) == item_at(d2, slot_pos(j)));
                assert(self.used(i));
                if j < self.header.slot_count {
                    assert(self.used(j));
                }
            }
        }
    }

    /// Why the tuple in a slot cannot be marked as deleted, if it cannot:
    /// the slot does not exist, holds no tuple, or holds one that is too
    /// short to have an `xmax` field.
    pub open spec fn stamp_error(&self, slot: int) -> Option<StorageError> {
        if slot < 0 || slot >= self.header.slot_count {
            Some(StorageError::InvalidSlot)
        } else if self.item(slot).flags == 0 {
            Some(StorageError::SlotAlreadyUnused)
        } else if self.item(slot).len < 8 {
            Some(StorageError::CorruptTupleHeader)
        } else {
            None
        }
    }

    /// The page's bytes after `xid` has been written into the `xmax` field of
    /// the tuple in a slot.
    pub open spec fn data_stamped(&self, slot: int, xid: u32) -> Seq<u8> {
        overwrite(
            self.data@,
            self.item(slot).offset + 4,
            crate::storage::bytes::u32_bytes(xid),
        )
    }

    /// Marks the tuple in a slot as deleted by `xid`: writes `xid` into the
    /// tuple header's `xmax` field, in place. The item id stays as it is.
    pub fn stamp_xmax(&mut self, slot_no: usize, xid: u32) -> (r: Result<(), StorageError>)
        requires
            old(self).wf(),
        ensures
            final(self).wf(),
            match r {
                Ok(()) => {
                    &&& old(self).stamp_error(slot_no as int).is_none()
                    &&& final(self).header == old(self).header
                    &&& final(self).data@ == old(self).data_stamped(slot_no as int, xid)
                },
                Err(e) => {
                    &&& old(self).stamp_error(slot_no as int) == Some(e)
                    &&& *final(self) == *old(self)
                },
            },
    {
        if slot_no >= self.header.slot_count as usize {
            return Err(StorageError::InvalidSlot);
        }
        let item = self.read_item(slot_no);
        if !item.is_used() {
            return Err(StorageError::SlotAlreadyUnused);
        }
        if item.len < 8 {
            return Err(StorageError::CorruptTupleHeader);
        }
        assert(self.used(slot_no as int));
        let bytes = crate::storage::bytes::u32_le(xid);
        proof {
            crate::storage::bytes::lemma_u32_round_trip();
            old(self).lemma_stamp_keeps(slot_no as int, xid);
        }
        write_bytes(&mut self.data, item.offset as usize + 4, bytes.as_slice());
        Ok(())
    }

    /// What marking a tuple as deleted leaves as it was: the length, every
    /// byte outside the tuple's `xmax` field, every item id, and the
    /// page's invariant.
    pub proof fn lemma_stamp_keeps(&self, slot: int, xid: u32)
        requires
            self.wf(),
            self.stamp_error(slot).is_none(),
        ensures
            self.data_stamped(slot, xid).len() == PAGE_SIZE,
            forall|k: int|
                0 <= k < PAGE_SIZE && (k < self.item(slot).offset + 4 || k >= self.item(
                    slot,
                ).offset + 8) ==> #[trigger] self.data_stamped(slot, xid)[k] == self.data@[k],
            self.data_stamped(slot, xid).subrange(
                self.item(slot).offset + 4,
                self.item(slot).offset + 8,
            ) == crate::storage::bytes::u32_bytes(xid),
            forall|i: int|
                0 <= i < self.header.slot_count ==> item_at(
                    self.data_stamped(slot, xid),
                    #[trigger] slot_pos(i),
                ) == self.item(i),
            forall|p: Page|
                p.header == self.header && p.data@ == self.data_stamped(slot, xid) ==> p.wf(),
    {
        crate::storage::bytes::lemma_u32_round_trip();
        let d0 = self.data@;
        let d1 = self.data_stamped(slot, xid);
        assert(self.used(slot));
        lemma_overwrite(d0, self.item(slot).offset + 4, crate::storage::bytes::u32_bytes(xid));
        assert forall|i: int| 0 <= i < self.header.slot_count implies item_at(
            d1,
            #[trigger] slot_pos(i),
        ) == self.item(i) by {
            lemma_same_range(d1, d0, slot_pos(i), slot_pos(i) + ITEM_ID_SIZE);
        }
        assert forall|p: Page| p.header == self.header && p.data@ == d1 implies p.wf() by {
            assert forall|i: int| p.used(i) implies PAGE_HEADER_SIZE <= (#[trigger] p.item(
                i,
            )).offset && p.item(i).offset + p.item(i).len <= p.header.free_start by {
                assert(p.item(i) == item_at(d1, slot_pos(i)));
                assert(self.used(i));
            }
            assert forall|i: int, j: int| p.used(i) && p.used(j) && i < j implies (
            #[trigger] p.item(i)).offset + p.item(i).len <= (#[trigger] p.item(j)).offset by {
                assert(p.item(i) == item_at(d1, slot_pos(i)));
                assert(p.item(j) == item_at(d1, slot_pos(j)));
                assert(self.used(i));
                assert(self.used(j));
            }
        }
    }

    /// Whether the page is well-formed.
    pub fn is_well_formed(&self) -> (b: bool)
        ensures
            b == self.wf(),
    {
        if (self.header.free_start as usize) < PAGE_HEADER_SIZE
            || self.header.free_start > self.header.free_end
            || self.header.free_end as usize > PAGE_SIZE {
            return false;
        }
        if self.header.slot_count as usize > MAX_SLOTS
            || self.header.free_end as usize != PAGE_SIZE - ITEM_ID_SIZE * (
            self.header.slot_count as usize) {
            return false;
        }
        let count = self.header.slot_count as usize;
        let mut prev_end: usize = PAGE_HEADER_SIZE;
        let ghost mut last: int = -1;
        let mut s: usize = 0;
        while s < count
            invariant
                s <= count,
                count == self.header.slot_count,
                count <= MAX_SLOTS,
                PAGE_HEADER_SIZE <= prev_end <= self.header.free_start,
                -1 <= last < s,
                last == -1 ==> prev_end == PAGE_HEADER_SIZE,
                last >= 0 ==> self.used(last) && prev_end == self.item(last).offset + self.item(
                    last,
                ).len,
                forall|i: int|
                    0 <= i < s && self.used(i) ==> PAGE_HEADER_SIZE <= (#[trigger] self.item(
                        i,
                    )).offset && self.item(i).offset + self.item(i).len <= prev_end,
                forall|i: int, j: int|
                    0 <= i < j < s && self.used(i) && self.used(j) ==> (#[trigger] self.item(
                        i,
                    )).offset + self.item(i).len <= (#[trigger] self.item(j)).offset,
            decreases count - s,
        {
            let item = self.read_item(s);
            if item.is_used() {
                assert(self.used(s as int));
                let lo = item.offset as usize;
                let hi = lo + item.len as usize;
                if lo < prev_end || hi > self.header.free_start as usize {
                    proof {
                        if self.wf() {
                            assert(PAGE_HEADER_SIZE <= self.item(s as int).offset && self.item(
                                s as int,
                            ).offset + self.item(s as int).len <= self.header.free_start);
                            if last >= 0 {
                                assert(self.item(last).offset + self.item(last).len <= self.item(
                                    s as int,
                                ).offset);
                            }
                            assert(false);
                        }
                    }
                    return false;
                }
                prev_end = hi;
                proof {
                    last = s as int;
                }
            }
            s += 1;
        }
        true
    }

    /// A copy of the page.
    pub fn copy(&self) -> (p: Page)
        ensures
            p == *self,
    {
        Page { header: self.header, data: self.data }
    }

    /// Reads the tuple in a slot by the types of the columns.
    pub fn get_tuple(&self, slot_no: usize, columns: &Vec<Column>) -> (r: Option<
        (TupleHeader, Row),
    >)
        ensures
            match r {
                Some((h, row)) => self.spec_get_tuple(slot_no as int, column_types(columns@))
                    == Some((h@, row@)),
                None => self.spec_get_tuple(slot_no as int, column_types(columns@)).is_none(),
            },
    {
        if slot_no >= self.header.slot_count as usize || slot_no >= MAX_SLOTS {
            return None;
        }
        let item = self.read_item(slot_no);
        if item.flags == 0 {
            return None;
        }
        let lo = item.offset as usize;
        let hi = lo + item.len as usize;
        if hi > PAGE_SIZE {
            return None;
        }
        let bytes = slice_subrange(self.data.as_slice(), lo, hi);
        read_tuple(bytes, columns)
    }
}

} // verus!
