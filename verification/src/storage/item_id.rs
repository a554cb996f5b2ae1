use crate::consts::ITEM_ID_SIZE;
use crate::storage::bytes::{append_bytes, read_u16, u16_at};
use crate::types::page_types::ItemId;
use crate::storage::bytes::{lemma_u16_round_trip, u16_bytes, u16_le};
use vstd::prelude::*;

verus! {

/// The six bytes of an item id: offset, length and flags, each low byte first.
pub open spec fn item_bytes(item: ItemId) -> Seq<u8> {
    u16_bytes(item.offset) + u16_bytes(item.len) + u16_bytes(
        item.flags,
    )
}

/// The item id that the six bytes at `at` write.
pub open spec fn item_at(data: Seq<u8>, at: int) -> ItemId {
    ItemId { offset: u16_at(data, at), len: u16_at(data, at + 2), flags: u16_at(data, at + 4) }
}

/// An item id that is written and read again is the same.
pub proof fn lemma_item_round_trip(item: ItemId)
    ensures
        item_bytes(item).len() == ITEM_ID_SIZE,
        item_at(item_bytes(item), 0) == item,
{
    lemma_u16_round_trip();
    let b = item_bytes(item);
    assert(b.subrange(0, 2) =~= u16_bytes(item.offset));
    assert(b.subrange(2, 4) =~= u16_bytes(item.len));
    assert(b.subrange(4, 6) =~= u16_bytes(item.flags));
}

impl ItemId {
    /// Whether the slot holds a tuple.
    pub open spec fn spec_is_used(&self) -> bool {
        self.flags != 0
    }

    /// Marks the slot as holding no tuple.
    pub fn mark_unused(&mut self)
        ensures
            *final(self) == (ItemId { flags: 0, ..*old(self) }),
    {
        self.flags = 0;
    }

    /// Whether the slot holds a tuple.
    pub fn is_used(&self) -> (b: bool)
        ensures
            b == self.spec_is_used(),
    {
        self.flags != 0
    }

    /// The item id as six bytes.
    pub fn to_bytes(&self) -> (buf: [u8; ITEM_ID_SIZE])
        ensures
            buf@ == item_bytes(*self),
    {
        let mut all: Vec<u8> = Vec::new();
        let offset = u16_le(self.offset);
        let len = u16_le(self.len);
        let flags = u16_le(self.flags);
        append_bytes(&mut all, offset.as_slice());
        append_bytes(&mut all, len.as_slice());
        append_bytes(&mut all, flags.as_slice());
        assert(all@ =~= item_bytes(*self));
        let mut buf = [0u8;ITEM_ID_SIZE];
        let mut i: usize = 0;
        while i < ITEM_ID_SIZE
            invariant
                i <= ITEM_ID_SIZE,
                all.len() == ITEM_ID_SIZE,
                forall|j: int| 0 <= j < i ==> buf@[j] == all@[j],
            decreases ITEM_ID_SIZE - i,
        {
            buf[i] = all[i];
            i += 1;
        }
        assert(buf@ =~= all@);
        buf
    }

    /// The item id that the first six bytes of `buf` write.
    pub fn from_bytes(buf: &[u8]) -> (item: ItemId)
        requires
            buf.len() >= ITEM_ID_SIZE,
        ensures
            item == item_at(buf@, 0),
    {
        ItemId { offset: read_u16(buf, 0), len: read_u16(buf, 2), flags: read_u16(buf, 4) }
    }
}

} // verus!
