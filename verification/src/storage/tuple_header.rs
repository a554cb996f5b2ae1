use crate::storage::bytes::{append_bytes, copy_range, read_u16, read_u32, u16_at, u32_at};
use crate::types::page_types::{NullBitmap, TupleHeader, TupleHeaderView};
use crate::types::transaction_types::{
    status_in, Snapshot, SnapshotView, TransactionManager, TxStatus,
};
use crate::storage::bytes::{
    lemma_u16_round_trip, lemma_u32_round_trip,
    u16_bytes, u32_bytes, u16_le, u32_le,
};
use vstd::prelude::*;

verus! {

/// Whether the insertion by `xmin` counts for the transaction `cur_xid` with
/// the given snapshot: it is its own, or the inserter was not in flight when
/// the snapshot was taken, began before it, and has committed.
pub open spec fn insert_counts(
    xmin: u32,
    cur_xid: u32,
    snapshot: SnapshotView,
    statuses: Map<u32, TxStatus>,
) -> bool {
    xmin == cur_xid || (!snapshot.active_xids.contains(xmin) && xmin < snapshot.xmax && status_in(
        statuses,
        xmin,
    ) == TxStatus::Committed)
}

/// Whether the deletion recorded in `xmax` counts for the transaction
/// `cur_xid` with the given snapshot: there is one, and it is its own, or the
/// deleter was not in flight when the snapshot was taken, began before it,
/// and has committed.
pub open spec fn delete_counts(
    xmax: Option<u32>,
    cur_xid: u32,
    snapshot: SnapshotView,
    statuses: Map<u32, TxStatus>,
) -> bool {
    match xmax {
        None => false,
        Some(x) => x == cur_xid || (!snapshot.active_xids.contains(x) && x < snapshot.xmax
            && status_in(statuses, x) == TxStatus::Committed),
    }
}

/// Whether a tuple is visible: its insertion counts and its deletion does not.
pub open spec fn visible(
    h: TupleHeaderView,
    cur_xid: u32,
    snapshot: SnapshotView,
    statuses: Map<u32, TxStatus>,
) -> bool {
    insert_counts(h.xmin, cur_xid, snapshot, statuses) && !delete_counts(
        h.xmax,
        cur_xid,
        snapshot,
        statuses,
    )
}

/// Whether a tuple is dead: it has a deleter, and the deleter has committed.
pub open spec fn dead(h: TupleHeaderView, statuses: Map<u32, TxStatus>) -> bool {
    match h.xmax {
        None => false,
        Some(x) => status_in(statuses, x) == TxStatus::Committed,
    }
}

/// What a transaction has inserted and nobody has deleted is visible to it,
/// whatever its snapshot.
pub proof fn lemma_own_insert_visible(
    h: TupleHeaderView,
    xid: u32,
    snapshot: SnapshotView,
    statuses: Map<u32, TxStatus>,
)
    requires
        h.xmin == xid,
        h.xmax.is_none(),
    ensures
        visible(h, xid, snapshot, statuses),
{
}

/// What a transaction has inserted is invisible to every other transaction
/// whose snapshot was taken before the inserter began, or lists the
/// inserter as in flight.
pub proof fn lemma_insert_hidden_from_older(
    h: TupleHeaderView,
    reader: u32,
    snapshot: SnapshotView,
    statuses: Map<u32, TxStatus>,
)
    requires
        reader != h.xmin,
        snapshot.xmax <= h.xmin || snapshot.active_xids.contains(h.xmin),
    ensures
        !visible(h, reader, snapshot, statuses),
{
}

/// Whether two status tables agree on the transactions that were settled
/// when a snapshot was taken: those that began before it and are not in
/// flight in it.
pub open spec fn agree_on_settled(
    a: Map<u32, TxStatus>,
    b: Map<u32, TxStatus>,
    snapshot: SnapshotView,
) -> bool {
    forall|x: u32|
        x < snapshot.xmax && !snapshot.active_xids.contains(x) ==> #[trigger] status_in(a, x)
            == status_in(b, x)
}

/// With one snapshot for all its statements, a transaction never comes to
/// see a tuple of another's that it did not see before: whatever commits
/// after the snapshot was taken, a tuple that is visible later, and that
/// the transaction did not insert itself, was visible before, as long as
/// its inserter is the same and its deleter, if it had one, is the same.
pub proof fn lemma_pinned_snapshot_only_shrinks(
    earlier: TupleHeaderView,
    later: TupleHeaderView,
    xid: u32,
    snapshot: SnapshotView,
    statuses_earlier: Map<u32, TxStatus>,
    statuses_later: Map<u32, TxStatus>,
)
    requires
        agree_on_settled(statuses_earlier, statuses_later, snapshot),
        later.xmin == earlier.xmin,
        earlier.xmin != xid,
        earlier.xmax.is_none() || later.xmax == earlier.xmax,
        visible(later, xid, snapshot, statuses_later),
    ensures
        visible(earlier, xid, snapshot, statuses_earlier),
{
    assert(status_in(statuses_earlier, earlier.xmin) == status_in(statuses_later, earlier.xmin));
    if let Some(x) = earlier.xmax {
        if x != xid && !snapshot.active_xids.contains(x) && x < snapshot.xmax {
            assert(status_in(statuses_earlier, x) == status_in(statuses_later, x));
        }
    }
}

/// The xid that a stored `xmax` field stands for; 0 stands for none.
pub open spec fn xmax_of(raw: u32) -> Option<u32> {
    if raw == 0 {
        None
    } else {
        Some(raw)
    }
}

/// The stored form of `xmax`; none is stored as 0.
pub open spec fn raw_xmax(xmax: Option<u32>) -> u32 {
    match xmax {
        None => 0,
        Some(x) => x,
    }
}

/// The bytes of a tuple header: xmin, xmax, the length of the null bitmap,
/// the bitmap, and the flags; numbers low byte first.
pub open spec fn tuple_header_bytes(h: TupleHeaderView) -> Seq<u8> {
    u32_bytes(h.xmin) + u32_bytes(raw_xmax(h.xmax)) + u16_bytes(
        (h.nullmap.len() % 65536) as u16,
    ) + h.nullmap + u16_bytes(h.flags)
}

/// The length of the null bitmap that a tuple's bytes announce.
pub open spec fn announced_nullmap_len(bytes: Seq<u8>) -> int {
    u16_at(bytes, 8) as int
}

/// Whether `bytes` are long enough to hold the tuple header that they announce.
pub open spec fn header_fits(bytes: Seq<u8>) -> bool {
    bytes.len() >= 10 && bytes.len() >= 12 + announced_nullmap_len(bytes)
}

/// The length of the tuple header that `bytes` begin with.
pub open spec fn header_len(bytes: Seq<u8>) -> int {
    12 + announced_nullmap_len(bytes)
}

/// The tuple header that `bytes` begin with.
pub open spec fn tuple_header_of(bytes: Seq<u8>) -> TupleHeaderView {
    let n = announced_nullmap_len(bytes);
    TupleHeaderView {
        xmin: u32_at(bytes, 0),
        xmax: xmax_of(u32_at(bytes, 4)),
        nullmap: bytes.subrange(10, 10 + n),
        flags: u16_at(bytes, 10 + n),
    }
}

/// A tuple header that can be stored (its null bitmap is shorter than 65536
/// bytes, and its `xmax`, if any, is not 0) is read back as it was written,
/// whatever follows it.
pub proof fn lemma_tuple_header_round_trip(h: TupleHeaderView, rest: Seq<u8>)
    requires
        h.nullmap.len() < 65536,
        h.xmax != Some(0u32),
    ensures
        tuple_header_bytes(h).len() == 12 + h.nullmap.len(),
        header_fits(tuple_header_bytes(h) + rest),
        header_len(tuple_header_bytes(h) + rest) == 12 + h.nullmap.len(),
        tuple_header_of(tuple_header_bytes(h) + rest) == h,
{
    lemma_u16_round_trip();
    lemma_u32_round_trip();
    let n = h.nullmap.len() as int;
    let b = tuple_header_bytes(h) + rest;
    assert(b.subrange(0, 4) =~= u32_bytes(h.xmin));
    assert(b.subrange(4, 8) =~= u32_bytes(raw_xmax(h.xmax)));
    assert(b.subrange(8, 10) =~= u16_bytes((n % 65536) as u16));
    assert(b.subrange(10, 10 + n) =~= h.nullmap);
    assert(b.subrange(10 + n, 12 + n) =~= u16_bytes(h.flags));
}

/// Whether bit `k` of `b` is set.
pub open spec fn bit_of(b: u8, k: u8) -> bool {
    b & (1u8 << k) != 0
}

/// The bitmap with the bit of column `idx` set.
pub open spec fn with_null(bytes: Seq<u8>, idx: int) -> Seq<u8> {
    bytes.update(idx / 8, bytes[idx / 8] | (1u8 << ((idx % 8) as u8)))
}

/// Whether a bitmap marks column `idx` as NULL.
pub open spec fn null_at(bytes: Seq<u8>, idx: int) -> bool {
    bit_of(bytes[idx / 8], (idx % 8) as u8)
}

fn contains_xid(xids: &Vec<u32>, x: u32) -> (b: bool)
    ensures
        b == xids@.contains(x),
{
    let mut i: usize = 0;
    while i < xids.len()
        invariant
            i <= xids.len(),
            forall|j: int| 0 <= j < i ==> xids[j] != x,
        decreases xids.len() - i,
    {
        if xids[i] == x {
            return true;
        }
        i += 1;
    }
    false
}

impl TupleHeader {
    /// Whether the tuple is visible to the transaction `cur_xid` with `snapshot`.
    pub fn is_visible(&self, cur_xid: u32, snapshot: &Snapshot, tm: &TransactionManager) -> (b:
        bool)
        ensures
            b == visible(self@, cur_xid, snapshot@, tm@.transactions),
    {
        let inserted = if self.xmin == cur_xid {
            true
        } else if contains_xid(&snapshot.active_xids, self.xmin) {
            false
        } else if self.xmin >= snapshot.xmax {
            false
        } else {
            match tm.status(self.xmin) {
                TxStatus::Committed => true,
                _ => false,
            }
        };
        let deleted = match self.xmax {
            None => false,
            Some(xmax) => {
                if xmax == cur_xid {
                    true
                } else if contains_xid(&snapshot.active_xids, xmax) {
                    false
                } else if xmax >= snapshot.xmax {
                    false
                } else {
                    match tm.status(xmax) {
                        TxStatus::Committed => true,
                        _ => false,
                    }
                }
            },
        };
        inserted && !deleted
    }

    /// Whether the tuple is dead: deleted by a transaction that has committed.
    pub fn is_dead(&self, tm: &TransactionManager) -> (b: bool)
        ensures
            b == dead(self@, tm@.transactions),
    {
        match self.xmax {
            None => false,
            Some(x) => match tm.status(x) {
                TxStatus::Committed => true,
                _ => false,
            },
        }
    }

    /// The header as bytes.
    pub fn to_bytes(&self) -> (buf: Vec<u8>)
        ensures
            buf@ == tuple_header_bytes(self@),
    {
        let mut buf: Vec<u8> = Vec::new();
        let xmin = u32_le(self.xmin);
        let raw: u32 = match self.xmax {
            None => 0,
            Some(x) => x,
        };
        let xmax = u32_le(raw);
        let null_len = u16_le((self.nullmap_bytes.size() % 65536) as u16);
        let flags = u16_le(self.flags);
        append_bytes(&mut buf, xmin.as_slice());
        append_bytes(&mut buf, xmax.as_slice());
        append_bytes(&mut buf, null_len.as_slice());
        append_bytes(&mut buf, self.nullmap_bytes.bytes.as_slice());
        append_bytes(&mut buf, flags.as_slice());
        buf
    }

    /// Whether `buf` is long enough to hold the header that it announces.
    pub fn fits(buf: &[u8]) -> (b: bool)
        ensures
            b == header_fits(buf@),
    {
        if buf.len() < 10 {
            return false;
        }
        let n = read_u16(buf, 8) as usize;
        buf.len() >= 12 + n
    }

    /// The header that `buf` begins with.
    pub fn from_bytes(buf: &[u8]) -> (h: TupleHeader)
        requires
            header_fits(buf@),
        ensures
            h@ == tuple_header_of(buf@),
    {
        let xmin = read_u32(buf, 0);
        let raw_xmax = read_u32(buf, 4);
        let xmax = if raw_xmax == 0 {
            None
        } else {
            Some(raw_xmax)
        };
        let null_len = read_u16(buf, 8) as usize;
        let null_bytes = copy_range(buf, 10, 10 + null_len);
        let flags = read_u16(buf, 10 + null_len);
        TupleHeader { xmin, xmax, nullmap_bytes: NullBitmap { bytes: null_bytes }, flags }
    }
}

impl NullBitmap {
    /// Whether the bitmap marks column `idx` as NULL.
    pub open spec fn spec_is_null(&self, idx: int) -> bool {
        null_at(self.bytes@, idx)
    }

    /// A bitmap for `column_count` columns, none of them marked.
    pub fn new(column_count: usize) -> (m: NullBitmap)
        requires
            column_count <= usize::MAX - 7,
        ensures
            m.bytes@.len() == (column_count + 7) / 8,
            forall|i: int| 0 <= i < m.bytes@.len() ==> m.bytes@[i] == 0,
            forall|idx: int| 0 <= idx < column_count ==> !m.spec_is_null(idx),
    {
        let byte_count = (column_count + 7) / 8;
        let mut bytes: Vec<u8> = Vec::new();
        let mut i: usize = 0;
        while i < byte_count
            invariant
                i <= byte_count,
                bytes.len() == i,
                forall|j: int| 0 <= j < i ==> bytes[j] == 0,
            decreases byte_count - i,
        {
            bytes.push(0);
            i += 1;
        }
        let m = NullBitmap { bytes };
        assert forall|idx: int| 0 <= idx < column_count implies !m.spec_is_null(idx) by {
            let k = (idx % 8) as u8;
            assert(0u8 & (1u8 << k) == 0) by (bit_vector);
        }
        m
    }

    /// Marks column `idx` as NULL.
    pub fn set_null(&mut self, idx: usize)
        requires
            idx / 8 < old(self).bytes.len(),
        ensures
            final(self).bytes@ == with_null(old(self).bytes@, idx as int),
            final(self).bytes@.len() == old(self).bytes@.len(),
            final(self).spec_is_null(idx as int),
            forall|j: int|
                0 <= j < 8 * old(self).bytes@.len() && j != idx ==> final(self).spec_is_null(j)
                    == old(self).spec_is_null(j),
    {
        let byte = idx / 8;
        let bit: u8 = (idx % 8) as u8;
        let old_byte: u8 = self.bytes[byte];
        let new_byte: u8 = old_byte | (1u8 << bit);
        self.bytes.set(byte, new_byte);
        assert(bit < 8);
        assert(bit_of(new_byte, bit)) by (bit_vector)
            requires
                new_byte == old_byte | (1u8 << bit),
                bit < 8,
        ;
        assert forall|j: int|
            0 <= j < 8 * old(self).bytes@.len() && j != idx implies self.spec_is_null(j)
                == old(self).spec_is_null(j) by {
            if j / 8 == byte as int {
                let k = (j % 8) as u8;
                assert(k != bit);
                assert(bit_of(new_byte, k) == bit_of(old_byte, k)) by (bit_vector)
                    requires
                        new_byte == old_byte | (1u8 << bit),
                        bit < 8,
                        k < 8,
                        k != bit,
                ;
            }
        }
    }

    /// Whether the bitmap marks column `idx` as NULL.
    pub fn is_null(&self, idx: usize) -> (b: bool)
        requires
            idx / 8 < self.bytes.len(),
        ensures
            b == self.spec_is_null(idx as int),
    {
        let byte = idx / 8;
        let bit: u8 = (idx % 8) as u8;
        (self.bytes[byte] & (1u8 << bit)) != 0
    }

    /// The number of bytes of the bitmap.
    pub fn size(&self) -> (n: usize)
        ensures
            n == self.bytes@.len(),
    {
        self.bytes.len()
    }
}

} // verus!
