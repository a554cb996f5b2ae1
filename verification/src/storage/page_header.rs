use crate::consts::{PAGE_HEADER_SIZE, PAGE_SIZE};
use crate::storage::bytes::{append_bytes, read_u16, read_u32, u16_at, u32_at};
use crate::types::page_types::PageHeader;
use crate::storage::bytes::{
    lemma_u16_round_trip, lemma_u32_round_trip,
    u16_bytes, u32_bytes, u16_le, u32_le,
};
use vstd::prelude::*;

verus! {

/// The sixteen bytes of a page header: page number, slot count, start and
/// end of the free space, checksum, each low byte first, and two bytes of 0.
pub open spec fn header_bytes(h: PageHeader) -> Seq<u8> {
    u32_bytes(h.page_no) + u16_bytes(h.slot_count) + u16_bytes(
        h.free_start,
    ) + u16_bytes(h.free_end) + u32_bytes(h.checksum) + seq![0u8, 0u8]
}

/// The page header that the first fourteen bytes of `data` write.
pub open spec fn header_of(data: Seq<u8>) -> PageHeader {
    PageHeader {
        page_no: u32_at(data, 0),
        slot_count: u16_at(data, 4),
        free_start: u16_at(data, 6),
        free_end: u16_at(data, 8),
        checksum: u32_at(data, 10),
    }
}

/// The header of an empty page.
pub open spec fn empty_header(page_no: u32) -> PageHeader {
    PageHeader {
        page_no,
        slot_count: 0,
        free_start: PAGE_HEADER_SIZE as u16,
        free_end: PAGE_SIZE as u16,
        checksum: 0,
    }
}

/// A page header that is written and read again is the same.
pub proof fn lemma_header_round_trip(h: PageHeader)
    ensures
        header_bytes(h).len() == PAGE_HEADER_SIZE,
        header_of(header_bytes(h)) == h,
{
    lemma_u16_round_trip();
    lemma_u32_round_trip();
    let b = header_bytes(h);
    assert(b.subrange(0, 4) =~= u32_bytes(h.page_no));
    assert(b.subrange(4, 6) =~= u16_bytes(h.slot_count));
    assert(b.subrange(6, 8) =~= u16_bytes(h.free_start));
    assert(b.subrange(8, 10) =~= u16_bytes(h.free_end));
    assert(b.subrange(10, 14) =~= u32_bytes(h.checksum));
}

impl PageHeader {
    /// The header of an empty page: no slots, and free space from behind the
    /// header to the end of the page.
    pub fn new(page_no: u32) -> (h: PageHeader)
        ensures
            h == empty_header(page_no),
    {
        PageHeader {
            page_no,
            slot_count: 0,
            free_start: PAGE_HEADER_SIZE as u16,
            free_end: PAGE_SIZE as u16,
            checksum: 0,
        }
    }

    /// The header as sixteen bytes.
    pub fn to_bytes(&self) -> (buf: [u8; PAGE_HEADER_SIZE])
        ensures
            buf@ == header_bytes(*self),
    {
        let mut all: Vec<u8> = Vec::new();
        let page_no = u32_le(self.page_no);
        let slot_count = u16_le(self.slot_count);
        let free_start = u16_le(self.free_start);
        let free_end = u16_le(self.free_end);
        let checksum = u32_le(self.checksum);
        append_bytes(&mut all, page_no.as_slice());
        append_bytes(&mut all, slot_count.as_slice());
        append_bytes(&mut all, free_start.as_slice());
        append_bytes(&mut all, free_end.as_slice());
        append_bytes(&mut all, checksum.as_slice());
        all.push(0);
        all.push(0);
        assert(all@ =~= header_bytes(*self));
        let mut buf = [0u8;PAGE_HEADER_SIZE];
        let mut i: usize = 0;
        while i < PAGE_HEADER_SIZE
            invariant
                i <= PAGE_HEADER_SIZE,
                all.len() == PAGE_HEADER_SIZE,
                forall|j: int| 0 <= j < i ==> buf@[j] == all@[j],
            decreases PAGE_HEADER_SIZE - i,
        {
            buf[i] = all[i];
            i += 1;
        }
        assert(buf@ =~= all@);
        buf
    }

    /// The header that the first fourteen bytes of `buf` write.
    pub fn from_bytes(buf: &[u8]) -> (h: PageHeader)
        requires
            buf.len() >= 14,
        ensures
            h == header_of(buf@),
    {
        PageHeader {
            page_no: read_u32(buf, 0),
            slot_count: read_u16(buf, 4),
            free_start: read_u16(buf, 6),
            free_end: read_u16(buf, 8),
            checksum: read_u32(buf, 10),
        }
    }
}

} // verus!
