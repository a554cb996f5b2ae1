use crate::consts::PAGE_SIZE;
use vstd::prelude::*;

verus! {

/// Metadata at the beginning of each page.
#[derive(Debug, Clone, Copy, PartialEq, Eq, Structural)]
pub struct PageHeader {
    pub page_no: u32,
    pub slot_count: u16,
    pub free_start: u16,
    pub free_end: u16,
    pub checksum: u32,
}

/// A page: its header and its raw bytes.
pub struct Page {
    pub header: PageHeader,
    pub data: [u8; PAGE_SIZE],
}

/// Entry of the slot array: where a tuple lies, how long it is, and whether
/// the slot is in use (`flags` other than 0).
#[derive(Debug, Clone, Copy, PartialEq, Eq, Structural)]
pub struct ItemId {
    pub offset: u16,
    pub len: u16,
    pub flags: u16,
}

/// Header of a stored tuple.
#[derive(Debug, Clone)]
pub struct TupleHeader {
    pub xmin: u32,
    pub xmax: Option<u32>,
    pub nullmap_bytes: NullBitmap,
    pub flags: u16,
}

/// The mathematical content of a [`TupleHeader`].
pub struct TupleHeaderView {
    pub xmin: u32,
    pub xmax: Option<u32>,
    pub nullmap: Seq<u8>,
    pub flags: u16,
}

impl View for TupleHeader {
    type V = TupleHeaderView;

    open spec fn view(&self) -> TupleHeaderView {
        TupleHeaderView {
            xmin: self.xmin,
            xmax: self.xmax,
            nullmap: self.nullmap_bytes.bytes@,
            flags: self.flags,
        }
    }
}

/// One bit per column, set where the column's value is NULL.
#[derive(Debug, Clone)]
pub struct NullBitmap {
    pub bytes: Vec<u8>,
}

} // verus!
