use vstd::prelude::*;

verus! {

/// Total size of one page in bytes.
pub const PAGE_SIZE: usize = 8192;

/// Bytes reserved at the start of a page for its header.
pub const PAGE_HEADER_SIZE: usize = 16;

/// Size of one item identifier in the slot array.
pub const ITEM_ID_SIZE: usize = 6;

/// Version number of the catalog format.
pub const CATALOG_VERSION: u32 = 1;

} // verus!
