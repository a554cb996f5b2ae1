use vstd::prelude::*;

verus! {

/// Why an operation on a page or a heap file failed.
#[derive(Debug, Clone, Copy, PartialEq, Eq, Structural)]
pub enum StorageError {
    /// The tuple and its item id do not fit into the page's free space.
    NoSpace,
    /// The page or the slot does not exist.
    InvalidSlot,
    /// The tuple is too short to hold the header's `xmax` field.
    CorruptTupleHeader,
    /// The slot holds no tuple.
    SlotAlreadyUnused,
}

} // verus!
