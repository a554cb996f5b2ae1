use vstd::prelude::*;

verus! {

/// Why the catalog refused an operation or could not be loaded.
#[derive(Debug, Clone, PartialEq, Eq)]
pub enum CatalogError {
    /// The catalog file could not be read or written.
    Io,
    /// The catalog file does not hold a catalog.
    Serde,
    /// The catalog's version is not the one that this engine reads.
    UnsupportedVersion,
    /// The catalog was written for another page size.
    PageSizeMismatch,
    /// Two tables have the same name.
    DuplicateTable,
    /// Two indexes have the same name.
    DuplicateIndex,
    /// Two tables have the same id.
    DuplicateOid,
    /// Two tables use the same file.
    FileReused,
    /// Two columns of a table have the same name.
    DuplicateColumn,
    /// There is not one heap file for each table.
    HeapFilesMismatch,
    /// A table of that name exists.
    TableExists(String),
    /// No table of that name exists.
    TableNotFound(String),
    /// An index of that name exists.
    IndexExists(String),
    /// No table id is left to hand out.
    TableIdsExhausted,
}

/// The mathematical content of a [`CatalogError`].
pub enum CatalogFault {
    Io,
    Serde,
    UnsupportedVersion,
    PageSizeMismatch,
    DuplicateTable,
    DuplicateIndex,
    DuplicateOid,
    FileReused,
    DuplicateColumn,
    HeapFilesMismatch,
    TableExists(Seq<char>),
    TableNotFound(Seq<char>),
    IndexExists(Seq<char>),
    TableIdsExhausted,
}

impl View for CatalogError {
    type V = CatalogFault;

    open spec fn view(&self) -> CatalogFault {
        match self {
            CatalogError::Io => CatalogFault::Io,
            CatalogError::Serde => CatalogFault::Serde,
            CatalogError::UnsupportedVersion => CatalogFault::UnsupportedVersion,
            CatalogError::PageSizeMismatch => CatalogFault::PageSizeMismatch,
            CatalogError::DuplicateTable => CatalogFault::DuplicateTable,
            CatalogError::DuplicateIndex => CatalogFault::DuplicateIndex,
            CatalogError::DuplicateOid => CatalogFault::DuplicateOid,
            CatalogError::FileReused => CatalogFault::FileReused,
            CatalogError::DuplicateColumn => CatalogFault::DuplicateColumn,
            CatalogError::HeapFilesMismatch => CatalogFault::HeapFilesMismatch,
            CatalogError::TableExists(n) => CatalogFault::TableExists(n@),
            CatalogError::TableNotFound(n) => CatalogFault::TableNotFound(n@),
            CatalogError::IndexExists(n) => CatalogFault::IndexExists(n@),
            CatalogError::TableIdsExhausted => CatalogFault::TableIdsExhausted,
        }
    }
}

impl CatalogError {
    /// Whether the error says that the catalog is invalid.
    pub open spec fn spec_is_invalid(&self) -> bool {
        self is UnsupportedVersion || self is PageSizeMismatch || self is DuplicateTable
            || self is DuplicateIndex || self is DuplicateOid || self is FileReused
            || self is DuplicateColumn
    }

    /// Whether the error says that the catalog is invalid.
    pub fn is_invalid(&self) -> (b: bool)
        ensures
            b == self.spec_is_invalid(),
    {
        match self {
            CatalogError::UnsupportedVersion
            | CatalogError::PageSizeMismatch
            | CatalogError::DuplicateTable
            | CatalogError::DuplicateIndex
            | CatalogError::DuplicateOid
            | CatalogError::FileReused
            | CatalogError::DuplicateColumn => true,
            _ => false,
        }
    }
}

} // verus!
