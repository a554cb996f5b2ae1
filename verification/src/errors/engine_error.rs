use crate::errors::catalog_error::CatalogError;
use crate::errors::eval_error::{EvalError, EvalErrorView};
use crate::errors::parse_error::ParseError;
use crate::errors::storage_error::StorageError;
use vstd::prelude::*;

verus! {

/// Why a statement failed on the database: a fault of the schema, a
/// constraint that the data would break, or a failure below.
#[derive(Debug, Clone)]
pub enum DbError {
    /// A table of that name exists.
    TableAlreadyExists(String),
    /// No table of that name exists.
    TableDoesNotExist(String),
    /// No column has that name.
    ColumnUnknown(String),
    ColumnCountMismatch,
    /// A value is not of the type of its column, the column of that name.
    TypeMismatch(String),
    /// The column of that name would be NULL and must not be.
    NotNullViolation(String),
    /// The primary key, the column of that name, would be NULL.
    PkNull(String),
    /// A visible row has the same value in the primary key, the column of that name.
    PkConflict(String),
    /// The table of that name, which a foreign key references, does not exist.
    FkMissingRef(String),
    /// The table of that name, which a foreign key references, holds no row for the key.
    FkViolation(String),
    /// A row of the table of that name references the row by a foreign key.
    FkReferenced(String),
    /// The table has no column of that name for the index.
    IndexColumnMissing(String),
    /// An index of that name exists.
    IndexExists(String),
    Storage(StorageError),
    Eval(EvalError),
}

/// The mathematical content of a [`DbError`].
pub enum DbErrorView {
    TableAlreadyExists(Seq<char>),
    TableDoesNotExist(Seq<char>),
    ColumnUnknown(Seq<char>),
    ColumnCountMismatch,
    TypeMismatch(Seq<char>),
    NotNullViolation(Seq<char>),
    PkNull(Seq<char>),
    PkConflict(Seq<char>),
    FkMissingRef(Seq<char>),
    FkViolation(Seq<char>),
    FkReferenced(Seq<char>),
    IndexColumnMissing(Seq<char>),
    IndexExists(Seq<char>),
    Storage(StorageError),
    Eval(EvalErrorView),
}

impl View for DbError {
    type V = DbErrorView;

    open spec fn view(&self) -> DbErrorView {
        match self {
            DbError::TableAlreadyExists(n) => DbErrorView::TableAlreadyExists(n@),
            DbError::TableDoesNotExist(n) => DbErrorView::TableDoesNotExist(n@),
            DbError::ColumnUnknown(n) => DbErrorView::ColumnUnknown(n@),
            DbError::ColumnCountMismatch => DbErrorView::ColumnCountMismatch,
            DbError::TypeMismatch(n) => DbErrorView::TypeMismatch(n@),
            DbError::NotNullViolation(n) => DbErrorView::NotNullViolation(n@),
            DbError::PkNull(n) => DbErrorView::PkNull(n@),
            DbError::PkConflict(n) => DbErrorView::PkConflict(n@),
            DbError::FkMissingRef(n) => DbErrorView::FkMissingRef(n@),
            DbError::FkViolation(n) => DbErrorView::FkViolation(n@),
            DbError::FkReferenced(n) => DbErrorView::FkReferenced(n@),
            DbError::IndexColumnMissing(n) => DbErrorView::IndexColumnMissing(n@),
            DbError::IndexExists(n) => DbErrorView::IndexExists(n@),
            DbError::Storage(e) => DbErrorView::Storage(*e),
            DbError::Eval(e) => DbErrorView::Eval(e@),
        }
    }
}

/// Why the engine failed to carry out a statement.
#[derive(Debug, Clone)]
pub enum EngineError {
    Catalog(CatalogError),
    Storage(StorageError),
    Database(DbError),
    Parser(ParseError),
    /// BEGIN while a transaction is active.
    TransactionInProgress,
    /// COMMIT or ROLLBACK while no transaction is active.
    NoActiveTransaction,
    /// No xid is left to hand out.
    XidsExhausted,
    Other(String),
}

impl From<String> for EngineError {
    fn from(err: String) -> (e: EngineError) {
        EngineError::Other(err)
    }
}

impl vstd::std_specs::convert::FromSpecImpl<String> for EngineError {
    open spec fn obeys_from_spec() -> bool {
        true
    }

    open spec fn from_spec(err: String) -> EngineError {
        EngineError::Other(err)
    }
}

} // verus!
