use crate::types::filter_types::CmpOp;
use crate::types::storage_types::ValueType;
use vstd::prelude::*;
use vstd::string::StringExecFns;

verus! {

/// Why a predicate could not be evaluated on a row.
#[derive(Debug, Clone)]
pub enum EvalError {
    /// No column has the name.
    UnknownColumn(String),
    /// More than one column has the name.
    AmbiguousColumn(String),
    /// The two sides of a comparison are of different types.
    TypeMismatch { left: ValueType, right: ValueType, op: CmpOp },
    /// The operator is not defined for values of the type.
    InvalidOpForType { ty: ValueType, op: CmpOp },
    /// A row is shorter than the list of its columns.
    Internal,
}

/// The mathematical content of an [`EvalError`].
pub enum EvalErrorView {
    UnknownColumn(Seq<char>),
    AmbiguousColumn(Seq<char>),
    TypeMismatch { left: ValueType, right: ValueType, op: CmpOp },
    InvalidOpForType { ty: ValueType, op: CmpOp },
    Internal,
}

impl View for EvalError {
    type V = EvalErrorView;

    open spec fn view(&self) -> EvalErrorView {
        match self {
            EvalError::UnknownColumn(n) => EvalErrorView::UnknownColumn(n@),
            EvalError::AmbiguousColumn(n) => EvalErrorView::AmbiguousColumn(n@),
            EvalError::TypeMismatch { left, right, op } => EvalErrorView::TypeMismatch {
                left: *left,
                right: *right,
                op: *op,
            },
            EvalError::InvalidOpForType { ty, op } => EvalErrorView::InvalidOpForType {
                ty: *ty,
                op: *op,
            },
            EvalError::Internal => EvalErrorView::Internal,
        }
    }
}

impl EvalErrorView {
    /// The text that describes the error.
    pub open spec fn message(self) -> Seq<char> {
        match self {
            EvalErrorView::UnknownColumn(n) => "unknown column: "@ + n,
            EvalErrorView::AmbiguousColumn(n) => "ambiguous column: "@ + n,
            EvalErrorView::TypeMismatch { left, right, op } => "type mismatch for "@
                + op.spec_symbol() + ": left is "@ + left.spec_name() + ", right is "@
                + right.spec_name(),
            EvalErrorView::InvalidOpForType { ty, op } => "invalid operator "@ + op.spec_symbol()
                + " for type "@ + ty.spec_name(),
            EvalErrorView::Internal => "internal error: row shorter than its columns"@,
        }
    }
}

impl EvalError {
    /// A description for the user.
    pub fn message(&self) -> (s: String)
        ensures
            s@ == self@.message(),
    {
        match self {
            EvalError::UnknownColumn(n) => {
                let mut s = String::from_str("unknown column: ");
                s.append(n.as_str());
                s
            },
            EvalError::AmbiguousColumn(n) => {
                let mut s = String::from_str("ambiguous column: ");
                s.append(n.as_str());
                s
            },
            EvalError::TypeMismatch { left, right, op } => {
                let mut s = String::from_str("type mismatch for ");
                s.append(op.symbol());
                s.append(": left is ");
                s.append(left.name());
                s.append(", right is ");
                s.append(right.name());
                s
            },
            EvalError::InvalidOpForType { ty, op } => {
                let mut s = String::from_str("invalid operator ");
                s.append(op.symbol());
                s.append(" for type ");
                s.append(ty.name());
                s
            },
            EvalError::Internal => String::from_str("internal error: row shorter than its columns"),
        }
    }
}

/// The result of evaluating something on a row.
pub type EvalResult<T> = Result<T, EvalError>;

} // verus!
