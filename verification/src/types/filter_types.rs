use vstd::prelude::*;

verus! {

/// Comparison operators of a predicate.
#[derive(Debug, Clone, Copy, PartialEq, Eq, Structural)]
pub enum CmpOp {
    Eq,
    Ne,
    Lt,
    Lte,
    Gt,
    Gte,
}

impl CmpOp {
    /// The operator's spelling in the surface language.
    pub fn symbol(&self) -> (s: &'static str)
        ensures
            s@ == self.spec_symbol(),
    {
        match self {
            CmpOp::Eq => "=",
            CmpOp::Ne => "!=",
            CmpOp::Lt => "<",
            CmpOp::Lte => "<=",
            CmpOp::Gt => ">",
            CmpOp::Gte => ">=",
        }
    }

    /// The operator as it is written.
    pub open spec fn spec_symbol(&self) -> Seq<char> {
        match self {
            CmpOp::Eq => "="@,
            CmpOp::Ne => "!="@,
            CmpOp::Lt => "<"@,
            CmpOp::Lte => "<="@,
            CmpOp::Gt => ">"@,
            CmpOp::Gte => ">="@,
        }
    }
}

} // verus!
