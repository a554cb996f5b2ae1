use crate::errors::parse_error::ParseError;
use crate::parser::common::query_result_view;
use crate::text::{
    begins_with, chars_of, lower, starts_with, string_of, subvec, to_lower, trim, trimmed,
};
use crate::types::parser_types::{Query, QueryView};
use vstd::prelude::*;

verus! {

/// What `VACUUM t` parses to: the statement begins with the keyword, in any
/// case of letters, and one blank; the table is the trimmed text after them.
pub open spec fn spec_parse_vacuum(s: Seq<char>) -> Result<QueryView, ParseError> {
    let n = "vacuum "@.len() as int;
    if !starts_with(lower(s), "vacuum "@) {
        Err(ParseError::InvalidSyntax)
    } else {
        Ok(QueryView::Vacuum { table_name: trim(s.subrange(n, s.len() as int)) })
    }
}

/// Parses `VACUUM t`.
pub fn parse_vacuum(input: &str) -> (r: Result<Query, ParseError>)
    ensures
        query_result_view(r) == spec_parse_vacuum(input@),
{
    let v = chars_of(input);
    let prefix = chars_of("vacuum ");
    let low = to_lower(&v);
    if !begins_with(&low, &prefix) {
        return Err(ParseError::InvalidSyntax);
    }
    assert(prefix.len() <= v.len());
    let rest = subvec(&v, prefix.len(), v.len());
    let name = trimmed(&rest);
    let table_name = string_of(&name, 0, name.len());
    assert(name@.subrange(0, name.len() as int) =~= name@);
    Ok(Query::Vacuum { table_name })
}

} // verus!
