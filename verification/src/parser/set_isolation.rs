use crate::errors::parse_error::ParseError;
use crate::parser::common::{isolation_of, parse_isolation, query_result_view};
use crate::text::{begins_with, chars_of, lower, starts_with, subvec, to_lower, trim, trimmed};
use crate::types::parser_types::{Query, QueryView};
use vstd::prelude::*;

verus! {

/// The words that open a statement which sets the session's isolation level.
pub open spec fn set_session_prefix() -> Seq<char> {
    "set session characteristics as transaction isolation level"@
}

/// What `SET SESSION CHARACTERISTICS AS TRANSACTION ISOLATION LEVEL l` parses to.
pub open spec fn spec_parse_set_session(s: Seq<char>) -> Result<QueryView, ParseError> {
    if !starts_with(lower(s), set_session_prefix()) {
        Err(ParseError::InvalidSetSession)
    } else {
        match isolation_of(trim(s.subrange(set_session_prefix().len() as int, s.len() as int))) {
            Ok(l) => Ok(QueryView::SetSessionIsolationLevel(l)),
            Err(e) => Err(e),
        }
    }
}

/// Parses `SET SESSION CHARACTERISTICS AS TRANSACTION ISOLATION LEVEL l`.
pub fn parse_set_session(input: &str) -> (r: Result<Query, ParseError>)
    ensures
        query_result_view(r) == spec_parse_set_session(input@),
{
    let v = chars_of(input);
    let low = to_lower(&v);
    let prefix = chars_of("set session characteristics as transaction isolation level");
    if !begins_with(&low, &prefix) {
        return Err(ParseError::InvalidSetSession);
    }
    let tail = subvec(&v, prefix.len(), v.len());
    let level = trimmed(&tail);
    match parse_isolation(&level) {
        Ok(l) => Ok(Query::SetSessionIsolationLevel(l)),
        Err(e) => Err(e),
    }
}

} // verus!
