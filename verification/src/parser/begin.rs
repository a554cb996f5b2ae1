use crate::errors::parse_error::ParseError;
use crate::parser::common::{isolation_of, parse_isolation, query_result_view};
use crate::text::{begins_with, chars_of, lower, starts_with, subvec, to_lower, trim, trimmed};
use crate::types::parser_types::{Query, QueryView};
use vstd::prelude::*;

verus! {

/// What `BEGIN [ISOLATION LEVEL l]` parses to. The trimmed statement
/// begins with the keyword, in any case of letters.
pub open spec fn spec_parse_begin(s: Seq<char>) -> Result<QueryView, ParseError> {
    let t = trim(s);
    let n = "begin"@.len() as int;
    if !starts_with(lower(t), "begin"@) {
        Err(ParseError::InvalidBegin)
    } else {
        let rest = trim(t.subrange(n, t.len() as int));
        let k = "isolation level"@.len() as int;
        if rest.len() == 0 {
            Ok(QueryView::Begin { isolation: None })
        } else if starts_with(lower(rest), "isolation level"@) {
            match isolation_of(trim(rest.subrange(k, rest.len() as int))) {
                Ok(l) => Ok(QueryView::Begin { isolation: Some(l) }),
                Err(e) => Err(e),
            }
        } else {
            Err(ParseError::InvalidBegin)
        }
    }
}

/// Parses `BEGIN [ISOLATION LEVEL (READ COMMITTED | REPEATABLE READ)]`.
pub fn parse_begin(input: &str) -> (r: Result<Query, ParseError>)
    ensures
        query_result_view(r) == spec_parse_begin(input@),
{
    let v = chars_of(input);
    let t = trimmed(&v);
    let prefix = chars_of("begin");
    let low_t = to_lower(&t);
    if !begins_with(&low_t, &prefix) {
        return Err(ParseError::InvalidBegin);
    }
    assert(prefix.len() <= t.len());
    let after = subvec(&t, prefix.len(), t.len());
    let rest = trimmed(&after);
    if rest.len() == 0 {
        return Ok(Query::Begin { isolation: None });
    }
    let low = to_lower(&rest);
    let marker = chars_of("isolation level");
    if begins_with(&low, &marker) {
        let tail = subvec(&rest, marker.len(), rest.len());
        let level = trimmed(&tail);
        match parse_isolation(&level) {
            Ok(l) => Ok(Query::Begin { isolation: Some(l) }),
            Err(e) => Err(e),
        }
    } else {
        Err(ParseError::InvalidBegin)
    }
}

} // verus!
