use crate::errors::parse_error::ParseError;
use crate::parser::common::query_result_view;
use crate::text::{chars_of, find, find_in, lower, string_of, subvec, to_lower, trim, trimmed};
use crate::types::parser_types::{filter_view, Condition, ConditionView, Query, QueryView};
use vstd::prelude::*;

verus! {

/// What `DELETE FROM t` parses to, with the predicate that was cut off
/// before: the table is the trimmed text after the first FROM.
pub open spec fn spec_parse_delete(s: Seq<char>, filter: Option<ConditionView>) -> Result<
    QueryView,
    ParseError,
> {
    match find(lower(s), "from"@) {
        None => Err(ParseError::MissingFrom),
        Some(i) => Ok(
            QueryView::Delete {
                table_name: trim(s.subrange(i + "from"@.len(), s.len() as int)),
                filter,
            },
        ),
    }
}

/// Parses `DELETE FROM t`; `filter` is the predicate of its WHERE clause.
pub fn parse_delete(input: &str, filter: Option<Condition>) -> (r: Result<Query, ParseError>)
    ensures
        query_result_view(r) == spec_parse_delete(input@, filter_view(filter)),
{
    let v = chars_of(input);
    let low = to_lower(&v);
    let from = chars_of("from");
    match find_in(&low, &from) {
        None => Err(ParseError::MissingFrom),
        Some(i) => {
            let rest = subvec(&v, i + from.len(), v.len());
            let name = trimmed(&rest);
            let table_name = string_of(&name, 0, name.len());
            assert(name@.subrange(0, name.len() as int) =~= name@);
            Ok(Query::Delete { table_name, filter })
        },
    }
}

} // verus!
