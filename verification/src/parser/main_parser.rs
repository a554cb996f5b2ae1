use crate::errors::parse_error::ParseError;
use crate::parser::begin::{parse_begin, spec_parse_begin};
use crate::parser::common::query_result_view;
use crate::parser::create_parser::{parse_create_table, spec_parse_create_table};
use crate::parser::delete_parser::{parse_delete, spec_parse_delete};
use crate::parser::index::{parse_create_index, spec_parse_create_index};
use crate::parser::insert_parser::{parse_insert, spec_parse_insert};
use crate::parser::select_parser::{parse_select, spec_parse_select};
use crate::parser::set_isolation::{parse_set_session, spec_parse_set_session};
use crate::parser::update::{parse_update, spec_parse_update};
use crate::parser::vacuum::{parse_vacuum, spec_parse_vacuum};
use crate::parser::where_parser::{parse_where_chars, spec_parse_where};
use crate::text::{
    begins_with, chars_of, find, find_in, is_word, lower, starts_with, string_of, subvec,
    to_lower, trim, trimmed,
};
use crate::types::parser_types::{filter_view, Condition, ConditionView, Query, QueryView};
use vstd::prelude::*;

verus! {

/// What a statement without its WHERE clause parses to, by the command that
/// it begins with; `filter` is the predicate of the WHERE clause.
pub open spec fn spec_parse_command(t: Seq<char>, filter: Option<ConditionView>) -> Result<
    QueryView,
    ParseError,
> {
    let low = lower(t);
    if starts_with(low, "create table "@) {
        spec_parse_create_table(t)
    } else if starts_with(low, "create index"@) {
        spec_parse_create_index(t)
    } else if starts_with(low, "insert into"@) {
        spec_parse_insert(t)
    } else if starts_with(low, "select "@) {
        spec_parse_select(t, filter)
    } else if starts_with(low, "delete "@) {
        spec_parse_delete(t, filter)
    } else if starts_with(low, "update "@) {
        spec_parse_update(t, filter)
    } else if starts_with(low, "begin"@) {
        spec_parse_begin(t)
    } else if low == "commit"@ {
        Ok(QueryView::Commit)
    } else if low == "rollback"@ {
        Ok(QueryView::Rollback)
    } else if starts_with(low, "vacuum "@) {
        spec_parse_vacuum(t)
    } else if starts_with(low, "set session characteristics"@) {
        spec_parse_set_session(t)
    } else {
        Err(ParseError::UnrecognizedCommand)
    }
}

/// What a statement parses to. The text after the first WHERE, in any case of
/// letters, is the predicate; the trimmed text before it is the command.
pub open spec fn spec_parse_query(s: Seq<char>) -> Result<QueryView, ParseError> {
    let t = trim(s);
    match find(lower(t), "where"@) {
        Some(at) => match spec_parse_where(trim(t.subrange(at + "where"@.len(), t.len() as int))) {
            Err(e) => Err(e),
            Ok(c) => spec_parse_command(trim(t.subrange(0, at)), Some(c)),
        },
        None => spec_parse_command(t, None),
    }
}

fn starts(low: &Vec<char>, lit: &str) -> (b: bool)
    ensures
        b == starts_with(low@, lit@),
{
    let p = chars_of(lit);
    begins_with(low, &p)
}

fn parse_command(t: &Vec<char>, filter: Option<Condition>) -> (r: Result<Query, ParseError>)
    ensures
        query_result_view(r) == spec_parse_command(t@, filter_view(filter)),
{
    let low = to_lower(t);
    assert(t@.subrange(0, t.len() as int) =~= t@);
    let text = string_of(t, 0, t.len());
    if starts(&low, "create table ") {
        parse_create_table(text.as_str())
    } else if starts(&low, "create index") {
        parse_create_index(text.as_str())
    } else if starts(&low, "insert into") {
        parse_insert(text.as_str())
    } else if starts(&low, "select ") {
        parse_select(text.as_str(), filter)
    } else if starts(&low, "delete ") {
        parse_delete(text.as_str(), filter)
    } else if starts(&low, "update ") {
        parse_update(text.as_str(), filter)
    } else if starts(&low, "begin") {
        parse_begin(text.as_str())
    } else if is_word(&low, "commit") {
        Ok(Query::Commit)
    } else if is_word(&low, "rollback") {
        Ok(Query::Rollback)
    } else if starts(&low, "vacuum ") {
        parse_vacuum(text.as_str())
    } else if starts(&low, "set session characteristics") {
        parse_set_session(text.as_str())
    } else {
        Err(ParseError::UnrecognizedCommand)
    }
}

/// Parses one statement of the surface language.
pub fn parse_query(input: &str) -> (r: Result<Query, ParseError>)
    ensures
        query_result_view(r) == spec_parse_query(input@),
{
    let v = chars_of(input);
    let t = trimmed(&v);
    let low = to_lower(&t);
    let keyword = chars_of("where");
    match find_in(&low, &keyword) {
        Some(at) => {
            let tail = subvec(&t, at + keyword.len(), t.len());
            let predicate = trimmed(&tail);
            let condition = match parse_where_chars(&predicate) {
                Ok(c) => c,
                Err(e) => {
                    return Err(e);
                },
            };
            let head = subvec(&t, 0, at);
            let command = trimmed(&head);
            parse_command(&command, Some(condition))
        },
        None => parse_command(&t, None),
    }
}

} // verus!
