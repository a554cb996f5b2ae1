use crate::errors::parse_error::ParseError;
use crate::parser::common::{
    all_literals, literal_values, parse_literals, query_result_view, trim_all, trimmed_names,
};
use crate::text::{
    chars_of, find, find_char, find_char_in, find_in, lower, split, split_on, string_of, subvec,
    to_lower, trim, trimmed,
};
use crate::types::parser_types::{Query, QueryView};
use crate::types::storage_types::{names_view, values_view, Value, ValueView};
use vstd::prelude::*;

verus! {

/// Table and optional column list of an INSERT, from the text between INTO
/// and VALUES: `t` or `t(c1, c2, ...)`.
pub open spec fn insert_target(before: Seq<char>) -> Result<
    (Seq<char>, Option<Seq<Seq<char>>>),
    ParseError,
> {
    match find_char(before, '(') {
        None => Ok((before, None)),
        Some(open) => match find_char(before, ')') {
            None => Err(ParseError::MissingParenthesis),
            Some(close) => if close <= open {
                Err(ParseError::MissingParenthesis)
            } else {
                Ok(
                    (
                        trim(before.subrange(0, open)),
                        Some(trim_all(split(before.subrange(open + 1, close), ','))),
                    ),
                )
            },
        },
    }
}

/// The values of an INSERT, from the text after VALUES: literals between the
/// first opening and the first closing parenthesis, separated by commas.
pub open spec fn insert_values(after: Seq<char>) -> Result<Seq<ValueView>, ParseError> {
    match (find_char(after, '('), find_char(after, ')')) {
        (Some(open), Some(close)) => {
            if close <= open {
                Err(ParseError::MissingParenthesis)
            } else {
                let pieces = split(after.subrange(open + 1, close), ',');
                if all_literals(pieces) {
                    Ok(literal_values(pieces))
                } else {
                    Err(ParseError::UnrecognizedValue)
                }
            }
        },
        _ => Err(ParseError::MissingParenthesis),
    }
}

/// What `INSERT INTO t [(c, ...)] VALUES (v, ...)` parses to.
pub open spec fn spec_parse_insert(s: Seq<char>) -> Result<QueryView, ParseError> {
    let n = "insert into "@.len() as int;
    match find(lower(s), "values"@) {
        None => Err(ParseError::MissingValues),
        Some(at) => {
            if at < n {
                Err(ParseError::InvalidSyntax)
            } else {
                match insert_target(trim(s.subrange(n, at))) {
                    Err(e) => Err(e),
                    Ok((table, columns)) => match insert_values(
                        trim(s.subrange(at + "values"@.len(), s.len() as int)),
                    ) {
                        Err(e) => Err(e),
                        Ok(values) => Ok(
                            QueryView::Insert { table_name: table, column_names: columns, values },
                        ),
                    },
                }
            }
        },
    }
}

fn target_of(before: &Vec<char>) -> (r: Result<(String, Option<Vec<String>>), ParseError>)
    ensures
        match r {
            Ok((t, c)) => insert_target(before@) == Ok::<_, ParseError>(
                (
                    t@,
                    match c {
                        Some(c) => Some(names_view(c@)),
                        None => None,
                    },
                ),
            ),
            Err(e) => insert_target(before@) == Err::<(Seq<char>, Option<Seq<Seq<char>>>), _>(
                e,
            ),
        },
{
    match find_char_in(before, '(') {
        None => {
            assert(before@.subrange(0, before.len() as int) =~= before@);
            Ok((string_of(before, 0, before.len()), None))
        },
        Some(open) => match find_char_in(before, ')') {
            None => Err(ParseError::MissingParenthesis),
            Some(close) => {
                if close <= open {
                    return Err(ParseError::MissingParenthesis);
                }
                let head = subvec(before, 0, open);
                let table = trimmed(&head);
                assert(table@.subrange(0, table.len() as int) =~= table@);
                let inside = subvec(before, open + 1, close);
                let pieces = split_on(&inside, ',');
                Ok((string_of(&table, 0, table.len()), Some(trimmed_names(&pieces))))
            },
        },
    }
}

fn values_of(after: &Vec<char>) -> (r: Result<Vec<Value>, ParseError>)
    ensures
        match r {
            Ok(vs) => insert_values(after@) == Ok::<_, ParseError>(values_view(vs@)),
            Err(e) => insert_values(after@) == Err::<Seq<ValueView>, _>(e),
        },
{
    let open = match find_char_in(after, '(') {
        Some(i) => i,
        None => {
            return Err(ParseError::MissingParenthesis);
        },
    };
    let close = match find_char_in(after, ')') {
        Some(i) => i,
        None => {
            return Err(ParseError::MissingParenthesis);
        },
    };
    if close <= open {
        return Err(ParseError::MissingParenthesis);
    }
    let inside = subvec(after, open + 1, close);
    let pieces = split_on(&inside, ',');
    match parse_literals(&pieces) {
        Some(vs) => Ok(vs),
        None => Err(ParseError::UnrecognizedValue),
    }
}

/// Parses `INSERT INTO t [(c, ...)] VALUES (v, ...)`.
pub fn parse_insert(input: &str) -> (r: Result<Query, ParseError>)
    ensures
        query_result_view(r) == spec_parse_insert(input@),
{
    let v = chars_of(input);
    let low = to_lower(&v);
    let prefix = chars_of("insert into ");
    let keyword = chars_of("values");
    let at = match find_in(&low, &keyword) {
        Some(i) => i,
        None => {
            return Err(ParseError::MissingValues);
        },
    };
    if at < prefix.len() {
        return Err(ParseError::InvalidSyntax);
    }
    let head = subvec(&v, prefix.len(), at);
    let before = trimmed(&head);
    let tail = subvec(&v, at + keyword.len(), v.len());
    let after = trimmed(&tail);
    let (table_name, column_names) = match target_of(&before) {
        Ok(t) => t,
        Err(e) => {
            return Err(e);
        },
    };
    let values = match values_of(&after) {
        Ok(vs) => vs,
        Err(e) => {
            return Err(e);
        },
    };
    Ok(Query::Insert { table_name, column_names, values })
}

} // verus!
