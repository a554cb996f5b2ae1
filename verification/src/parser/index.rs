use crate::errors::parse_error::ParseError;
use crate::parser::common::{
    join, join_names, nonempty, query_result_view, trim_all, trimmed_nonempty_names,
};
use crate::text::{
    begins_with, chars_of, find, find_char, find_char_in, find_in, lower, rfind_char,
    rfind_char_in, split, split_on, starts_with, string_of, subvec, to_lower, trim, trim_start,
    trimmed, trimmed_start,
};
use crate::types::parser_types::{Query, QueryView};
use vstd::prelude::*;
use vstd::string::StringExecFns;

verus! {

/// The name of an index that was created without one: the table, the columns
/// and the word `idx`, joined by underscores.
pub open spec fn auto_index_name(table: Seq<char>, columns: Seq<Seq<char>>) -> Seq<char> {
    table + "_"@ + join(columns, "_"@) + "_idx"@
}

/// The index's name, if one is written, and the text after ON, of the text
/// that follows `CREATE INDEX`.
pub open spec fn index_name_and_target(after: Seq<char>) -> Result<
    (Option<Seq<char>>, Seq<char>),
    ParseError,
> {
    let low = lower(after);
    if starts_with(low, "on "@) {
        Ok((None, trim_start(after.subrange(2, after.len() as int))))
    } else {
        match find(low, " on "@) {
            Some(pos) => Ok(
                (
                    Some(trim(after.subrange(0, pos))),
                    trim_start(after.subrange(pos + " on "@.len(), after.len() as int)),
                ),
            ),
            None => Err(ParseError::MissingOn),
        }
    }
}

/// The query for an index on `target`, which reads `table(c1, c2, ...)`.
pub open spec fn index_on_target(name: Option<Seq<char>>, target: Seq<char>) -> Result<
    QueryView,
    ParseError,
> {
    match (find_char(target, '('), rfind_char(target, ')')) {
        (Some(open), Some(close)) => {
            if close <= open {
                Err(ParseError::MissingParenthesis)
            } else {
                let table = trim(target.subrange(0, open));
                let columns = nonempty(trim_all(split(target.subrange(open + 1, close), ',')));
                if columns.len() == 0 {
                    Err(ParseError::NoIndexColumns)
                } else {
                    Ok(
                        QueryView::CreateIndex {
                            index_name: match name {
                                Some(n) => if n.len() > 0 {
                                    n
                                } else {
                                    auto_index_name(table, columns)
                                },
                                None => auto_index_name(table, columns),
                            },
                            table_name: table,
                            column_names: columns,
                        },
                    )
                }
            }
        },
        _ => Err(ParseError::MissingParenthesis),
    }
}

/// What `CREATE INDEX [name] ON table(c1, c2, ...)` parses to.
pub open spec fn spec_parse_create_index(s: Seq<char>) -> Result<QueryView, ParseError> {
    let t = trim(s);
    if !starts_with(lower(t), "create index"@) {
        Err(ParseError::InvalidSyntax)
    } else {
        let after = trim(t.subrange("create index"@.len() as int, t.len() as int));
        match index_name_and_target(after) {
            Err(e) => Err(e),
            Ok((name, target)) => index_on_target(name, target),
        }
    }
}

fn name_and_target(after: &Vec<char>) -> (r: Result<(Option<Vec<char>>, Vec<char>), ParseError>)
    ensures
        match r {
            Ok((n, t)) => index_name_and_target(after@) == Ok::<_, ParseError>(
                (
                    match n {
                        Some(n) => Some(n@),
                        None => None,
                    },
                    t@,
                ),
            ),
            Err(e) => index_name_and_target(after@) == Err::<(Option<Seq<char>>, Seq<char>), _>(
                e,
            ),
        },
{
    let low = to_lower(after);
    let on_first = chars_of("on ");
    if begins_with(&low, &on_first) {
        proof {
            reveal_strlit("on ");
        }
        let rest = subvec(after, 2, after.len());
        return Ok((None, trimmed_start(&rest)));
    }
    let on_inside = chars_of(" on ");
    match find_in(&low, &on_inside) {
        Some(pos) => {
            let head = subvec(after, 0, pos);
            let rest = subvec(after, pos + on_inside.len(), after.len());
            Ok((Some(trimmed(&head)), trimmed_start(&rest)))
        },
        None => Err(ParseError::MissingOn),
    }
}

fn on_target(name: Option<Vec<char>>, target: &Vec<char>) -> (r: Result<Query, ParseError>)
    ensures
        query_result_view(r) == index_on_target(
            match name {
                Some(n) => Some(n@),
                None => None,
            },
            target@,
        ),
{
    let open = match find_char_in(target, '(') {
        Some(i) => i,
        None => {
            return Err(ParseError::MissingParenthesis);
        },
    };
    let close = match rfind_char_in(target, ')') {
        Some(i) => i,
        None => {
            return Err(ParseError::MissingParenthesis);
        },
    };
    if close <= open {
        return Err(ParseError::MissingParenthesis);
    }
    let head = subvec(target, 0, open);
    let table = trimmed(&head);
    let table_name = string_of(&table, 0, table.len());
    assert(table@.subrange(0, table.len() as int) =~= table@);
    let inside = subvec(target, open + 1, close);
    let pieces = split_on(&inside, ',');
    let column_names = trimmed_nonempty_names(&pieces);
    if column_names.len() == 0 {
        return Err(ParseError::NoIndexColumns);
    }
    let explicit = match &name {
        Some(n) => n.len() > 0,
        None => false,
    };
    let index_name = if explicit {
        let n = name.unwrap();
        assert(n@.subrange(0, n.len() as int) =~= n@);
        string_of(&n, 0, n.len())
    } else {
        let mut auto = table_name.clone();
        auto.append("_");
        let joined = join_names(&column_names, "_");
        auto.append(joined.as_str());
        auto.append("_idx");
        auto
    };
    Ok(Query::CreateIndex { index_name, table_name, column_names })
}

/// Parses `CREATE INDEX [name] ON table(c1, c2, ...)`.
pub fn parse_create_index(input: &str) -> (r: Result<Query, ParseError>)
    ensures
        query_result_view(r) == spec_parse_create_index(input@),
{
    let v = chars_of(input);
    let t = trimmed(&v);
    let low = to_lower(&t);
    let prefix = chars_of("create index");
    if !begins_with(&low, &prefix) {
        return Err(ParseError::InvalidSyntax);
    }
    let tail = subvec(&t, prefix.len(), t.len());
    let after = trimmed(&tail);
    match name_and_target(&after) {
        Err(e) => Err(e),
        Ok((name, target)) => on_target(name, &target),
    }
}

} // verus!
