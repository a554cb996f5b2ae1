use crate::errors::parse_error::ParseError;
use crate::parser::common::{all_literals, literal_values, parse_literals, query_result_view};
use crate::text::{
    begins_with, chars_of, find, find_char, find_char_in, find_in, lower, pieces_view, split,
    split_on, starts_with, string_of, strip_end, stripped_end, subvec, to_lower, trim, trimmed,
};
use crate::types::parser_types::{filter_view, Condition, ConditionView, Query, QueryView};
use crate::types::storage_types::names_view;
use vstd::prelude::*;

verus! {

/// Whether every part holds an equals sign.
pub open spec fn all_assignments(parts: Seq<Seq<char>>) -> bool {
    forall|i: int| 0 <= i < parts.len() ==> (#[trigger] find_char(parts[i], '=')).is_some()
}

/// The column of each assignment: the trimmed text before its first equals sign.
pub open spec fn assignment_columns(parts: Seq<Seq<char>>) -> Seq<Seq<char>> {
    Seq::new(parts.len(), |i: int| trim(parts[i].subrange(0, find_char(parts[i], '=').unwrap())))
}

/// The right-hand side of each assignment: the text after its first equals sign.
pub open spec fn assignment_values(parts: Seq<Seq<char>>) -> Seq<Seq<char>> {
    Seq::new(
        parts.len(),
        |i: int| parts[i].subrange(find_char(parts[i], '=').unwrap() + 1, parts[i].len() as int),
    )
}

/// What `UPDATE t SET c = v, ...` parses to, with the predicate that was cut
/// off before.
pub open spec fn spec_parse_update(s: Seq<char>, filter: Option<ConditionView>) -> Result<
    QueryView,
    ParseError,
> {
    let t = strip_end(trim(s), ';');
    let low = lower(t);
    let n = "update "@.len() as int;
    if !starts_with(low, "update "@) {
        Err(ParseError::InvalidSyntax)
    } else {
        match find(low, "set"@) {
            None => Err(ParseError::MissingSet),
            Some(at) => {
                if at < n {
                    Err(ParseError::InvalidSyntax)
                } else {
                    let parts = split(trim(t.subrange(at + "set"@.len(), t.len() as int)), ',');
                    if !all_assignments(parts) {
                        Err(ParseError::InvalidAssignment)
                    } else if !all_literals(assignment_values(parts)) {
                        Err(ParseError::UnrecognizedValue)
                    } else {
                        Ok(
                            QueryView::Update {
                                table_name: trim(t.subrange(n, at)),
                                column_names: assignment_columns(parts),
                                values: literal_values(assignment_values(parts)),
                                filter,
                            },
                        )
                    }
                }
            },
        }
    }
}

fn split_assignments(parts: &Vec<Vec<char>>) -> (r: Option<(Vec<String>, Vec<Vec<char>>)>)
    ensures
        match r {
            Some((cols, raws)) => all_assignments(pieces_view(parts@)) && names_view(cols@)
                == assignment_columns(pieces_view(parts@)) && pieces_view(raws@)
                == assignment_values(pieces_view(parts@)),
            None => !all_assignments(pieces_view(parts@)),
        },
{
    let mut cols: Vec<String> = Vec::new();
    let mut raws: Vec<Vec<char>> = Vec::new();
    let mut i: usize = 0;
    while i < parts.len()
        invariant
            i <= parts.len(),
            cols.len() == i,
            raws.len() == i,
            forall|j: int| 0 <= j < i ==> (#[trigger] find_char(parts[j]@, '=')).is_some(),
            forall|j: int|
                0 <= j < i ==> cols[j]@ == trim(
                    parts[j]@.subrange(0, find_char(parts[j]@, '=').unwrap()),
                ),
            forall|j: int|
                0 <= j < i ==> raws[j]@ == parts[j]@.subrange(
                    find_char(parts[j]@, '=').unwrap() + 1,
                    parts[j]@.len() as int,
                ),
        decreases parts.len() - i,
    {
        let part = &parts[i];
        match find_char_in(part, '=') {
            None => {
                assert(find_char(pieces_view(parts@)[i as int], '=').is_none());
                return None;
            },
            Some(e) => {
                let head = subvec(part, 0, e);
                let col = trimmed(&head);
                assert(col@.subrange(0, col.len() as int) =~= col@);
                cols.push(string_of(&col, 0, col.len()));
                raws.push(subvec(part, e + 1, part.len()));
            },
        }
        i += 1;
    }
    assert(all_assignments(pieces_view(parts@))) by {
        assert forall|j: int| 0 <= j < parts.len() implies (#[trigger] find_char(
            pieces_view(parts@)[j],
            '=',
        )).is_some() by {
            assert(find_char(parts[j]@, '=').is_some());
        }
    }
    assert(names_view(cols@) =~= assignment_columns(pieces_view(parts@)));
    assert(pieces_view(raws@) =~= assignment_values(pieces_view(parts@)));
    Some((cols, raws))
}

/// Parses `UPDATE t SET c = v, ...`; `filter` is the predicate of its WHERE clause.
pub fn parse_update(input: &str, filter: Option<Condition>) -> (r: Result<Query, ParseError>)
    ensures
        query_result_view(r) == spec_parse_update(input@, filter_view(filter)),
{
    let v = chars_of(input);
    let trimmed_input = trimmed(&v);
    let t = stripped_end(&trimmed_input, ';');
    let low = to_lower(&t);
    let prefix = chars_of("update ");
    if !begins_with(&low, &prefix) {
        return Err(ParseError::InvalidSyntax);
    }
    let keyword = chars_of("set");
    let at = match find_in(&low, &keyword) {
        Some(i) => i,
        None => {
            return Err(ParseError::MissingSet);
        },
    };
    if at < prefix.len() {
        return Err(ParseError::InvalidSyntax);
    }
    let head = subvec(&t, prefix.len(), at);
    let table = trimmed(&head);
    assert(table@.subrange(0, table.len() as int) =~= table@);
    let tail = subvec(&t, at + keyword.len(), t.len());
    let after = trimmed(&tail);
    let parts = split_on(&after, ',');
    let (column_names, raws) = match split_assignments(&parts) {
        Some(x) => x,
        None => {
            return Err(ParseError::InvalidAssignment);
        },
    };
    let values = match parse_literals(&raws) {
        Some(vs) => vs,
        None => {
            return Err(ParseError::UnrecognizedValue);
        },
    };
    Ok(Query::Update { table_name: string_of(&table, 0, table.len()), column_names, values, filter })
}

} // verus!
