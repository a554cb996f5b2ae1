use crate::text::{
    eq_ignore_case, is_word_ignore_case, parse_i64, parse_int, pieces_view, string_of, trim,
    trimmed,
};
use crate::errors::parse_error::ParseError;
use crate::text::{chars_of, lower, to_lower};
use crate::types::parser_types::{Query, QueryView};
use crate::types::storage_types::{names_view, values_view, Value, ValueView};
use crate::types::transaction_types::IsolationLevel;
use vstd::prelude::*;

verus! {

/// The value that a literal writes: a text in double quotes, TRUE, FALSE, NULL
/// or a decimal integer; `None` for anything else.
pub open spec fn literal_value(raw: Seq<char>) -> Option<ValueView> {
    if raw.len() >= 2 && raw[0] == '"' && raw.last() == '"' {
        Some(ValueView::Text(raw.subrange(1, raw.len() - 1)))
    } else if eq_ignore_case(raw, "true"@) {
        Some(ValueView::Bool(true))
    } else if eq_ignore_case(raw, "false"@) {
        Some(ValueView::Bool(false))
    } else if eq_ignore_case(raw, "null"@) {
        Some(ValueView::Null)
    } else {
        match parse_int(raw) {
            Some(n) => Some(ValueView::Int(n)),
            None => None,
        }
    }
}

/// Executable form of [`literal_value`].
pub fn parse_literal(raw: &Vec<char>) -> (r: Option<Value>)
    ensures
        match r {
            Some(v) => literal_value(raw@) == Some(v@),
            None => literal_value(raw@).is_none(),
        },
{
    if raw.len() >= 2 && raw[0] == '"' && raw[raw.len() - 1] == '"' {
        Some(Value::Text(string_of(raw, 1, raw.len() - 1)))
    } else if is_word_ignore_case(raw, "true") {
        Some(Value::Bool(true))
    } else if is_word_ignore_case(raw, "false") {
        Some(Value::Bool(false))
    } else if is_word_ignore_case(raw, "null") {
        Some(Value::Null)
    } else {
        match parse_i64(raw) {
            Some(n) => Some(Value::Int(n)),
            None => None,
        }
    }
}

/// Each piece without its leading and trailing white space.
pub open spec fn trim_all(ps: Seq<Seq<char>>) -> Seq<Seq<char>> {
    Seq::new(ps.len(), |i: int| trim(ps[i]))
}

/// Executable form of [`trim_all`], as strings.
pub fn trimmed_names(ps: &Vec<Vec<char>>) -> (r: Vec<String>)
    ensures
        names_view(r@) == trim_all(pieces_view(ps@)),
{
    let mut r: Vec<String> = Vec::new();
    let mut i: usize = 0;
    while i < ps.len()
        invariant
            i <= ps.len(),
            r.len() == i,
            forall|j: int| 0 <= j < i ==> r[j]@ == trim(ps[j]@),
        decreases ps.len() - i,
    {
        let t = trimmed(&ps[i]);
        r.push(string_of(&t, 0, t.len()));
        assert(t@.subrange(0, t.len() as int) =~= t@);
        i += 1;
    }
    assert(names_view(r@) =~= trim_all(pieces_view(ps@)));
    r
}

/// Whether every piece, trimmed, is a literal.
pub open spec fn all_literals(ps: Seq<Seq<char>>) -> bool {
    forall|i: int| 0 <= i < ps.len() ==> (#[trigger] literal_value(trim(ps[i]))).is_some()
}

/// The values that the pieces write, each trimmed.
pub open spec fn literal_values(ps: Seq<Seq<char>>) -> Seq<ValueView> {
    Seq::new(ps.len(), |i: int| literal_value(trim(ps[i])).unwrap())
}

/// Parses every piece as a literal; `None` as soon as one is none.
pub fn parse_literals(ps: &Vec<Vec<char>>) -> (r: Option<Vec<Value>>)
    ensures
        match r {
            Some(vs) => all_literals(pieces_view(ps@)) && values_view(vs@) == literal_values(
                pieces_view(ps@),
            ),
            None => !all_literals(pieces_view(ps@)),
        },
{
    let mut r: Vec<Value> = Vec::new();
    let mut i: usize = 0;
    while i < ps.len()
        invariant
            i <= ps.len(),
            r.len() == i,
            forall|j: int|
                0 <= j < i ==> (#[trigger] literal_value(trim(ps[j]@))) == Some(r[j]@),
        decreases ps.len() - i,
    {
        let t = trimmed(&ps[i]);
        match parse_literal(&t) {
            Some(v) => {
                r.push(v);
            },
            None => {
                assert(literal_value(trim(pieces_view(ps@)[i as int])).is_none());
                return None;
            },
        }
        i += 1;
    }
    assert(all_literals(pieces_view(ps@))) by {
        assert forall|j: int| 0 <= j < ps.len() implies (#[trigger] literal_value(
            trim(pieces_view(ps@)[j]),
        )).is_some() by {
            assert(literal_value(trim(ps[j]@)) == Some(r[j]@));
        }
    }
    assert(values_view(r@) =~= literal_values(pieces_view(ps@))) by {
        assert forall|j: int| 0 <= j < ps.len() implies values_view(r@)[j] == literal_values(
            pieces_view(ps@),
        )[j] by {
            assert(literal_value(trim(ps[j]@)) == Some(r[j]@));
        }
    }
    Some(r)
}

/// View of the result of parsing a statement.
pub open spec fn query_result_view(r: Result<Query, ParseError>) -> Result<QueryView, ParseError> {
    match r {
        Ok(q) => Ok(q@),
        Err(e) => Err(e),
    }
}

/// The isolation level that a text names, in any case of letters.
/// SERIALIZABLE is known and refused.
pub open spec fn isolation_of(s: Seq<char>) -> Result<IsolationLevel, ParseError> {
    let l = lower(s);
    if l == "read committed"@ {
        Ok(IsolationLevel::ReadCommitted)
    } else if l == "repeatable read"@ {
        Ok(IsolationLevel::RepeatableRead)
    } else if l == "serializable"@ {
        Err(ParseError::SerializableNotSupported)
    } else {
        Err(ParseError::UnknownIsolationLevel)
    }
}

/// Executable form of [`isolation_of`].
pub fn parse_isolation(s: &Vec<char>) -> (r: Result<IsolationLevel, ParseError>)
    ensures
        r == isolation_of(s@),
{
    let l = to_lower(s);
    if crate::text::is_word(&l, "read committed") {
        Ok(IsolationLevel::ReadCommitted)
    } else if crate::text::is_word(&l, "repeatable read") {
        Ok(IsolationLevel::RepeatableRead)
    } else if crate::text::is_word(&l, "serializable") {
        Err(ParseError::SerializableNotSupported)
    } else {
        Err(ParseError::UnknownIsolationLevel)
    }
}

/// The pieces among the first `n` that are not empty, in order.
pub open spec fn nonempty_upto(ps: Seq<Seq<char>>, n: int) -> Seq<Seq<char>>
    decreases n,
{
    if n <= 0 {
        Seq::empty()
    } else {
        let prev = nonempty_upto(ps, n - 1);
        if ps[n - 1].len() > 0 {
            prev.push(ps[n - 1])
        } else {
            prev
        }
    }
}

/// The pieces that are not empty, in order.
pub open spec fn nonempty(ps: Seq<Seq<char>>) -> Seq<Seq<char>> {
    nonempty_upto(ps, ps.len() as int)
}

/// The pieces, each trimmed, that are then not empty, as strings.
pub fn trimmed_nonempty_names(ps: &Vec<Vec<char>>) -> (r: Vec<String>)
    ensures
        names_view(r@) == nonempty(trim_all(pieces_view(ps@))),
{
    let ghost all = trim_all(pieces_view(ps@));
    let mut r: Vec<String> = Vec::new();
    let mut i: usize = 0;
    assert(names_view(r@) =~= nonempty_upto(all, 0));
    while i < ps.len()
        invariant
            i <= ps.len(),
            all == trim_all(pieces_view(ps@)),
            names_view(r@) == nonempty_upto(all, i as int),
        decreases ps.len() - i,
    {
        let t = trimmed(&ps[i]);
        assert(all[i as int] == t@);
        if t.len() > 0 {
            let ghost before = names_view(r@);
            let name = string_of(&t, 0, t.len());
            assert(t@.subrange(0, t.len() as int) =~= t@);
            r.push(name);
            assert(names_view(r@) =~= before.push(t@));
        }
        i += 1;
    }
    r
}

/// The first `n` parts, with `sep` between each two.
pub open spec fn join_upto(parts: Seq<Seq<char>>, sep: Seq<char>, n: int) -> Seq<char>
    decreases n,
{
    if n <= 0 {
        Seq::empty()
    } else if n == 1 {
        parts[0]
    } else {
        join_upto(parts, sep, n - 1) + sep + parts[n - 1]
    }
}

/// The parts, with `sep` between each two.
pub open spec fn join(parts: Seq<Seq<char>>, sep: Seq<char>) -> Seq<char> {
    join_upto(parts, sep, parts.len() as int)
}

/// Executable form of [`join`].
pub fn join_names(parts: &Vec<String>, sep: &str) -> (r: String)
    ensures
        r@ == join(names_view(parts@), sep@),
{
    let mut r = String::new();
    let mut i: usize = 0;
    while i < parts.len()
        invariant
            i <= parts.len(),
            r@ == join_upto(names_view(parts@), sep@, i as int),
        decreases parts.len() - i,
    {
        if i > 0 {
            vstd::string::StringExecFns::append(&mut r, sep);
        }
        vstd::string::StringExecFns::append(&mut r, parts[i].as_str());
        assert(names_view(parts@)[i as int] == parts[i as int]@);
        assert(i == 0 ==> r@ =~= parts[i as int]@);
        i += 1;
    }
    r
}

} // verus!
