use crate::errors::parse_error::ParseError;
use crate::parser::common::{query_result_view, trim_all, trimmed_names};
use crate::parser::where_parser::{condition_result_view, parse_where_chars, spec_parse_where};
use crate::text::{
    append_chars, chars_of, eq_ignore_case, find, find_in, is_word_ignore_case,
    lemma_scan_while_bounds, lower, pieces_view, scan_while, split, split_on, string_of, subvec,
    to_lower, trim, trimmed,
};
use crate::types::parser_types::{
    bind_alias, filter_view, Aliases, Condition, ConditionView, FromItem, FromItemView, JoinKind,
    Query, QueryView,
};
use vstd::prelude::*;

verus! {

/// The tokens so far, with the word that began at `start`, if one is open.
pub open spec fn with_word(acc: Seq<Seq<char>>, s: Seq<char>, start: int, i: int) -> Seq<
    Seq<char>,
> {
    if start >= 0 {
        acc.push(s.subrange(start, i))
    } else {
        acc
    }
}

/// The test for a character other than `q`.
pub open spec fn other_than(q: char) -> spec_fn(char) -> bool {
    |c: char| c != q
}

/// Where a quoted literal that opens at `i` with the quote `q` ends: after
/// the next `q`, or at the end of the text.
pub open spec fn quote_end(s: Seq<char>, q: char, i: int) -> int {
    let close = scan_while(s, other_than(q), i + 1);
    if close < s.len() {
        close + 1
    } else {
        s.len() as int
    }
}

/// The tokens of the text from position `i` on, appended to `acc`. White
/// space separates tokens; a comma and a parenthesis are tokens of their own;
/// a quote opens a literal that runs to the next such quote; `=`, `!`, `<`
/// and `>` are operators, alone or with a `=` behind them; every other run of
/// characters is a word, which began at `start` where that is not negative.
pub open spec fn select_tokens_from(s: Seq<char>, i: int, start: int, acc: Seq<Seq<char>>) -> Seq<
    Seq<char>,
>
    decreases s.len() - i,
{
    if i < 0 || i >= s.len() {
        with_word(acc, s, start, s.len() as int)
    } else {
        let c = s[i];
        if c == ' ' || c == '\t' || c == '\n' || c == '\r' {
            select_tokens_from(s, i + 1, -1, with_word(acc, s, start, i))
        } else if c == ',' || c == '(' || c == ')' {
            select_tokens_from(s, i + 1, -1, with_word(acc, s, start, i).push(seq![c]))
        } else if c == '\'' || c == '"' {
            proof {
                lemma_scan_while_bounds(s, other_than(c), i + 1);
            }
            select_tokens_from(
                s,
                quote_end(s, c, i),
                -1,
                with_word(acc, s, start, i).push(s.subrange(i, quote_end(s, c, i))),
            )
        } else if c == '=' || c == '!' || c == '<' || c == '>' {
            if i + 1 < s.len() && s[i + 1] == '=' {
                select_tokens_from(
                    s,
                    i + 2,
                    -1,
                    with_word(acc, s, start, i).push(s.subrange(i, i + 2)),
                )
            } else {
                select_tokens_from(s, i + 1, -1, with_word(acc, s, start, i).push(seq![c]))
            }
        } else {
            select_tokens_from(
                s,
                i + 1,
                if start >= 0 {
                    start
                } else {
                    i
                },
                acc,
            )
        }
    }
}

/// The tokens of a FROM clause.
pub open spec fn spec_select_tokens(s: Seq<char>) -> Seq<Seq<char>> {
    select_tokens_from(s, 0, -1, Seq::empty())
}

proof fn lemma_pieces_push(ps: Seq<Vec<char>>, p: Vec<char>)
    ensures
        pieces_view(ps.push(p)) == pieces_view(ps).push(p@),
{
    assert(pieces_view(ps.push(p)) =~= pieces_view(ps).push(p@));
}

fn flush_word(tokens: &mut Vec<Vec<char>>, v: &Vec<char>, inside: bool, start: usize, i: usize)
    requires
        inside ==> start <= i <= v.len(),
    ensures
        pieces_view(final(tokens)@) == with_word(
            pieces_view(old(tokens)@),
            v@,
            if inside {
                start as int
            } else {
                -1
            },
            i as int,
        ),
{
    if inside {
        let w = subvec(v, start, i);
        proof {
            lemma_pieces_push(tokens@, w);
        }
        tokens.push(w);
    }
}

/// Splits a FROM clause into keywords, names, operators and literals.
pub fn tokenize(input: &Vec<char>) -> (r: Vec<Vec<char>>)
    ensures
        pieces_view(r@) == spec_select_tokens(input@),
{
    let mut tokens: Vec<Vec<char>> = Vec::new();
    let mut inside = false;
    let mut start: usize = 0;
    let mut i: usize = 0;
    assert(pieces_view(tokens@) =~= Seq::empty());
    while i < input.len()
        invariant
            i <= input.len(),
            inside ==> start <= i,
            spec_select_tokens(input@) == select_tokens_from(
                input@,
                i as int,
                if inside {
                    start as int
                } else {
                    -1
                },
                pieces_view(tokens@),
            ),
        decreases input.len() - i,
    {
        let c = input[i];
        if c == ' ' || c == '\t' || c == '\n' || c == '\r' {
            flush_word(&mut tokens, input, inside, start, i);
            inside = false;
            i += 1;
        } else if c == ',' || c == '(' || c == ')' {
            flush_word(&mut tokens, input, inside, start, i);
            inside = false;
            let one = subvec(input, i, i + 1);
            assert(one@ =~= seq![c]);
            proof {
                lemma_pieces_push(tokens@, one);
            }
            tokens.push(one);
            i += 1;
        } else if c == '\'' || c == '"' {
            flush_word(&mut tokens, input, inside, start, i);
            inside = false;
            let mut j: usize = i + 1;
            while j < input.len() && input[j] != c
                invariant
                    i < j <= input.len(),
                    scan_while(input@, other_than(c), j as int) == scan_while(
                        input@,
                        other_than(c),
                        i + 1,
                    ),
                decreases input.len() - j,
            {
                j += 1;
            }
            let end: usize = if j < input.len() {
                j + 1
            } else {
                input.len()
            };
            let literal = subvec(input, i, end);
            proof {
                lemma_pieces_push(tokens@, literal);
            }
            tokens.push(literal);
            i = end;
        } else if c == '=' || c == '!' || c == '<' || c == '>' {
            flush_word(&mut tokens, input, inside, start, i);
            inside = false;
            let end: usize = if i + 1 < input.len() && input[i + 1] == '=' {
                i + 2
            } else {
                i + 1
            };
            let op = subvec(input, i, end);
            assert(end == i + 1 ==> op@ =~= seq![c]);
            proof {
                lemma_pieces_push(tokens@, op);
            }
            tokens.push(op);
            i = end;
        } else {
            if !inside {
                inside = true;
                start = i;
            }
            i += 1;
        }
    }
    flush_word(&mut tokens, input, inside, start, input.len());
    tokens
}

/// Whether a token is one of the words that continue a FROM clause after a
/// table: LEFT, INNER, JOIN or ON.
pub open spec fn is_clause_word(w: Seq<char>) -> bool {
    eq_ignore_case(w, "left"@) || eq_ignore_case(w, "inner"@) || eq_ignore_case(w, "join"@)
        || eq_ignore_case(w, "on"@)
}

/// Whether a token ends the condition of a join: LEFT, INNER or JOIN.
pub open spec fn is_join_word(w: Seq<char>) -> bool {
    eq_ignore_case(w, "left"@) || eq_ignore_case(w, "inner"@) || eq_ignore_case(w, "join"@)
}

/// The table that follows the keyword at token `i`, the position after the
/// table and its alias, and the aliases then known. `AS a` binds the alias
/// `a`; a lone word behind the table that continues no clause is passed over.
pub open spec fn from_item_at(
    tokens: Seq<Seq<char>>,
    i: int,
    aliases: Seq<(Seq<char>, Seq<char>)>,
) -> Result<(Seq<char>, int, Seq<(Seq<char>, Seq<char>)>), ParseError> {
    if i + 1 >= tokens.len() {
        Err(ParseError::MissingTableName)
    } else {
        let name = tokens[i + 1];
        let k = i + 2;
        if k < tokens.len() && eq_ignore_case(tokens[k], "as"@) {
            if k + 1 >= tokens.len() {
                Err(ParseError::MissingTableName)
            } else {
                Ok((name, k + 2, bind_alias(aliases, tokens[k + 1], name, 0)))
            }
        } else if k < tokens.len() && !is_clause_word(tokens[k]) {
            Ok((name, k + 1, aliases))
        } else {
            Ok((name, k, aliases))
        }
    }
}

fn to_string(v: &Vec<char>) -> (s: String)
    ensures
        s@ == v@,
{
    assert(v@.subrange(0, v.len() as int) =~= v@);
    string_of(v, 0, v.len())
}

fn clause_word(w: &Vec<char>) -> (b: bool)
    ensures
        b == is_clause_word(w@),
{
    is_word_ignore_case(w, "left") || is_word_ignore_case(w, "inner") || is_word_ignore_case(
        w,
        "join",
    ) || is_word_ignore_case(w, "on")
}

fn join_word(w: &Vec<char>) -> (b: bool)
    ensures
        b == is_join_word(w@),
{
    is_word_ignore_case(w, "left") || is_word_ignore_case(w, "inner") || is_word_ignore_case(
        w,
        "join",
    )
}

/// Reads the table behind the keyword at `*i`, with its alias, and moves
/// `*i` behind them.
pub fn parse_from_item(tokens: &Vec<Vec<char>>, i: &mut usize, aliases: &mut Aliases) -> (r:
    Result<FromItem, ParseError>)
    requires
        *old(i) < tokens.len(),
    ensures
        match r {
            Ok(item) => from_item_at(pieces_view(tokens@), *old(i) as int, old(aliases)@)
                == Ok::<_, ParseError>((item@->Table_0, *final(i) as int, final(aliases)@))
                && item is Table && *old(i) < *final(i) <= tokens.len(),
            Err(e) => from_item_at(pieces_view(tokens@), *old(i) as int, old(aliases)@) == Err::<
                (Seq<char>, int, Seq<(Seq<char>, Seq<char>)>),
                _,
            >(e),
        },
{
    let ghost words = pieces_view(tokens@);
    let at: usize = *i;
    if at + 1 >= tokens.len() {
        return Err(ParseError::MissingTableName);
    }
    assert(words[at + 1] == tokens[at + 1]@);
    let name = to_string(&tokens[at + 1]);
    let k: usize = at + 2;
    if k < tokens.len() {
        assert(words[k as int] == tokens[k as int]@);
    }
    if k < tokens.len() && is_word_ignore_case(&tokens[k], "as") {
        if k + 1 >= tokens.len() {
            return Err(ParseError::MissingTableName);
        }
        assert(words[k + 1] == tokens[k + 1]@);
        aliases.insert(to_string(&tokens[k + 1]), name.clone());
        *i = k + 2;
    } else if k < tokens.len() && !clause_word(&tokens[k]) {
        *i = k + 1;
    } else {
        *i = k;
    }
    Ok(FromItem::Table(name))
}

/// Whether token `i` is the keyword `exp`, in any case of letters.
pub open spec fn token_is(tokens: Seq<Seq<char>>, i: int, exp: Seq<char>) -> bool {
    0 <= i < tokens.len() && eq_ignore_case(tokens[i], exp)
}

/// Checks that the token at `*i` is the keyword `exp` and moves `*i` behind it.
pub fn expect_token(exp: &str, tokens: &Vec<Vec<char>>, i: &mut usize) -> (r: Result<
    (),
    ParseError,
>)
    ensures
        r.is_ok() == token_is(pieces_view(tokens@), *old(i) as int, exp@),
        r.is_ok() ==> *final(i) == *old(i) + 1,
        r.is_err() ==> *final(i) == *old(i) && r == Err::<(), _>(ParseError::InvalidJoin),
{
    if *i < tokens.len() && is_word_ignore_case(&tokens[*i], exp) {
        *i = *i + 1;
        Ok(())
    } else {
        Err(ParseError::InvalidJoin)
    }
}

/// Where the condition that begins at token `i` ends: at the next LEFT,
/// INNER or JOIN, or at the end.
pub open spec fn condition_end(tokens: Seq<Seq<char>>, i: int) -> int
    decreases tokens.len() - i,
{
    if i < 0 || i >= tokens.len() || is_join_word(tokens[i]) {
        i
    } else {
        condition_end(tokens, i + 1)
    }
}

/// The tokens from `i` to `n`, each followed by one blank.
pub open spec fn spaced(tokens: Seq<Seq<char>>, i: int, n: int) -> Seq<char>
    decreases n - i,
{
    if n <= i {
        Seq::empty()
    } else {
        spaced(tokens, i, n - 1) + tokens[n - 1] + seq![' ']
    }
}

/// A condition ends at or after its start, and inside the token list.
pub proof fn lemma_condition_end_bounds(tokens: Seq<Seq<char>>, i: int)
    requires
        0 <= i <= tokens.len(),
    ensures
        i <= condition_end(tokens, i) <= tokens.len(),
    decreases tokens.len() - i,
{
    if i < tokens.len() && !is_join_word(tokens[i]) {
        lemma_condition_end_bounds(tokens, i + 1);
    }
}

/// Parses the condition of a join, which runs from token `*i` to the next
/// LEFT, INNER or JOIN, and moves `*i` behind it.
pub fn parse_condition(tokens: &Vec<Vec<char>>, i: &mut usize) -> (r: Result<
    Condition,
    ParseError,
>)
    requires
        *old(i) <= tokens.len(),
    ensures
        *final(i) == condition_end(pieces_view(tokens@), *old(i) as int),
        *old(i) <= *final(i) <= tokens.len(),
        condition_result_view(r) == spec_parse_where(
            spaced(pieces_view(tokens@), *old(i) as int, *final(i) as int),
        ),
{
    let ghost words = pieces_view(tokens@);
    let mut text: Vec<char> = Vec::new();
    let mut j: usize = *i;
    while j < tokens.len() && !join_word(&tokens[j])
        invariant
            *old(i) <= j <= tokens.len(),
            words == pieces_view(tokens@),
            condition_end(words, j as int) == condition_end(words, *old(i) as int),
            text@ == spaced(words, *old(i) as int, j as int),
        decreases tokens.len() - j,
    {
        assert(words[j as int] == tokens[j as int]@);
        append_chars(&mut text, &tokens[j]);
        text.push(' ');
        j += 1;
    }
    assert(j < tokens.len() ==> words[j as int] == tokens[j as int]@);
    *i = j;
    parse_where_chars(&text)
}

/// View of an optional FROM item.
pub open spec fn from_opt_view(f: Option<FromItem>) -> Option<FromItemView> {
    match f {
        Some(f) => Some(f@),
        None => None,
    }
}

/// The source of a SELECT and its aliases, read from token `i` on: `cur` is
/// what has been read so far and `kind` the kind that the next JOIN will
/// have. FROM reads a table; LEFT and INNER set the kind; JOIN reads a table,
/// ON and a condition, and joins them to what was read; any other token is
/// passed over.
pub open spec fn from_clause_at(
    tokens: Seq<Seq<char>>,
    i: int,
    cur: Option<FromItemView>,
    kind: Option<JoinKind>,
    aliases: Seq<(Seq<char>, Seq<char>)>,
) -> Result<(Option<FromItemView>, Seq<(Seq<char>, Seq<char>)>), ParseError>
    decreases tokens.len() - i,
{
    if i < 0 || i >= tokens.len() {
        Ok((cur, aliases))
    } else if eq_ignore_case(tokens[i], "from"@) {
        match from_item_at(tokens, i, aliases) {
            Err(e) => Err(e),
            Ok((name, j, bound)) => from_clause_at(
                tokens,
                j,
                Some(FromItemView::Table(name)),
                kind,
                bound,
            ),
        }
    } else if eq_ignore_case(tokens[i], "left"@) {
        from_clause_at(tokens, i + 1, cur, Some(JoinKind::Left), aliases)
    } else if eq_ignore_case(tokens[i], "inner"@) {
        from_clause_at(tokens, i + 1, cur, Some(JoinKind::Inner), aliases)
    } else if eq_ignore_case(tokens[i], "join"@) {
        match from_item_at(tokens, i, aliases) {
            Err(e) => Err(e),
            Ok((name, j, bound)) => {
                if !token_is(tokens, j, "on"@) {
                    Err(ParseError::InvalidJoin)
                } else {
                    proof {
                        lemma_condition_end_bounds(tokens, j + 1);
                    }
                    let end = condition_end(tokens, j + 1);
                    match spec_parse_where(spaced(tokens, j + 1, end)) {
                        Err(e) => Err(e),
                        Ok(on) => match cur {
                            None => Err(ParseError::InvalidJoin),
                            Some(left) => from_clause_at(
                                tokens,
                                end,
                                Some(
                                    FromItemView::Join {
                                        left: Box::new(left),
                                        right: Box::new(FromItemView::Table(name)),
                                        kind: match kind {
                                            Some(k) => k,
                                            None => JoinKind::Inner,
                                        },
                                        on,
                                    },
                                ),
                                None,
                                bound,
                            ),
                        },
                    }
                }
            },
        }
    } else {
        from_clause_at(tokens, i + 1, cur, kind, aliases)
    }
}

/// What `SELECT c, ... FROM t [AS a] [(INNER | LEFT) JOIN t [AS a] ON cond]...`
/// parses to, with the predicate that was cut off before.
pub open spec fn spec_parse_select(s: Seq<char>, filter: Option<ConditionView>) -> Result<
    QueryView,
    ParseError,
> {
    let n = "select "@.len() as int;
    match find(lower(s), "from"@) {
        None => Err(ParseError::MissingFrom),
        Some(at) => {
            if at < n {
                Err(ParseError::InvalidSyntax)
            } else {
                match from_clause_at(
                    spec_select_tokens(trim(s.subrange(at, s.len() as int))),
                    0,
                    None,
                    None,
                    Seq::empty(),
                ) {
                    Err(e) => Err(e),
                    Ok((cur, aliases)) => match cur {
                        None => Err(ParseError::MissingTableName),
                        Some(from_table) => Ok(
                            QueryView::Select {
                                from_table,
                                aliases,
                                column_names: trim_all(split(trim(s.subrange(n, at)), ',')),
                                filter,
                            },
                        ),
                    },
                }
            }
        },
    }
}

fn read_from_clause(tokens: &Vec<Vec<char>>) -> (r: Result<(Option<FromItem>, Aliases), ParseError>)
    ensures
        match r {
            Ok((cur, aliases)) => from_clause_at(
                pieces_view(tokens@),
                0,
                None,
                None,
                Seq::empty(),
            ) == Ok::<_, ParseError>((from_opt_view(cur), aliases@)),
            Err(e) => from_clause_at(pieces_view(tokens@), 0, None, None, Seq::empty()) == Err::<
                (Option<FromItemView>, Seq<(Seq<char>, Seq<char>)>),
                _,
            >(e),
        },
{
    let ghost words = pieces_view(tokens@);
    let mut aliases = Aliases::new();
    let mut current: Option<FromItem> = None;
    let mut kind: Option<JoinKind> = None;
    let mut i: usize = 0;
    while i < tokens.len()
        invariant
            i <= tokens.len(),
            words == pieces_view(tokens@),
            from_clause_at(words, 0, None, None, Seq::empty()) == from_clause_at(
                words,
                i as int,
                from_opt_view(current),
                kind,
                aliases@,
            ),
        decreases tokens.len() - i,
    {
        assert(words[i as int] == tokens[i as int]@);
        if is_word_ignore_case(&tokens[i], "from") {
            match parse_from_item(tokens, &mut i, &mut aliases) {
                Err(e) => {
                    return Err(e);
                },
                Ok(table) => {
                    current = Some(table);
                },
            }
        } else if is_word_ignore_case(&tokens[i], "left") {
            kind = Some(JoinKind::Left);
            i += 1;
        } else if is_word_ignore_case(&tokens[i], "inner") {
            kind = Some(JoinKind::Inner);
            i += 1;
        } else if is_word_ignore_case(&tokens[i], "join") {
            let right = match parse_from_item(tokens, &mut i, &mut aliases) {
                Err(e) => {
                    return Err(e);
                },
                Ok(table) => table,
            };
            match expect_token("on", tokens, &mut i) {
                Err(e) => {
                    return Err(e);
                },
                Ok(()) => {},
            }
            let on = match parse_condition(tokens, &mut i) {
                Err(e) => {
                    return Err(e);
                },
                Ok(c) => c,
            };
            let left = match current {
                None => {
                    return Err(ParseError::InvalidJoin);
                },
                Some(l) => l,
            };
            let join_kind = match kind {
                Some(k) => k,
                None => JoinKind::Inner,
            };
            current = Some(
                FromItem::Join { left: Box::new(left), right: Box::new(right), kind: join_kind, on },
            );
            kind = None;
        } else {
            i += 1;
        }
    }
    Ok((current, aliases))
}

/// Parses a SELECT; `filter` is the predicate of its WHERE clause.
pub fn parse_select(input: &str, filter: Option<Condition>) -> (r: Result<Query, ParseError>)
    ensures
        query_result_view(r) == spec_parse_select(input@, filter_view(filter)),
{
    let v = chars_of(input);
    let low = to_lower(&v);
    let prefix = chars_of("select ");
    let keyword = chars_of("from");
    let at = match find_in(&low, &keyword) {
        Some(i) => i,
        None => {
            return Err(ParseError::MissingFrom);
        },
    };
    if at < prefix.len() {
        return Err(ParseError::InvalidSyntax);
    }
    let head = subvec(&v, prefix.len(), at);
    let list = trimmed(&head);
    let pieces = split_on(&list, ',');
    let column_names = trimmed_names(&pieces);
    let tail = subvec(&v, at, v.len());
    let clause = trimmed(&tail);
    let tokens = tokenize(&clause);
    let (current, aliases) = match read_from_clause(&tokens) {
        Ok(x) => x,
        Err(e) => {
            return Err(e);
        },
    };
    match current {
        None => Err(ParseError::MissingTableName),
        Some(from_table) => Ok(Query::Select { from_table, aliases, column_names, filter }),
    }
}

} // verus!
