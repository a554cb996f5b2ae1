use crate::errors::parse_error::ParseError;
use crate::parser::common::{literal_value, parse_literal, query_result_view};
use crate::text::{
    chars_of, eq_ignore_case, find_char, find_char_in, is_word_ignore_case, pieces_view, split,
    split_on, split_words, string_of, strip_end, strip_parens, stripped_end, stripped_parens,
    subvec, trim, trimmed, words,
};
use crate::types::parser_types::{foreign_keys_view, Query, QueryView};
use crate::types::storage_types::{
    columns_view, names_view, Column, ColumnType, ColumnView, ForeignKeyConstraint,
    ForeignKeyView, Value, ValueView,
};
use vstd::prelude::*;

verus! {

/// What has been gathered of a table's definition.
pub struct TableDraft {
    pub columns: Seq<ColumnView>,
    pub primary_key: Option<Seq<char>>,
    pub foreign_keys: Seq<ForeignKeyView>,
}

/// The column type that a word names, in any case of letters.
pub open spec fn column_type_of(w: Seq<char>) -> Option<ColumnType> {
    if eq_ignore_case(w, "int"@) {
        Some(ColumnType::Int)
    } else if eq_ignore_case(w, "text"@) {
        Some(ColumnType::Text)
    } else if eq_ignore_case(w, "bool"@) {
        Some(ColumnType::Bool)
    } else {
        None
    }
}

/// Table and column of a reference written `table(column)`; a closing
/// parenthesis at the end may be missing.
pub open spec fn reference_target(w: Seq<char>) -> Option<(Seq<char>, Seq<char>)> {
    match find_char(w, '(') {
        None => None,
        Some(p) => Some((w.subrange(0, p), strip_end(w.subrange(p + 1, w.len() as int), ')'))),
    }
}

/// A foreign key from one column to one column.
pub open spec fn single_foreign_key(local: Seq<char>, target: (Seq<char>, Seq<char>))
    -> ForeignKeyView {
    ForeignKeyView {
        local_columns: seq![local],
        referenced_table: target.0,
        referenced_columns: seq![target.1],
    }
}

/// The draft after the options of a column, which begin at word `i` of its
/// definition, have been read and the column has been added: NOT NULL,
/// PRIMARY KEY, DEFAULT with a literal, REFERENCES with a target. Any other
/// word is passed over.
pub open spec fn column_options(
    tokens: Seq<Seq<char>>,
    i: int,
    col: ColumnView,
    draft: TableDraft,
) -> Result<TableDraft, ParseError>
    decreases tokens.len() - i,
{
    if i < 0 || i >= tokens.len() {
        Ok(TableDraft { columns: draft.columns.push(col), ..draft })
    } else if i + 1 < tokens.len() && eq_ignore_case(tokens[i], "not"@) && eq_ignore_case(
        tokens[i + 1],
        "null"@,
    ) {
        column_options(tokens, i + 2, ColumnView { not_null: true, ..col }, draft)
    } else if i + 1 < tokens.len() && eq_ignore_case(tokens[i], "primary"@) && eq_ignore_case(
        tokens[i + 1],
        "key"@,
    ) {
        column_options(
            tokens,
            i + 2,
            ColumnView { not_null: true, ..col },
            TableDraft { primary_key: Some(col.name), ..draft },
        )
    } else if i + 1 < tokens.len() && eq_ignore_case(tokens[i], "default"@) {
        match literal_value(tokens[i + 1]) {
            Some(v) => column_options(tokens, i + 2, ColumnView { default: Some(v), ..col }, draft),
            None => Err(ParseError::UnsupportedDefault),
        }
    } else if i + 1 < tokens.len() && eq_ignore_case(tokens[i], "references"@) {
        match reference_target(tokens[i + 1]) {
            Some(target) => column_options(
                tokens,
                i + 2,
                col,
                TableDraft {
                    foreign_keys: draft.foreign_keys.push(single_foreign_key(col.name, target)),
                    ..draft
                },
            ),
            None => Err(ParseError::InvalidForeignKey),
        }
    } else {
        column_options(tokens, i + 1, col, draft)
    }
}

/// The draft after one definition between the commas has been read: a
/// table-level PRIMARY KEY, a table-level FOREIGN KEY, or a column.
pub open spec fn definition_step(draft: TableDraft, def: Seq<char>) -> Result<
    TableDraft,
    ParseError,
> {
    let tokens = words(def);
    if tokens.len() == 0 {
        Ok(draft)
    } else if eq_ignore_case(tokens[0], "primary"@) {
        if tokens.len() >= 3 && eq_ignore_case(tokens[1], "key"@) {
            Ok(TableDraft { primary_key: Some(strip_parens(tokens[2])), ..draft })
        } else {
            Err(ParseError::InvalidPrimaryKey)
        }
    } else if eq_ignore_case(tokens[0], "foreign"@) {
        if tokens.len() >= 5 && eq_ignore_case(tokens[1], "key"@) && eq_ignore_case(
            tokens[3],
            "references"@,
        ) {
            match reference_target(tokens[4]) {
                Some(target) => Ok(
                    TableDraft {
                        foreign_keys: draft.foreign_keys.push(
                            single_foreign_key(strip_parens(tokens[2]), target),
                        ),
                        ..draft
                    },
                ),
                None => Err(ParseError::InvalidForeignKey),
            }
        } else {
            Err(ParseError::InvalidForeignKey)
        }
    } else if tokens.len() < 2 {
        Err(ParseError::MissingColumnType)
    } else {
        match column_type_of(tokens[1]) {
            None => Err(ParseError::UnknownColumnType),
            Some(ty) => column_options(
                tokens,
                2,
                ColumnView { name: tokens[0], column_type: ty, not_null: false, default: None },
                draft,
            ),
        }
    }
}

/// The draft after the definitions from the `i`-th on have been read.
pub open spec fn definitions_from(defs: Seq<Seq<char>>, i: int, draft: TableDraft) -> Result<
    TableDraft,
    ParseError,
>
    decreases defs.len() - i,
{
    if i < 0 || i >= defs.len() {
        Ok(draft)
    } else {
        match definition_step(draft, defs[i]) {
            Err(e) => Err(e),
            Ok(next) => definitions_from(defs, i + 1, next),
        }
    }
}

/// What `CREATE TABLE name (definition, ...)` parses to. The name is the
/// trimmed text between the first thirteen characters and the first opening
/// parenthesis; the definitions are what follows, without the closing
/// parentheses at the end, split at commas.
pub open spec fn spec_parse_create_table(s: Seq<char>) -> Result<QueryView, ParseError> {
    let n = "create table "@.len() as int;
    if s.len() < n {
        Err(ParseError::InvalidSyntax)
    } else {
        let after = s.subrange(n, s.len() as int);
        match find_char(after, '(') {
            None => Err(ParseError::MissingParenthesis),
            Some(p) => {
                let inside = trim(strip_end(after.subrange(p + 1, after.len() as int), ')'));
                match definitions_from(
                    split(inside, ','),
                    0,
                    TableDraft {
                        columns: Seq::empty(),
                        primary_key: None,
                        foreign_keys: Seq::empty(),
                    },
                ) {
                    Err(e) => Err(e),
                    Ok(d) => Ok(
                        QueryView::CreateTable {
                            table_name: trim(after.subrange(0, p)),
                            columns: d.columns,
                            primary_key: d.primary_key,
                            foreign_keys: d.foreign_keys,
                        },
                    ),
                }
            },
        }
    }
}

/// A table's definition while it is being gathered.
pub struct TableParts {
    pub columns: Vec<Column>,
    pub primary_key: Option<String>,
    pub foreign_keys: Vec<ForeignKeyConstraint>,
}

impl View for TableParts {
    type V = TableDraft;

    open spec fn view(&self) -> TableDraft {
        TableDraft {
            columns: columns_view(self.columns@),
            primary_key: match self.primary_key {
                Some(p) => Some(p@),
                None => None,
            },
            foreign_keys: foreign_keys_view(self.foreign_keys@),
        }
    }
}

fn to_string(v: &Vec<char>) -> (s: String)
    ensures
        s@ == v@,
{
    assert(v@.subrange(0, v.len() as int) =~= v@);
    string_of(v, 0, v.len())
}

fn parse_column_type(w: &Vec<char>) -> (r: Option<ColumnType>)
    ensures
        r == column_type_of(w@),
{
    if is_word_ignore_case(w, "int") {
        Some(ColumnType::Int)
    } else if is_word_ignore_case(w, "text") {
        Some(ColumnType::Text)
    } else if is_word_ignore_case(w, "bool") {
        Some(ColumnType::Bool)
    } else {
        None
    }
}

fn foreign_key_to(local: String, w: &Vec<char>) -> (r: Option<ForeignKeyConstraint>)
    ensures
        match r {
            Some(fk) => reference_target(w@).is_some() && fk@ == single_foreign_key(
                local@,
                reference_target(w@).unwrap(),
            ),
            None => reference_target(w@).is_none(),
        },
{
    match find_char_in(w, '(') {
        None => None,
        Some(p) => {
            let table = string_of(w, 0, p);
            let tail = subvec(w, p + 1, w.len());
            let column = stripped_end(&tail, ')');
            let mut local_columns: Vec<String> = Vec::new();
            local_columns.push(local);
            let mut referenced_columns: Vec<String> = Vec::new();
            referenced_columns.push(to_string(&column));
            let fk = ForeignKeyConstraint {
                local_columns,
                referenced_table: table,
                referenced_columns,
            };
            assert(fk@.local_columns =~= seq![local@]);
            assert(fk@.referenced_columns =~= seq![column@]);
            Some(fk)
        },
    }
}

proof fn lemma_columns_push(cs: Seq<Column>, c: Column)
    ensures
        columns_view(cs.push(c)) == columns_view(cs).push(c@),
{
    assert(columns_view(cs.push(c)) =~= columns_view(cs).push(c@));
}

proof fn lemma_foreign_keys_push(fs: Seq<ForeignKeyConstraint>, f: ForeignKeyConstraint)
    ensures
        foreign_keys_view(fs.push(f)) == foreign_keys_view(fs).push(f@),
{
    assert(foreign_keys_view(fs.push(f)) =~= foreign_keys_view(fs).push(f@));
}

fn read_column(tokens: &Vec<Vec<char>>, ty: ColumnType, parts: &mut TableParts) -> (r: Result<
    (),
    ParseError,
>)
    requires
        tokens.len() >= 2,
    ensures
        match r {
            Ok(()) => column_options(
                pieces_view(tokens@),
                2,
                ColumnView {
                    name: tokens[0]@,
                    column_type: ty,
                    not_null: false,
                    default: None,
                },
                old(parts)@,
            ) == Ok::<_, ParseError>(final(parts)@),
            Err(e) => column_options(
                pieces_view(tokens@),
                2,
                ColumnView {
                    name: tokens[0]@,
                    column_type: ty,
                    not_null: false,
                    default: None,
                },
                old(parts)@,
            ) == Err::<TableDraft, _>(e),
        },
{
    let ghost words = pieces_view(tokens@);
    let ghost goal = column_options(
        words,
        2,
        ColumnView { name: tokens[0]@, column_type: ty, not_null: false, default: None },
        parts@,
    );
    let mut col = Column { name: to_string(&tokens[0]), column_type: ty, not_null: false, default: None };
    let mut i: usize = 2;
    while i < tokens.len()
        invariant
            2 <= i <= tokens.len() + 1,
            words == pieces_view(tokens@),
            col.name@ == tokens[0]@,
            goal == column_options(
                words,
                2,
                ColumnView {
                    name: tokens[0]@,
                    column_type: ty,
                    not_null: false,
                    default: None,
                },
                old(parts)@,
            ),
            goal == column_options(words, i as int, col@, parts@),
        decreases tokens.len() + 1 - i,
    {
        assert(words[i as int] == tokens[i as int]@);
        let has_next = i + 1 < tokens.len();
        if has_next {
            assert(words[i + 1] == tokens[i + 1]@);
        }
        if has_next && is_word_ignore_case(&tokens[i], "not") && is_word_ignore_case(
            &tokens[i + 1],
            "null",
        ) {
            col.not_null = true;
            i += 2;
        } else if has_next && is_word_ignore_case(&tokens[i], "primary") && is_word_ignore_case(
            &tokens[i + 1],
            "key",
        ) {
            parts.primary_key = Some(col.name.clone());
            col.not_null = true;
            i += 2;
        } else if has_next && is_word_ignore_case(&tokens[i], "default") {
            match parse_literal(&tokens[i + 1]) {
                Some(v) => {
                    col.default = Some(v);
                },
                None => {
                    return Err(ParseError::UnsupportedDefault);
                },
            }
            i += 2;
        } else if has_next && is_word_ignore_case(&tokens[i], "references") {
            match foreign_key_to(col.name.clone(), &tokens[i + 1]) {
                Some(fk) => {
                    proof {
                        lemma_foreign_keys_push(parts.foreign_keys@, fk);
                    }
                    parts.foreign_keys.push(fk);
                },
                None => {
                    return Err(ParseError::InvalidForeignKey);
                },
            }
            i += 2;
        } else {
            i += 1;
        }
    }
    proof {
        lemma_columns_push(parts.columns@, col);
    }
    parts.columns.push(col);
    Ok(())
}

fn read_definition(def: &Vec<char>, parts: &mut TableParts) -> (r: Result<(), ParseError>)
    ensures
        match r {
            Ok(()) => definition_step(old(parts)@, def@) == Ok::<_, ParseError>(final(parts)@),
            Err(e) => definition_step(old(parts)@, def@) == Err::<TableDraft, _>(e),
        },
{
    let tokens = split_words(def);
    let ghost words = pieces_view(tokens@);
    if tokens.len() == 0 {
        return Ok(());
    }
    assert(words[0] == tokens[0]@);
    if is_word_ignore_case(&tokens[0], "primary") {
        if tokens.len() >= 3 && is_word_ignore_case(&tokens[1], "key") {
            assert(words[1] == tokens[1]@ && words[2] == tokens[2]@);
            let column = stripped_parens(&tokens[2]);
            parts.primary_key = Some(to_string(&column));
            return Ok(());
        }
        assert(tokens.len() >= 3 ==> words[1] == tokens[1]@);
        return Err(ParseError::InvalidPrimaryKey);
    }
    if is_word_ignore_case(&tokens[0], "foreign") {
        if tokens.len() >= 5 && is_word_ignore_case(&tokens[1], "key") && is_word_ignore_case(
            &tokens[3],
            "references",
        ) {
            assert(words[1] == tokens[1]@ && words[2] == tokens[2]@ && words[3] == tokens[3]@
                && words[4] == tokens[4]@);
            let local = stripped_parens(&tokens[2]);
            match foreign_key_to(to_string(&local), &tokens[4]) {
                Some(fk) => {
                    proof {
                        lemma_foreign_keys_push(parts.foreign_keys@, fk);
                    }
                    parts.foreign_keys.push(fk);
                    return Ok(());
                },
                None => {
                    return Err(ParseError::InvalidForeignKey);
                },
            }
        }
        assert(tokens.len() >= 5 ==> words[1] == tokens[1]@ && words[3] == tokens[3]@);
        return Err(ParseError::InvalidForeignKey);
    }
    if tokens.len() < 2 {
        return Err(ParseError::MissingColumnType);
    }
    assert(words[1] == tokens[1]@);
    match parse_column_type(&tokens[1]) {
        None => Err(ParseError::UnknownColumnType),
        Some(ty) => read_column(&tokens, ty, parts),
    }
}

fn read_definitions(defs: &Vec<Vec<char>>, parts: &mut TableParts) -> (r: Result<(), ParseError>)
    ensures
        match r {
            Ok(()) => definitions_from(pieces_view(defs@), 0, old(parts)@) == Ok::<_, ParseError>(
                final(parts)@,
            ),
            Err(e) => definitions_from(pieces_view(defs@), 0, old(parts)@) == Err::<TableDraft, _>(
                e,
            ),
        },
{
    let mut i: usize = 0;
    while i < defs.len()
        invariant
            i <= defs.len(),
            definitions_from(pieces_view(defs@), 0, old(parts)@) == definitions_from(
                pieces_view(defs@),
                i as int,
                parts@,
            ),
        decreases defs.len() - i,
    {
        assert(pieces_view(defs@)[i as int] == defs[i as int]@);
        match read_definition(&defs[i], parts) {
            Err(e) => {
                return Err(e);
            },
            Ok(()) => {},
        }
        i += 1;
    }
    Ok(())
}

/// Parses `CREATE TABLE name (definition, ...)`.
pub fn parse_create_table(input: &str) -> (r: Result<Query, ParseError>)
    ensures
        query_result_view(r) == spec_parse_create_table(input@),
{
    let v = chars_of(input);
    let prefix = chars_of("create table ");
    if v.len() < prefix.len() {
        return Err(ParseError::InvalidSyntax);
    }
    let after = subvec(&v, prefix.len(), v.len());
    let p = match find_char_in(&after, '(') {
        Some(p) => p,
        None => {
            return Err(ParseError::MissingParenthesis);
        },
    };
    let head = subvec(&after, 0, p);
    let table = trimmed(&head);
    let tail = subvec(&after, p + 1, after.len());
    let unclosed = stripped_end(&tail, ')');
    let inside = trimmed(&unclosed);
    let defs = split_on(&inside, ',');
    let mut parts = TableParts {
        columns: Vec::new(),
        primary_key: None,
        foreign_keys: Vec::new(),
    };
    assert(parts@.columns =~= Seq::empty());
    assert(parts@.foreign_keys =~= Seq::empty());
    match read_definitions(&defs, &mut parts) {
        Err(e) => {
            return Err(e);
        },
        Ok(()) => {},
    }
    Ok(
        Query::CreateTable {
            table_name: to_string(&table),
            columns: parts.columns,
            primary_key: parts.primary_key,
            foreign_keys: parts.foreign_keys,
        },
    )
}

} // verus!
