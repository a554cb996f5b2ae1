use povertygres::errors::parse_error::ParseError;
use povertygres::parser::begin::parse_begin;
use povertygres::parser::common::{
    join_names, parse_isolation, parse_literal, parse_literals, trimmed_names,
    trimmed_nonempty_names,
};
use povertygres::parser::delete_parser::parse_delete;
use povertygres::parser::select_parser::{expect_token, parse_condition, parse_from_item};
use povertygres::parser::set_isolation::parse_set_session;
use povertygres::parser::vacuum::parse_vacuum;
use povertygres::parser::where_parser::{
    is_operator, is_right_associative, parse_where, parse_where_chars, precedence,
    rpn_to_condition, tokenize, tokenize_by,
};
use povertygres::types::filter_types::CmpOp;
use povertygres::types::parser_types::{Aliases, Condition, FromItem, Operand, Query, Token};
use povertygres::types::storage_types::Value;
use povertygres::types::transaction_types::IsolationLevel;

fn chars(s: &str) -> Vec<char> {
    s.chars().collect()
}

fn words(ws: &[&str]) -> Vec<Vec<char>> {
    ws.iter().map(|w| chars(w)).collect()
}

#[test]
fn begin_is_parsed_with_and_without_a_level() {
    assert!(matches!(parse_begin("BEGIN"), Ok(Query::Begin { isolation: None })));
    assert!(matches!(parse_begin("  begin  "), Ok(Query::Begin { isolation: None })));
    assert!(matches!(
        parse_begin("BEGIN ISOLATION LEVEL REPEATABLE READ"),
        Ok(Query::Begin { isolation: Some(IsolationLevel::RepeatableRead) })
    ));
    assert!(matches!(
        parse_begin("begin isolation level read committed"),
        Ok(Query::Begin { isolation: Some(IsolationLevel::ReadCommitted) })
    ));
    assert!(matches!(
        parse_begin("BEGIN ISOLATION LEVEL SERIALIZABLE"),
        Err(ParseError::SerializableNotSupported)
    ));
    assert!(matches!(
        parse_begin("BEGIN ISOLATION LEVEL CHAOS"),
        Err(ParseError::UnknownIsolationLevel)
    ));
    assert!(matches!(parse_begin("BEGIN WORK"), Err(ParseError::InvalidBegin)));
    assert!(matches!(parse_begin("be"), Err(ParseError::InvalidBegin)));
    // the statement begins with the keyword
    assert!(matches!(parse_begin("START"), Err(ParseError::InvalidBegin)));
    assert!(matches!(parse_begin("BEGAN ISOLATION LEVEL READ COMMITTED"), Err(ParseError::InvalidBegin)));
    assert!(matches!(parse_begin("ABCDE"), Err(ParseError::InvalidBegin)));
}

#[test]
fn isolation_levels_are_named_in_any_case() {
    assert_eq!(parse_isolation(&chars("Read Committed")), Ok(IsolationLevel::ReadCommitted));
    assert_eq!(parse_isolation(&chars("REPEATABLE READ")), Ok(IsolationLevel::RepeatableRead));
    assert_eq!(parse_isolation(&chars("serializable")), Err(ParseError::SerializableNotSupported));
    assert_eq!(parse_isolation(&chars("read  committed")), Err(ParseError::UnknownIsolationLevel));
    assert_eq!(parse_isolation(&chars("")), Err(ParseError::UnknownIsolationLevel));
}

#[test]
fn set_session_names_the_level() {
    assert!(matches!(
        parse_set_session(
            "SET SESSION CHARACTERISTICS AS TRANSACTION ISOLATION LEVEL REPEATABLE READ"
        ),
        Ok(Query::SetSessionIsolationLevel(IsolationLevel::RepeatableRead))
    ));
    assert!(matches!(
        parse_set_session(
            "set session characteristics as transaction isolation level read committed"
        ),
        Ok(Query::SetSessionIsolationLevel(IsolationLevel::ReadCommitted))
    ));
    assert!(matches!(
        parse_set_session("SET SESSION CHARACTERISTICS AS TRANSACTION ISOLATION LEVEL SERIALIZABLE"),
        Err(ParseError::SerializableNotSupported)
    ));
}

#[test]
fn vacuum_and_delete_name_their_table() {
    match parse_vacuum("VACUUM  users ").unwrap() {
        Query::Vacuum { table_name } => assert_eq!(table_name, "users"),
        other => panic!("unexpected: {:?}", other),
    }
    assert!(matches!(parse_vacuum("VACUUM"), Err(ParseError::InvalidSyntax)));
    assert!(matches!(parse_vacuum("SELECT users"), Err(ParseError::InvalidSyntax)));
    assert!(matches!(parse_vacuum("VACUUMS users"), Err(ParseError::InvalidSyntax)));
    assert!(matches!(parse_vacuum("vacuum users"), Ok(Query::Vacuum { .. })));
    match parse_delete("DELETE FROM users", None).unwrap() {
        Query::Delete { table_name, filter } => {
            assert_eq!(table_name, "users");
            assert!(filter.is_none());
        }
        other => panic!("unexpected: {:?}", other),
    }
    match parse_delete("delete from  u ", Some(parse_where("id = 1").unwrap())).unwrap() {
        Query::Delete { table_name, filter } => {
            assert_eq!(table_name, "u");
            assert!(matches!(filter, Some(Condition::Cmp(CmpOp::Eq, _, _))));
        }
        other => panic!("unexpected: {:?}", other),
    }
    assert!(matches!(parse_delete("DELETE users", None), Err(ParseError::MissingFrom)));
}

#[test]
fn literals_are_texts_truth_values_null_and_integers() {
    assert_eq!(parse_literal(&chars("\"a b\"")), Some(Value::Text("a b".to_string())));
    assert_eq!(parse_literal(&chars("\"\"")), Some(Value::Text(String::new())));
    assert_eq!(parse_literal(&chars("TRUE")), Some(Value::Bool(true)));
    assert_eq!(parse_literal(&chars("false")), Some(Value::Bool(false)));
    assert_eq!(parse_literal(&chars("Null")), Some(Value::Null));
    assert_eq!(parse_literal(&chars("-42")), Some(Value::Int(-42)));
    assert_eq!(parse_literal(&chars("\"")), None);
    assert_eq!(parse_literal(&chars("4x")), None);
    assert_eq!(parse_literal(&chars("")), None);
    assert_eq!(
        parse_literals(&words(&[" 1", "\"x\" ", " null "])),
        Some(vec![Value::Int(1), Value::Text("x".to_string()), Value::Null])
    );
    assert_eq!(parse_literals(&words(&["1", "one"])), None);
    assert_eq!(parse_literals(&words(&[])), Some(vec![]));
}

#[test]
fn names_are_trimmed_and_joined() {
    assert_eq!(trimmed_names(&words(&[" a", "b ", " "])), vec!["a", "b", ""]);
    assert_eq!(trimmed_nonempty_names(&words(&[" a", " ", "b ", ""])), vec!["a", "b"]);
    assert_eq!(join_names(&vec!["a".to_string(), "b".to_string(), "c".to_string()], "_"), "a_b_c");
    assert_eq!(join_names(&vec!["a".to_string()], "_"), "a");
    assert_eq!(join_names(&vec![], "_"), "");
}

#[test]
fn operators_have_their_rank() {
    assert!(is_operator(&Token::And));
    assert!(is_operator(&Token::Or));
    assert!(is_operator(&Token::Not));
    assert!(is_operator(&Token::Eq));
    assert!(is_operator(&Token::Lte));
    assert!(!is_operator(&Token::LParen));
    assert!(!is_operator(&Token::RParen));
    assert!(!is_operator(&Token::Int(1)));
    assert!(!is_operator(&Token::Ident("a".to_string())));
    assert!(is_right_associative(&Token::Not));
    assert!(!is_right_associative(&Token::And));
    assert!(!is_right_associative(&Token::Eq));
    assert_eq!(precedence(&Token::Or), 1);
    assert_eq!(precedence(&Token::And), 2);
    assert_eq!(precedence(&Token::Not), 3);
    assert_eq!(precedence(&Token::Eq), 4);
    assert_eq!(precedence(&Token::Gte), 4);
    assert_eq!(precedence(&Token::LParen), 0);
}

#[test]
fn a_postfix_list_folds_into_a_tree() {
    let rpn = vec![
        Token::Ident("a".to_string()),
        Token::Int(1),
        Token::Gt,
        Token::Ident("b".to_string()),
        Token::Str("x".to_string()),
        Token::Eq,
        Token::Not,
        Token::And,
    ];
    match rpn_to_condition(rpn).unwrap() {
        Condition::And(left, right) => {
            match *left {
                Condition::Cmp(CmpOp::Gt, Operand::Column(c), Operand::Literal(Value::Int(1))) => {
                    assert_eq!(c, "a")
                }
                other => panic!("unexpected left side: {:?}", other),
            }
            match *right {
                Condition::Not(inner) => assert!(matches!(*inner, Condition::Cmp(CmpOp::Eq, _, _))),
                other => panic!("unexpected right side: {:?}", other),
            }
        }
        other => panic!("unexpected: {:?}", other),
    }
    assert!(rpn_to_condition(vec![]).is_err());
    assert!(rpn_to_condition(vec![Token::Int(1), Token::Eq]).is_err());
    assert!(rpn_to_condition(vec![Token::And]).is_err());
    assert!(rpn_to_condition(vec![Token::Int(1)]).is_err());
    assert!(matches!(
        parse_where_chars(&chars("a = 1 OR NOT b = 2")),
        Ok(Condition::Or(_, _))
    ));
}

#[test]
fn a_table_of_a_from_clause_may_bring_an_alias() {
    let tokens = words(&["FROM", "users", "AS", "u", "JOIN", "orders", "o", "ON"]);
    let mut aliases = Aliases::new();
    let mut i = 0;
    match parse_from_item(&tokens, &mut i, &mut aliases).unwrap() {
        FromItem::Table(name) => assert_eq!(name, "users"),
        other => panic!("unexpected: {:?}", other),
    }
    assert_eq!(i, 4);
    assert_eq!(aliases.get("u"), Some(&"users".to_string()));
    // a lone word behind the table is passed over and binds nothing
    match parse_from_item(&tokens, &mut i, &mut aliases).unwrap() {
        FromItem::Table(name) => assert_eq!(name, "orders"),
        other => panic!("unexpected: {:?}", other),
    }
    assert_eq!(i, 7);
    assert_eq!(aliases.get("o"), None);
    assert_eq!(aliases.entries.len(), 1);
    // nothing follows ON
    assert_eq!(
        parse_from_item(&tokens, &mut i, &mut aliases).unwrap_err(),
        ParseError::MissingTableName
    );
    let short = words(&["FROM", "t", "AS"]);
    let mut j = 0;
    assert_eq!(
        parse_from_item(&short, &mut j, &mut aliases).unwrap_err(),
        ParseError::MissingTableName
    );
}

#[test]
fn keywords_of_a_join_are_expected_in_their_place() {
    let tokens = words(&["left", "JOIN", "t", "on"]);
    let mut i = 0;
    assert_eq!(expect_token("LEFT", &tokens, &mut i), Ok(()));
    assert_eq!(i, 1);
    assert_eq!(expect_token("join", &tokens, &mut i), Ok(()));
    assert_eq!(i, 2);
    assert_eq!(expect_token("ON", &tokens, &mut i), Err(ParseError::InvalidJoin));
    assert_eq!(i, 2);
    i = 4;
    assert_eq!(expect_token("ON", &tokens, &mut i), Err(ParseError::InvalidJoin));
    assert_eq!(i, 4);
}

#[test]
fn the_condition_of_a_join_ends_at_the_next_join() {
    let tokens = words(&["ON", "a.id", "=", "b.id", "AND", "a.x", ">", "1", "LEFT", "JOIN", "c"]);
    let mut i = 1;
    match parse_condition(&tokens, &mut i).unwrap() {
        Condition::And(left, _) => match *left {
            Condition::Cmp(CmpOp::Eq, Operand::Column(l), Operand::Column(r)) => {
                assert_eq!(l, "a.id");
                assert_eq!(r, "b.id");
            }
            other => panic!("unexpected left side: {:?}", other),
        },
        other => panic!("unexpected: {:?}", other),
    }
    assert_eq!(i, 8);
    // an empty condition is no condition
    let mut j = 8;
    assert!(parse_condition(&tokens, &mut j).is_err());
    assert_eq!(j, 8);
}

#[test]
fn tokens_follow_the_classes_of_the_characters() {
    let input = chars("ab1 =x_2.y");
    //                   a     b     1      ' '    =      x     _      2      .      y
    let letters = vec![true, true, false, false, false, true, false, false, false, true];
    let alnums = vec![true, true, true, false, false, true, false, true, false, true];
    assert_eq!(
        tokenize_by(&input, &letters, &alnums),
        Ok(vec![Token::Ident("ab1".to_string()), Token::Eq, Token::Ident("x_2.y".to_string())])
    );
    assert_eq!(tokenize_by(&input, &letters, &alnums), tokenize(&input));
    // with no letters recorded no word begins
    let none = vec![false; input.len()];
    assert_eq!(tokenize_by(&input, &none, &alnums), Err(ParseError::UnexpectedCharacter));
    // a word ends where the letters and digits end
    let short = vec![true, false, false, false, false, true, false, false, false, true];
    assert_eq!(
        tokenize_by(&chars("ab"), &letters, &short),
        Ok(vec![Token::Ident("a".to_string()), Token::Ident("b".to_string())])
    );
    assert_eq!(
        tokenize_by(&chars("a b"), &vec![true, false, true], &vec![true, false, true]),
        Ok(vec![Token::Ident("a".to_string()), Token::Ident("b".to_string())])
    );
    // classes that do not reach a position say nothing of it
    assert_eq!(
        tokenize_by(&chars("ab"), &vec![true], &vec![true]),
        Err(ParseError::UnexpectedCharacter)
    );
    assert_eq!(tokenize_by(&chars("12 AND"), &vec![false, false, false, true, true, true], &vec![true; 6]),
        Ok(vec![Token::Int(12), Token::And]));
}
