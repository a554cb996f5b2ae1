use povertygres::errors::parse_error::ParseError;
use povertygres::parser::main_parser::parse_query;
use povertygres::parser::select_parser;
use povertygres::parser::where_parser::{parse_where, shunting_yard, tokenize};
use povertygres::text::{chars_of, parse_i64, split_on, split_words, trimmed};
use povertygres::types::filter_types::CmpOp;
use povertygres::types::parser_types::{Condition, FromItem, JoinKind, Operand, Query, Token};
use povertygres::types::storage_types::{ColumnType, Value};
use povertygres::types::transaction_types::IsolationLevel;

fn err(sql: &str) -> ParseError {
    match parse_query(sql) {
        Err(e) => e,
        Ok(q) => panic!("{} parsed to {:?}", sql, q),
    }
}

fn chars(s: &str) -> Vec<char> {
    s.chars().collect()
}

fn text(v: &Vec<char>) -> String {
    v.iter().collect()
}

#[test]
fn transaction_statements() {
    assert!(matches!(parse_query("begin").unwrap(), Query::Begin { isolation: None }));
    assert!(matches!(parse_query("  BEGIN  ").unwrap(), Query::Begin { isolation: None }));
    assert!(matches!(
        parse_query("Begin Isolation Level Read Committed").unwrap(),
        Query::Begin { isolation: Some(IsolationLevel::ReadCommitted) }
    ));
    assert!(matches!(
        parse_query("begin isolation level repeatable read").unwrap(),
        Query::Begin { isolation: Some(IsolationLevel::RepeatableRead) }
    ));
    assert_eq!(err("begin isolation level serializable"), ParseError::SerializableNotSupported);
    assert_eq!(err("begin isolation level chaos"), ParseError::UnknownIsolationLevel);
    assert_eq!(err("begin now"), ParseError::InvalidBegin);
    assert!(matches!(parse_query("COMMIT").unwrap(), Query::Commit));
    assert!(matches!(parse_query("rollback").unwrap(), Query::Rollback));
    assert_eq!(err("commit now"), ParseError::UnrecognizedCommand);
}

#[test]
fn session_and_vacuum_statements() {
    assert!(matches!(
        parse_query("set session characteristics as transaction isolation level read committed")
            .unwrap(),
        Query::SetSessionIsolationLevel(IsolationLevel::ReadCommitted)
    ));
    assert!(matches!(
        parse_query("SET SESSION CHARACTERISTICS AS TRANSACTION ISOLATION LEVEL REPEATABLE READ")
            .unwrap(),
        Query::SetSessionIsolationLevel(IsolationLevel::RepeatableRead)
    ));
    assert_eq!(
        err("set session characteristics as transaction isolation level serializable"),
        ParseError::SerializableNotSupported
    );
    assert_eq!(err("set session characteristics"), ParseError::InvalidSetSession);
    match parse_query("vacuum  users ").unwrap() {
        Query::Vacuum { table_name } => assert_eq!(table_name, "users"),
        other => panic!("unexpected: {:?}", other),
    }
    assert_eq!(err("exit"), ParseError::UnrecognizedCommand);
    assert_eq!(err(""), ParseError::UnrecognizedCommand);
}

#[test]
fn keywords_are_recognized_in_any_case() {
    match parse_query(r#"INSERT INTO Users (Id) VALUES ("MiXed")"#).unwrap() {
        Query::Insert { table_name, column_names, values } => {
            assert_eq!(table_name, "Users");
            assert_eq!(column_names, Some(vec!["Id".to_string()]));
            assert_eq!(values, vec![Value::Text("MiXed".to_string())]);
        }
        other => panic!("unexpected: {:?}", other),
    }
    match parse_query("Select A From T Where A >= 5").unwrap() {
        Query::Select { from_table, column_names, filter, .. } => {
            assert!(matches!(from_table, FromItem::Table(ref t) if t == "T"));
            assert_eq!(column_names, vec!["A"]);
            assert!(matches!(
                filter,
                Some(Condition::Cmp(CmpOp::Gte, Operand::Column(_), Operand::Literal(Value::Int(5))))
            ));
        }
        other => panic!("unexpected: {:?}", other),
    }
    match parse_query("DELETE FROM Things").unwrap() {
        Query::Delete { table_name, .. } => assert_eq!(table_name, "Things"),
        other => panic!("unexpected: {:?}", other),
    }
}

#[test]
fn create_table_errors() {
    assert_eq!(err("create table t id int"), ParseError::MissingParenthesis);
    assert_eq!(err("create table t (id)"), ParseError::MissingColumnType);
    assert_eq!(err("create table t (id float)"), ParseError::UnknownColumnType);
    assert_eq!(err("create table t (id int default maybe)"), ParseError::UnsupportedDefault);
    assert_eq!(err("create table t (id int, primary id)"), ParseError::InvalidPrimaryKey);
    assert_eq!(err("create table t (id int, foreign key id)"), ParseError::InvalidForeignKey);
    assert_eq!(err("create table t (id int references other)"), ParseError::InvalidForeignKey);
}

#[test]
fn create_table_reads_every_option() {
    match parse_query(
        "create table t (a INT NOT NULL, b Text default null, c bool, primary key (a), foreign key (c) references o(x))",
    )
    .unwrap()
    {
        Query::CreateTable { table_name, columns, primary_key, foreign_keys } => {
            assert_eq!(table_name, "t");
            assert_eq!(columns.len(), 3);
            assert_eq!(columns[0].column_type, ColumnType::Int);
            assert!(columns[0].not_null);
            assert_eq!(columns[1].column_type, ColumnType::Text);
            assert_eq!(columns[1].default, Some(Value::Null));
            assert!(!columns[1].not_null);
            assert_eq!(columns[2].column_type, ColumnType::Bool);
            assert_eq!(primary_key, Some("a".to_string()));
            assert_eq!(foreign_keys.len(), 1);
            assert_eq!(foreign_keys[0].local_columns, vec!["c"]);
            assert_eq!(foreign_keys[0].referenced_table, "o");
            assert_eq!(foreign_keys[0].referenced_columns, vec!["x"]);
        }
        other => panic!("unexpected: {:?}", other),
    }
}

#[test]
fn insert_update_and_index_errors() {
    assert_eq!(err("insert into t (a) (1)"), ParseError::MissingValues);
    assert_eq!(err("insert into t values 1"), ParseError::MissingParenthesis);
    assert_eq!(err("insert into t (a values (1)"), ParseError::MissingParenthesis);
    assert_eq!(err("insert into t values (1, x)"), ParseError::UnrecognizedValue);
    assert_eq!(err("insert intovalues (1)"), ParseError::InvalidSyntax);
    assert_eq!(err("update t a = 1"), ParseError::MissingSet);
    assert_eq!(err("update t set a"), ParseError::InvalidAssignment);
    assert_eq!(err("update t set a = b"), ParseError::UnrecognizedValue);
    assert_eq!(err("create index i users(id)"), ParseError::MissingOn);
    assert_eq!(err("create index on users"), ParseError::MissingParenthesis);
    assert_eq!(err("create index on users( , )"), ParseError::NoIndexColumns);
    assert_eq!(err("select a b"), ParseError::MissingFrom);
    assert_eq!(err("delete t"), ParseError::MissingFrom);
    assert_eq!(err("select a from"), ParseError::MissingTableName);
    assert_eq!(err("select a from t as"), ParseError::MissingTableName);
    assert_eq!(err("select a from t join u"), ParseError::InvalidJoin);
    assert_eq!(err("select a from t join u on"), ParseError::EmptyCondition);
}

#[test]
fn update_ends_at_a_semicolon() {
    match parse_query("update t set a = -5;").unwrap() {
        Query::Update { table_name, column_names, values, .. } => {
            assert_eq!(table_name, "t");
            assert_eq!(column_names, vec!["a"]);
            assert_eq!(values, vec![Value::Int(-5)]);
        }
        other => panic!("unexpected: {:?}", other),
    }
}

#[test]
fn joins_without_aliases_keep_their_kind() {
    match parse_query("select * from a left join b on a.x = b.x").unwrap() {
        Query::Select { from_table: FromItem::Join { left, right, kind, on }, aliases, .. } => {
            assert!(matches!(*left, FromItem::Table(ref t) if t == "a"));
            assert!(matches!(*right, FromItem::Table(ref t) if t == "b"));
            assert_eq!(kind, JoinKind::Left);
            assert!(matches!(on, Condition::Cmp(CmpOp::Eq, Operand::Column(_), Operand::Column(_))));
            assert!(aliases.entries.is_empty());
        }
        other => panic!("unexpected: {:?}", other),
    }
    match parse_query("select * from a as x join b as y on x.i = y.i").unwrap() {
        Query::Select { from_table: FromItem::Join { kind, .. }, aliases, .. } => {
            assert_eq!(kind, JoinKind::Inner);
            assert_eq!(aliases.get("x"), Some(&"a".to_string()));
            assert_eq!(aliases.get("y"), Some(&"b".to_string()));
            assert_eq!(aliases.get("z"), None);
        }
        other => panic!("unexpected: {:?}", other),
    }
}

#[test]
fn predicate_errors() {
    assert_eq!(parse_where(r#"a = "x"#).unwrap_err(), ParseError::UnterminatedString);
    assert_eq!(parse_where("a % 2").unwrap_err(), ParseError::UnexpectedCharacter);
    assert_eq!(parse_where("a ! 2").unwrap_err(), ParseError::UnexpectedCharacter);
    assert_eq!(
        parse_where("a = 99999999999999999999").unwrap_err(),
        ParseError::InvalidNumber
    );
    assert_eq!(parse_where("(a = 1").unwrap_err(), ParseError::MismatchedParentheses);
    assert_eq!(parse_where("a = 1)").unwrap_err(), ParseError::MismatchedParentheses);
    assert_eq!(parse_where("a =").unwrap_err(), ParseError::MissingOperand);
    assert_eq!(parse_where("and").unwrap_err(), ParseError::MissingOperand);
    assert_eq!(parse_where("not").unwrap_err(), ParseError::MissingOperand);
    assert_eq!(parse_where("a and b = 1").unwrap_err(), ParseError::ExpectedCondition);
    assert_eq!(parse_where("not a").unwrap_err(), ParseError::ExpectedCondition);
    assert_eq!(parse_where("a = 1 = 2").unwrap_err(), ParseError::ExpectedOperand);
    assert_eq!(parse_where("a").unwrap_err(), ParseError::LeftoverOperand);
    assert_eq!(parse_where("a = 1 b = 2").unwrap_err(), ParseError::ExpectedOperand);
    assert_eq!(parse_where("(a = 1) (b = 2)").unwrap_err(), ParseError::LeftoverOperand);
    assert_eq!(parse_where("").unwrap_err(), ParseError::EmptyCondition);
    assert_eq!(ParseError::MissingFrom.message(), "Missing 'from'");
    assert_eq!(ParseError::UnrecognizedCommand.message(), "Unrecognized command");
}

#[test]
fn operators_bind_by_precedence() {
    // OR binds weakest, then AND, then NOT, then the comparisons
    match parse_where("a = 1 or b = 2 and not c = 3").unwrap() {
        Condition::Or(l, r) => {
            assert!(matches!(*l, Condition::Cmp(CmpOp::Eq, _, _)));
            match *r {
                Condition::And(x, y) => {
                    assert!(matches!(*x, Condition::Cmp(..)));
                    assert!(matches!(*y, Condition::Not(_)));
                }
                other => panic!("unexpected: {:?}", other),
            }
        }
        other => panic!("unexpected: {:?}", other),
    }
    // operators of one precedence group from the left
    match parse_where("a = 1 and b = 2 and c = 3").unwrap() {
        Condition::And(l, r) => {
            assert!(matches!(*l, Condition::And(_, _)));
            assert!(matches!(*r, Condition::Cmp(..)));
        }
        other => panic!("unexpected: {:?}", other),
    }
    assert!(matches!(parse_where("not not a = 1").unwrap(), Condition::Not(_)));
    match parse_where(r#"5 <= a"#).unwrap() {
        Condition::Cmp(CmpOp::Lte, Operand::Literal(Value::Int(5)), Operand::Column(c)) => {
            assert_eq!(c, "a")
        }
        other => panic!("unexpected: {:?}", other),
    }
}

#[test]
fn predicate_tokens() {
    let tokens = tokenize(&chars(r#"( a_1 != "x y" ) AND NOT b<=7 or TRUE"#)).unwrap();
    assert_eq!(
        tokens,
        vec![
            Token::LParen,
            Token::Ident("a_1".to_string()),
            Token::Neq,
            Token::Str("x y".to_string()),
            Token::RParen,
            Token::And,
            Token::Not,
            Token::Ident("b".to_string()),
            Token::Lte,
            Token::Int(7),
            Token::Or,
            Token::Bool(true),
        ]
    );
    let rpn = shunting_yard(tokenize(&chars("a = 1 and b > 2")).unwrap()).unwrap();
    assert_eq!(
        rpn,
        vec![
            Token::Ident("a".to_string()),
            Token::Int(1),
            Token::Eq,
            Token::Ident("b".to_string()),
            Token::Int(2),
            Token::Gt,
            Token::And,
        ]
    );
}

#[test]
fn identifiers_may_hold_letters_of_any_script() {
    match parse_where("na\u{ef}ve\u{666} = 1").unwrap() {
        Condition::Cmp(_, Operand::Column(c), _) => assert_eq!(c, "na\u{ef}ve\u{666}"),
        other => panic!("unexpected: {:?}", other),
    }
    // a digit of another script does not begin a token
    assert_eq!(parse_where("\u{663} = 1").unwrap_err(), ParseError::UnexpectedCharacter);
    assert_eq!(parse_where("_a = 1").unwrap_err(), ParseError::UnexpectedCharacter);
}

#[test]
fn from_clause_tokens() {
    let tokens = select_parser::tokenize(&chars("from a,b (c) 'q r' x>=1 y!z\t=\"u"));
    let got: Vec<String> = tokens.iter().map(text).collect();
    assert_eq!(
        got,
        vec!["from", "a", ",", "b", "(", "c", ")", "'q r'", "x", ">=", "1", "y", "!", "z", "=", "\"u"]
    );
}

#[test]
fn text_helpers() {
    assert_eq!(text(&trimmed(&chars("  a b \t\n"))), "a b");
    assert_eq!(text(&trimmed(&chars("\u{a0}x\u{3000}"))), "x");
    assert_eq!(text(&trimmed(&chars("   "))), "");
    let parts: Vec<String> = split_on(&chars("a,,b,"), ',').iter().map(text).collect();
    assert_eq!(parts, vec!["a", "", "b", ""]);
    let words: Vec<String> = split_words(&chars("  one two\tthree  ")).iter().map(text).collect();
    assert_eq!(words, vec!["one", "two", "three"]);
    assert_eq!(chars_of("h\u{e9}"), vec!['h', '\u{e9}']);
    assert_eq!(parse_i64(&chars("0")), Some(0));
    assert_eq!(parse_i64(&chars("+17")), Some(17));
    assert_eq!(parse_i64(&chars("-17")), Some(-17));
    assert_eq!(parse_i64(&chars("007")), Some(7));
    assert_eq!(parse_i64(&chars("9223372036854775807")), Some(i64::MAX));
    assert_eq!(parse_i64(&chars("-9223372036854775808")), Some(i64::MIN));
    assert_eq!(parse_i64(&chars("9223372036854775808")), None);
    assert_eq!(parse_i64(&chars("-9223372036854775809")), None);
    assert_eq!(parse_i64(&chars("")), None);
    assert_eq!(parse_i64(&chars("-")), None);
    assert_eq!(parse_i64(&chars("1a")), None);
    assert_eq!(parse_i64(&chars("1 ")), None);
}
