use povertygres::errors::eval_error::EvalError;
use povertygres::executer::filter::{cmp_values, eval_condition, find_col_index, lookup_col};
use povertygres::executer::join::JoinTableColumn;
use povertygres::parser::where_parser::parse_where;
use povertygres::types::filter_types::CmpOp;
use povertygres::types::storage_types::{Column, ColumnType, Row, Value, ValueType};

fn c(alias: &str, name: &str) -> JoinTableColumn {
    JoinTableColumn { table_alias: alias.to_string(), column_name: name.to_string() }
}

fn t(s: &str) -> Value {
    Value::Text(s.to_string())
}

#[test]
fn null_on_the_left_is_false() {
    for op in [CmpOp::Eq, CmpOp::Ne, CmpOp::Lt, CmpOp::Lte, CmpOp::Gt, CmpOp::Gte] {
        assert_eq!(cmp_values(op, &Value::Null, &Value::Int(1)).unwrap(), false);
        assert_eq!(cmp_values(op, &Value::Null, &Value::Null).unwrap(), false);
    }
}

#[test]
fn integers_compare_by_size() {
    let a = Value::Int(2);
    let b = Value::Int(3);
    assert!(!cmp_values(CmpOp::Eq, &a, &b).unwrap());
    assert!(cmp_values(CmpOp::Ne, &a, &b).unwrap());
    assert!(cmp_values(CmpOp::Lt, &a, &b).unwrap());
    assert!(cmp_values(CmpOp::Lte, &a, &b).unwrap());
    assert!(!cmp_values(CmpOp::Gt, &a, &b).unwrap());
    assert!(!cmp_values(CmpOp::Gte, &a, &b).unwrap());
    assert!(cmp_values(CmpOp::Lte, &a, &a).unwrap());
    assert!(cmp_values(CmpOp::Gte, &a, &a).unwrap());
    assert!(!cmp_values(CmpOp::Lt, &a, &a).unwrap());
    assert!(cmp_values(CmpOp::Gt, &b, &a).unwrap());
}

#[test]
fn texts_compare_by_their_bytes() {
    assert!(cmp_values(CmpOp::Lt, &t("Zebra"), &t("apple")).unwrap());
    assert!(cmp_values(CmpOp::Gt, &t("b"), &t("abc")).unwrap());
    assert!(cmp_values(CmpOp::Eq, &t("x"), &t("x")).unwrap());
    assert!(cmp_values(CmpOp::Lte, &t("x"), &t("x")).unwrap());
    assert!(cmp_values(CmpOp::Lt, &t("z"), &t("\u{e9}")).unwrap());
    assert!(cmp_values(CmpOp::Ne, &t("x"), &t("y")).unwrap());
}

#[test]
fn booleans_compare_only_for_equality() {
    assert!(cmp_values(CmpOp::Eq, &Value::Bool(true), &Value::Bool(true)).unwrap());
    assert!(cmp_values(CmpOp::Ne, &Value::Bool(true), &Value::Bool(false)).unwrap());
    match cmp_values(CmpOp::Lt, &Value::Bool(true), &Value::Bool(false)) {
        Err(EvalError::InvalidOpForType { ty: ValueType::Bool, op: CmpOp::Lt }) => {}
        other => panic!("unexpected: {:?}", other),
    }
}

#[test]
fn different_types_do_not_compare() {
    match cmp_values(CmpOp::Eq, &Value::Int(1), &t("1")) {
        Err(EvalError::TypeMismatch { left: ValueType::Int, right: ValueType::Text, op: CmpOp::Eq }) => {}
        other => panic!("unexpected: {:?}", other),
    }
    match cmp_values(CmpOp::Eq, &Value::Int(1), &Value::Null) {
        Err(EvalError::TypeMismatch { left: ValueType::Int, right: ValueType::Null, .. }) => {}
        other => panic!("unexpected: {:?}", other),
    }
}

#[test]
fn columns_are_found_by_name_and_alias() {
    let metas = vec![c("u", "id"), c("u", "name"), c("o", "id")];
    assert_eq!(find_col_index(&metas, None, "name"), Some(1));
    assert_eq!(find_col_index(&metas, None, "id"), None);
    assert_eq!(find_col_index(&metas, None, "zip"), None);
    assert_eq!(find_col_index(&metas, Some("o"), "id"), Some(2));
    assert_eq!(find_col_index(&metas, Some("u"), "id"), Some(0));
    assert_eq!(find_col_index(&metas, Some("x"), "id"), None);
}

#[test]
fn conditions_are_evaluated_on_a_row() {
    let cols = vec![c("u", "age"), c("u", "name"), c("u", "active")];
    let row = Row { values: vec![Value::Int(20), t("Alice"), Value::Bool(true)] };
    let yes = parse_where(r#"(age > 18 and active = true) or name = "Bob""#).unwrap();
    assert_eq!(eval_condition(&yes, &row, &cols, None, None).unwrap(), true);
    let no = parse_where(r#"not age >= 20"#).unwrap();
    assert_eq!(eval_condition(&no, &row, &cols, None, None).unwrap(), false);
    let qualified = parse_where("u.age = 20").unwrap();
    assert_eq!(eval_condition(&qualified, &row, &cols, None, None).unwrap(), true);
}

#[test]
fn and_and_or_stop_where_the_first_part_decides() {
    let cols = vec![c("u", "age")];
    let row = Row { values: vec![Value::Int(20)] };
    let and = parse_where("age < 10 and missing = 1").unwrap();
    assert_eq!(eval_condition(&and, &row, &cols, None, None).unwrap(), false);
    let or = parse_where("age > 10 or missing = 1").unwrap();
    assert_eq!(eval_condition(&or, &row, &cols, None, None).unwrap(), true);
    let fails = parse_where("age > 10 and missing = 1").unwrap();
    match eval_condition(&fails, &row, &cols, None, None) {
        Err(EvalError::UnknownColumn(n)) => assert_eq!(n, "missing"),
        other => panic!("unexpected: {:?}", other),
    }
}

#[test]
fn columns_of_a_join_row_must_be_unambiguous() {
    let left = vec![c("u", "id"), c("u", "name")];
    let right = vec![c("o", "id"), c("o", "amount")];
    let l = Row { values: vec![Value::Int(1), t("a")] };
    let r = Row { values: vec![Value::Int(1), Value::Int(50)] };
    let on = parse_where("u.id = o.id").unwrap();
    assert_eq!(eval_condition(&on, &l, &left, Some(&r), Some(&right)).unwrap(), true);
    let amount = parse_where("amount = 50").unwrap();
    assert_eq!(eval_condition(&amount, &l, &left, Some(&r), Some(&right)).unwrap(), true);
    let ambiguous = parse_where("id = 1").unwrap();
    match eval_condition(&ambiguous, &l, &left, Some(&r), Some(&right)) {
        Err(EvalError::AmbiguousColumn(n)) => assert_eq!(n, "id"),
        other => panic!("unexpected: {:?}", other),
    }
    let unknown = parse_where("x.id = 1").unwrap();
    match eval_condition(&unknown, &l, &left, Some(&r), Some(&right)) {
        Err(EvalError::UnknownColumn(n)) => assert_eq!(n, "x.id"),
        other => panic!("unexpected: {:?}", other),
    }
}

#[test]
fn a_row_shorter_than_its_columns_is_an_internal_error() {
    let cols = vec![c("u", "a"), c("u", "b")];
    let row = Row { values: vec![Value::Int(1)] };
    let cond = parse_where("b = 1").unwrap();
    assert!(matches!(eval_condition(&cond, &row, &cols, None, None), Err(EvalError::Internal)));
}

#[test]
fn eval_errors_describe_themselves() {
    assert_eq!(EvalError::UnknownColumn("x".to_string()).message(), "unknown column: x");
    assert_eq!(
        EvalError::TypeMismatch { left: ValueType::Int, right: ValueType::Text, op: CmpOp::Lte }
            .message(),
        "type mismatch for <=: left is INT, right is TEXT"
    );
    assert_eq!(
        EvalError::InvalidOpForType { ty: ValueType::Bool, op: CmpOp::Gt }.message(),
        "invalid operator > for type BOOL"
    );
}

#[test]
fn a_value_is_looked_up_by_the_name_of_its_column() {
    let columns = vec![
        Column { name: "id".to_string(), column_type: ColumnType::Int, not_null: false, default: None },
        Column { name: "name".to_string(), column_type: ColumnType::Text, not_null: false, default: None },
    ];
    let row = Row { values: vec![Value::Int(7), t("x")] };
    assert_eq!(lookup_col(&columns, &row, "id").unwrap(), &Value::Int(7));
    assert_eq!(lookup_col(&columns, &row, "name").unwrap(), &t("x"));
    match lookup_col(&columns, &row, "age") {
        Err(EvalError::UnknownColumn(name)) => assert_eq!(name, "age"),
        other => panic!("expected an unknown column, got {:?}", other),
    }
    let short = Row { values: vec![Value::Int(7)] };
    assert!(matches!(lookup_col(&columns, &short, "name"), Err(EvalError::Internal)));
    assert_eq!(lookup_col(&columns, &short, "id").unwrap(), &Value::Int(7));
}
