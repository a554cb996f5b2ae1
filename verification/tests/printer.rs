use povertygres::printer::{cell_chars, format_table, int_chars};
use povertygres::types::storage_types::{Row, Value};

fn text(v: Vec<char>) -> String {
    v.into_iter().collect()
}

#[test]
fn integers_are_shown_in_decimal() {
    assert_eq!(text(int_chars(0)), "0");
    assert_eq!(text(int_chars(7)), "7");
    assert_eq!(text(int_chars(120)), "120");
    assert_eq!(text(int_chars(-45)), "-45");
    assert_eq!(text(int_chars(i64::MAX)), "9223372036854775807");
    assert_eq!(text(int_chars(i64::MIN)), "-9223372036854775808");
}

#[test]
fn values_are_shown_as_text() {
    assert_eq!(text(cell_chars(&Value::Null)), "NULL");
    assert_eq!(text(cell_chars(&Value::Bool(true))), "true");
    assert_eq!(text(cell_chars(&Value::Bool(false))), "false");
    assert_eq!(text(cell_chars(&Value::Text("a b".to_string()))), "a b");
}

#[test]
fn table_is_drawn_with_borders() {
    let headers = vec!["id".to_string(), "name".to_string()];
    let rows = vec![
        Row { values: vec![Value::Int(1), Value::Text("a".to_string())] },
        Row { values: vec![Value::Int(200), Value::Null] },
        Row { values: vec![Value::Bool(false), Value::Text("longer".to_string())] },
    ];
    let lines = format_table(&headers, &rows);
    assert_eq!(
        lines,
        vec![
            "+-------+--------+",
            "| id    | name   |",
            "+-------+--------+",
            "| 1     | a      |",
            "| 200   | NULL   |",
            "| false | longer |",
            "+-------+--------+",
        ]
    );
}

#[test]
fn table_without_rows_has_headers_only() {
    let lines = format_table(&vec!["u.id".to_string()], &vec![]);
    assert_eq!(lines, vec!["+------+", "| u.id |", "+------+", "+------+"]);
}

#[test]
fn table_without_columns_is_a_frame() {
    let lines = format_table(&vec![], &vec![Row { values: vec![Value::Int(1)] }]);
    assert_eq!(lines, vec!["++", "|", "++", "|", "++"]);
}

#[test]
fn short_rows_are_shown_with_empty_cells() {
    let headers = vec!["a".to_string(), "b".to_string()];
    let rows = vec![Row { values: vec![Value::Int(1)] }];
    let lines = format_table(&headers, &rows);
    assert_eq!(lines, vec!["+---+---+", "| a | b |", "+---+---+", "| 1 |   |", "+---+---+"]);
}
