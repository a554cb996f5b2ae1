use crate::errors::eval_error::{EvalError, EvalErrorView, EvalResult};
use crate::executer::join::{column_refs, ColumnRef, JoinTableColumn};
use crate::text::{chars_of, is_word, pieces_view, split, split_on};
use crate::types::filter_types::CmpOp;
use crate::types::parser_types::{Condition, ConditionView, Operand, OperandView};
use crate::types::storage_types::{Row, Value, ValueType, ValueView};
use crate::types::value_order::{bytes_lt, order_bytes, Order};
use vstd::prelude::*;
use vstd::utf8::encode_utf8;

verus! {

/// What an operator makes of two values of which it is known whether the
/// first comes before the second and whether they are equal.
pub open spec fn apply_op(op: CmpOp, before: bool, equal: bool) -> bool {
    match op {
        CmpOp::Eq => equal,
        CmpOp::Ne => !equal,
        CmpOp::Lt => before,
        CmpOp::Lte => before || equal,
        CmpOp::Gt => !before && !equal,
        CmpOp::Gte => !before,
    }
}

/// The result of a comparison. NULL on the left makes it false. Otherwise
/// the two values must be of one type; integers compare by size, texts by
/// their UTF-8 bytes, and booleans only for equality.
pub open spec fn compare_values(op: CmpOp, l: ValueView, r: ValueView) -> Result<
    bool,
    EvalErrorView,
> {
    match (l, r) {
        (ValueView::Null, _) => Ok(false),
        (ValueView::Int(a), ValueView::Int(b)) => Ok(apply_op(op, a < b, a == b)),
        (ValueView::Text(a), ValueView::Text(b)) => Ok(
            apply_op(op, bytes_lt(encode_utf8(a), encode_utf8(b)), a == b),
        ),
        (ValueView::Bool(a), ValueView::Bool(b)) => match op {
            CmpOp::Eq => Ok(a == b),
            CmpOp::Ne => Ok(a != b),
            _ => Err(EvalErrorView::InvalidOpForType { ty: ValueType::Bool, op }),
        },
        _ => Err(EvalErrorView::TypeMismatch { left: l.vtype(), right: r.vtype(), op }),
    }
}

/// View of the result of an evaluation to a boolean.
pub open spec fn bool_result_view(r: EvalResult<bool>) -> Result<bool, EvalErrorView> {
    match r {
        Ok(b) => Ok(b),
        Err(e) => Err(e@),
    }
}

/// View of the result of an evaluation to a value.
pub open spec fn value_result_view(r: EvalResult<Value>) -> Result<ValueView, EvalErrorView> {
    match r {
        Ok(v) => Ok(v@),
        Err(e) => Err(e@),
    }
}

fn decide(op: CmpOp, before: bool, equal: bool) -> (b: bool)
    ensures
        b == apply_op(op, before, equal),
{
    match op {
        CmpOp::Eq => equal,
        CmpOp::Ne => !equal,
        CmpOp::Lt => before,
        CmpOp::Lte => before || equal,
        CmpOp::Gt => !before && !equal,
        CmpOp::Gte => !before,
    }
}

/// Compares two values.
pub fn cmp_values(op: CmpOp, left: &Value, right: &Value) -> (r: EvalResult<bool>)
    ensures
        bool_result_view(r) == compare_values(op, left@, right@),
{
    match (left, right) {
        (Value::Null, _) => Ok(false),
        (Value::Int(a), Value::Int(b)) => Ok(decide(op, *a < *b, *a == *b)),
        (Value::Text(a), Value::Text(b)) => {
            proof {
                vstd::utf8::encode_utf8_decode_utf8(a@);
                vstd::utf8::encode_utf8_decode_utf8(b@);
                crate::types::value_order::lemma_bytes_lt_total(encode_utf8(a@), encode_utf8(b@));
                crate::types::value_order::lemma_byte_order();
                if bytes_lt(encode_utf8(a@), encode_utf8(b@)) && bytes_lt(
                    encode_utf8(b@),
                    encode_utf8(a@),
                ) {
                    crate::types::value_order::lemma_lex_transitive(
                        encode_utf8(a@),
                        encode_utf8(b@),
                        encode_utf8(a@),
                        crate::types::value_order::byte_lt(),
                        0,
                    );
                }
            }
            match order_bytes(a.as_str().as_bytes(), b.as_str().as_bytes()) {
                Order::Less => Ok(decide(op, true, false)),
                Order::Equal => Ok(decide(op, false, true)),
                Order::Greater => Ok(decide(op, false, false)),
            }
        },
        (Value::Bool(a), Value::Bool(b)) => match op {
            CmpOp::Eq => Ok(*a == *b),
            CmpOp::Ne => Ok(*a != *b),
            _ => Err(EvalError::InvalidOpForType { ty: ValueType::Bool, op }),
        },
        _ => Err(EvalError::TypeMismatch { left: left.vtype(), right: right.vtype(), op }),
    }
}

/// What a search for a column finds: nothing, one column, or several.
pub enum Lookup {
    Missing,
    One(int),
    Many,
}

/// The first column at or after `i` that has the name.
pub open spec fn first_named(cols: Seq<ColumnRef>, name: Seq<char>, i: int) -> Option<int>
    decreases cols.len() - i,
{
    if i < 0 || i >= cols.len() {
        None
    } else if cols[i].column_name == name {
        Some(i)
    } else {
        first_named(cols, name, i + 1)
    }
}

/// The first column at or after `i` that has the alias and the name.
pub open spec fn first_qualified(cols: Seq<ColumnRef>, alias: Seq<char>, name: Seq<char>, i: int)
    -> Option<int>
    decreases cols.len() - i,
{
    if i < 0 || i >= cols.len() {
        None
    } else if cols[i].table_alias == alias && cols[i].column_name == name {
        Some(i)
    } else {
        first_qualified(cols, alias, name, i + 1)
    }
}

/// What a search for a column finds in a list of columns. A qualified name
/// stands for the first column of that alias and name; an unqualified name
/// must belong to one column only.
pub open spec fn lookup_column(cols: Seq<ColumnRef>, alias: Option<Seq<char>>, name: Seq<char>)
    -> Lookup {
    match alias {
        Some(a) => match first_qualified(cols, a, name, 0) {
            Some(i) => Lookup::One(i),
            None => Lookup::Missing,
        },
        None => match first_named(cols, name, 0) {
            None => Lookup::Missing,
            Some(i) => if first_named(cols, name, i + 1).is_some() {
                Lookup::Many
            } else {
                Lookup::One(i)
            },
        },
    }
}

/// The column that a search in one list of columns settles on: the one that
/// it finds, if it finds one only.
pub open spec fn spec_find_col_index(
    cols: Seq<ColumnRef>,
    alias: Option<Seq<char>>,
    name: Seq<char>,
) -> Option<int> {
    match lookup_column(cols, alias, name) {
        Lookup::One(i) => Some(i),
        _ => None,
    }
}

/// What a search for a column found.
pub enum Found {
    Missing,
    One(usize),
    Many,
}

impl View for Found {
    type V = Lookup;

    open spec fn view(&self) -> Lookup {
        match self {
            Found::Missing => Lookup::Missing,
            Found::One(i) => Lookup::One(*i as int),
            Found::Many => Lookup::Many,
        }
    }
}

/// View of an optional string slice.
pub open spec fn opt_str_view(s: Option<&str>) -> Option<Seq<char>> {
    match s {
        Some(s) => Some(s@),
        None => None,
    }
}

/// Searches a list of columns for a column, qualified by an alias or not.
pub fn search_column(metas: &Vec<JoinTableColumn>, alias: Option<&str>, col: &str) -> (r: Found)
    ensures
        r@ == lookup_column(column_refs(metas@), opt_str_view(alias), col@),
        r matches Found::One(i) ==> i < metas.len(),
{
    let ghost cols = column_refs(metas@);
    match alias {
        Some(a) => {
            let mut i: usize = 0;
            while i < metas.len()
                invariant
                    i <= metas.len(),
                    cols == column_refs(metas@),
                    alias == Some(a),
                    first_qualified(cols, a@, col@, i as int) == first_qualified(
                        cols,
                        a@,
                        col@,
                        0,
                    ),
                decreases metas.len() - i,
            {
                assert(cols[i as int] == metas[i as int]@);
                if crate::text::str_eq(metas[i].table_alias.as_str(), a) && crate::text::str_eq(
                    metas[i].column_name.as_str(),
                    col,
                ) {
                    return Found::One(i);
                }
                i += 1;
            }
            Found::Missing
        },
        None => {
            let mut found: Option<usize> = None;
            let mut i: usize = 0;
            while i < metas.len()
                invariant
                    i <= metas.len(),
                    cols == column_refs(metas@),
                    alias.is_none(),
                    match found {
                        None => first_named(cols, col@, i as int) == first_named(cols, col@, 0),
                        Some(k) => k < i && first_named(cols, col@, 0) == Some(k as int)
                            && first_named(cols, col@, i as int) == first_named(
                            cols,
                            col@,
                            k + 1,
                        ),
                    },
                decreases metas.len() - i,
            {
                assert(cols[i as int] == metas[i as int]@);
                if crate::text::str_eq(metas[i].column_name.as_str(), col) {
                    match found {
                        Some(_) => {
                            return Found::Many;
                        },
                        None => {
                            found = Some(i);
                        },
                    }
                }
                i += 1;
            }
            match found {
                Some(k) => Found::One(k),
                None => Found::Missing,
            }
        },
    }
}

/// The index of a column in a list of columns: of the first column of the
/// alias and the name, or of the one column of the name; none if no column
/// fits, or if several have the unqualified name.
pub fn find_col_index(metas: &Vec<JoinTableColumn>, alias: Option<&str>, col: &str) -> (r: Option<
    usize,
>)
    ensures
        match r {
            Some(i) => spec_find_col_index(column_refs(metas@), opt_str_view(alias), col@)
                == Some(i as int) && i < metas.len(),
            None => spec_find_col_index(column_refs(metas@), opt_str_view(alias), col@).is_none(),
        },
{
    match search_column(metas, alias, col) {
        Found::One(i) => Some(i),
        _ => None,
    }
}

/// The value of a column of a table in a row, by the column's name:
/// `UnknownColumn` if the table has no such column, `Internal` if the row is
/// too short to have a value for it.
pub open spec fn column_value(
    columns: Seq<crate::types::storage_types::Column>,
    row: Seq<ValueView>,
    name: Seq<char>,
) -> Result<ValueView, EvalErrorView> {
    match crate::types::storage_types::column_position(columns, name, 0) {
        None => Err(EvalErrorView::UnknownColumn(name)),
        Some(i) => value_at(row, i),
    }
}

/// Looks up the value of a column of a table in a row, by the column's name.
pub fn lookup_col<'a>(
    columns: &'a Vec<crate::types::storage_types::Column>,
    row: &'a Row,
    name: &str,
) -> (r: EvalResult<&'a Value>)
    ensures
        match r {
            Ok(v) => column_value(columns@, row@, name@) == Ok::<_, EvalErrorView>(v@),
            Err(e) => column_value(columns@, row@, name@) == Err::<ValueView, _>(e@),
        },
{
    match crate::types::storage_types::find_column(columns, name) {
        None => Err(EvalError::UnknownColumn(name.to_owned())),
        Some(i) => {
            if i < row.values.len() {
                assert(row@[i as int] == row.values[i as int]@);
                Ok(&row.values[i])
            } else {
                Err(EvalError::Internal)
            }
        },
    }
}

/// The alias, if any, and the column that a column reference names: `col`
/// or `alias.col`; none for a reference with more than one dot.
pub open spec fn split_name(name: Seq<char>) -> Option<(Option<Seq<char>>, Seq<char>)> {
    let parts = split(name, '.');
    if parts.len() == 1 {
        Some((None, parts[0]))
    } else if parts.len() == 2 {
        Some((Some(parts[0]), parts[1]))
    } else {
        None
    }
}

/// The columns and the values that a predicate is evaluated on: those of a
/// row, and those of the row that it is joined with, if any.
pub struct RowEnv {
    pub left_cols: Seq<ColumnRef>,
    pub left_row: Seq<ValueView>,
    pub right_cols: Seq<ColumnRef>,
    pub right_row: Seq<ValueView>,
}

/// The value at a place in a row.
pub open spec fn value_at(row: Seq<ValueView>, i: int) -> Result<ValueView, EvalErrorView> {
    if 0 <= i < row.len() {
        Ok(row[i])
    } else {
        Err(EvalErrorView::Internal)
    }
}

/// The value of an operand on a row. A literal is its own value. A
/// qualified column is looked up on the left, then on the right. An
/// unqualified column must be found on one side only, and there once.
pub open spec fn operand_value(op: OperandView, env: RowEnv) -> Result<ValueView, EvalErrorView> {
    match op {
        OperandView::Literal(v) => Ok(v),
        OperandView::Column(name) => match split_name(name) {
            None => Err(EvalErrorView::UnknownColumn(name)),
            Some((alias, col)) => {
                match (
                    lookup_column(env.left_cols, alias, col),
                    lookup_column(env.right_cols, alias, col),
                ) {
                    (Lookup::One(i), Lookup::Missing) => value_at(env.left_row, i),
                    (Lookup::Missing, Lookup::One(j)) => value_at(env.right_row, j),
                    (Lookup::Missing, Lookup::Missing) => Err(EvalErrorView::UnknownColumn(name)),
                    (Lookup::One(i), Lookup::One(j)) => if alias.is_some() {
                        value_at(env.left_row, i)
                    } else {
                        Err(EvalErrorView::AmbiguousColumn(name))
                    },
                    _ => Err(EvalErrorView::AmbiguousColumn(name)),
                }
            },
        },
    }
}

/// The value of a predicate on a row. AND and OR do not look at their
/// second part where the first decides.
pub open spec fn condition_value(c: ConditionView, env: RowEnv) -> Result<bool, EvalErrorView>
    decreases c,
{
    match c {
        ConditionView::Cmp(op, a, b) => match operand_value(a, env) {
            Err(e) => Err(e),
            Ok(l) => match operand_value(b, env) {
                Err(e) => Err(e),
                Ok(r) => compare_values(op, l, r),
            },
        },
        ConditionView::And(a, b) => match condition_value(*a, env) {
            Err(e) => Err(e),
            Ok(false) => Ok(false),
            Ok(true) => condition_value(*b, env),
        },
        ConditionView::Or(a, b) => match condition_value(*a, env) {
            Err(e) => Err(e),
            Ok(true) => Ok(true),
            Ok(false) => condition_value(*b, env),
        },
        ConditionView::Not(a) => match condition_value(*a, env) {
            Err(e) => Err(e),
            Ok(v) => Ok(!v),
        },
    }
}

/// The environment that the arguments of an evaluation stand for. The right
/// side counts only where both its columns and its row are given.
pub open spec fn env_of(
    left_row: &Row,
    left_cols: &Vec<JoinTableColumn>,
    right_row: Option<&Row>,
    right_cols: Option<&Vec<JoinTableColumn>>,
) -> RowEnv {
    RowEnv {
        left_cols: column_refs(left_cols@),
        left_row: left_row@,
        right_cols: match (right_cols, right_row) {
            (Some(c), Some(_)) => column_refs(c@),
            _ => Seq::empty(),
        },
        right_row: match (right_cols, right_row) {
            (Some(_), Some(r)) => r@,
            _ => Seq::empty(),
        },
    }
}

fn fetch(row: &Row, i: usize) -> (r: EvalResult<Value>)
    ensures
        value_result_view(r) == value_at(row@, i as int),
{
    if i < row.values.len() {
        assert(row@[i as int] == row.values[i as int]@);
        Ok(row.values[i].copy())
    } else {
        Err(EvalError::Internal)
    }
}

fn to_string(v: &Vec<char>) -> (s: String)
    ensures
        s@ == v@,
{
    assert(v@.subrange(0, v.len() as int) =~= v@);
    crate::text::string_of(v, 0, v.len())
}

/// Evaluates an operand on a row, and on the row that it is joined with, if any.
pub fn eval_operand(
    op: &Operand,
    left_row: &Row,
    left_cols: &Vec<JoinTableColumn>,
    right_row: Option<&Row>,
    right_cols: Option<&Vec<JoinTableColumn>>,
) -> (r: EvalResult<Value>)
    ensures
        value_result_view(r) == operand_value(
            op@,
            env_of(left_row, left_cols, right_row, right_cols),
        ),
{
    match op {
        Operand::Literal(v) => Ok(v.copy()),
        Operand::Column(name) => {
            let chars = chars_of(name.as_str());
            let parts = split_on(&chars, '.');
            if parts.len() > 2 {
                return Err(EvalError::UnknownColumn(name.clone()));
            }
            assert(pieces_view(parts@)[0] == parts[0]@);
            let qualified = parts.len() == 2;
            let first = to_string(&parts[0]);
            let second = if qualified {
                assert(pieces_view(parts@)[1] == parts[1]@);
                to_string(&parts[1])
            } else {
                String::new()
            };
            let alias: Option<&str> = if qualified {
                Some(first.as_str())
            } else {
                None
            };
            let col: &str = if qualified {
                second.as_str()
            } else {
                first.as_str()
            };
            let on_left = search_column(left_cols, alias, col);
            let on_right = match (right_cols, right_row) {
                (Some(c), Some(_)) => search_column(c, alias, col),
                _ => {
                    assert(first_named(Seq::<ColumnRef>::empty(), col@, 0).is_none());
                    assert(alias.is_some() ==> first_qualified(
                        Seq::<ColumnRef>::empty(),
                        alias.unwrap()@,
                        col@,
                        0,
                    ).is_none());
                    Found::Missing
                },
            };
            match (on_left, on_right) {
                (Found::One(i), Found::Missing) => fetch(left_row, i),
                (Found::Missing, Found::One(j)) => match (right_cols, right_row) {
                    (Some(_), Some(r)) => fetch(r, j),
                    _ => Err(EvalError::Internal),
                },
                (Found::Missing, Found::Missing) => Err(EvalError::UnknownColumn(name.clone())),
                (Found::One(i), Found::One(_)) => {
                    if qualified {
                        fetch(left_row, i)
                    } else {
                        Err(EvalError::AmbiguousColumn(name.clone()))
                    }
                },
                _ => Err(EvalError::AmbiguousColumn(name.clone())),
            }
        },
    }
}

/// Evaluates a predicate on a row, and on the row that it is joined with, if any.
pub fn eval_condition(
    cond: &Condition,
    left_row: &Row,
    left_cols: &Vec<JoinTableColumn>,
    right_row: Option<&Row>,
    right_cols: Option<&Vec<JoinTableColumn>>,
) -> (r: EvalResult<bool>)
    ensures
        bool_result_view(r) == condition_value(
            cond@,
            env_of(left_row, left_cols, right_row, right_cols),
        ),
    decreases cond,
{
    match cond {
        Condition::Cmp(op, lhs, rhs) => {
            let lv = match eval_operand(lhs, left_row, left_cols, right_row, right_cols) {
                Ok(v) => v,
                Err(e) => {
                    return Err(e);
                },
            };
            let rv = match eval_operand(rhs, left_row, left_cols, right_row, right_cols) {
                Ok(v) => v,
                Err(e) => {
                    return Err(e);
                },
            };
            cmp_values(*op, &lv, &rv)
        },
        Condition::And(a, b) => {
            match eval_condition(a, left_row, left_cols, right_row, right_cols) {
                Err(e) => Err(e),
                Ok(false) => Ok(false),
                Ok(true) => eval_condition(b, left_row, left_cols, right_row, right_cols),
            }
        },
        Condition::Or(a, b) => {
            match eval_condition(a, left_row, left_cols, right_row, right_cols) {
                Err(e) => Err(e),
                Ok(true) => Ok(true),
                Ok(false) => eval_condition(b, left_row, left_cols, right_row, right_cols),
            }
        },
        Condition::Not(x) => {
            match eval_condition(x, left_row, left_cols, right_row, right_cols) {
                Err(e) => Err(e),
                Ok(v) => Ok(!v),
            }
        },
    }
}

} // verus!
