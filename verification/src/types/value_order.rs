use crate::types::storage_types::{values_view, Value, ValueView};
use vstd::prelude::*;
use vstd::utf8::encode_utf8;

verus! {

/// How two things stand to each other in an order.
#[derive(Debug, Clone, Copy, PartialEq, Eq, Structural)]
pub enum Order {
    Less,
    Equal,
    Greater,
}

/// Whether `a` comes before `b` from position `i` on, in the order that
/// compares element by element with `lt` and puts a proper prefix first.
pub open spec fn lex_lt<T>(a: Seq<T>, b: Seq<T>, lt: spec_fn(T, T) -> bool, i: int) -> bool
    decreases a.len() - i,
{
    if i < 0 || i >= a.len() {
        i < b.len()
    } else if i >= b.len() {
        false
    } else if a[i] == b[i] {
        lex_lt(a, b, lt, i + 1)
    } else {
        lt(a[i], b[i])
    }
}

/// The order of bytes.
pub open spec fn byte_lt() -> spec_fn(u8, u8) -> bool {
    |x: u8, y: u8| x < y
}

/// Whether the bytes `a` come before the bytes `b`.
pub open spec fn bytes_lt(a: Seq<u8>, b: Seq<u8>) -> bool {
    lex_lt(a, b, byte_lt(), 0)
}

/// The place of a value's kind among the kinds: integers first, then texts,
/// booleans, and NULL last.
pub open spec fn kind_rank(v: ValueView) -> int {
    match v {
        ValueView::Int(_) => 0,
        ValueView::Text(_) => 1,
        ValueView::Bool(_) => 2,
        ValueView::Null => 3,
    }
}

/// Whether the value `a` comes before the value `b`: by kind first; integers
/// by size, texts by their UTF-8 bytes, `false` before `true`.
pub open spec fn value_lt(a: ValueView, b: ValueView) -> bool {
    match (a, b) {
        (ValueView::Int(x), ValueView::Int(y)) => x < y,
        (ValueView::Text(s), ValueView::Text(t)) => bytes_lt(encode_utf8(s), encode_utf8(t)),
        (ValueView::Bool(x), ValueView::Bool(y)) => !x && y,
        _ => kind_rank(a) < kind_rank(b),
    }
}

/// The order of values.
pub open spec fn value_order() -> spec_fn(ValueView, ValueView) -> bool {
    |x: ValueView, y: ValueView| value_lt(x, y)
}

/// Whether the key `a` comes before the key `b`.
pub open spec fn key_lt(a: Seq<ValueView>, b: Seq<ValueView>) -> bool {
    lex_lt(a, b, value_order(), 0)
}

/// Whether `lt` is a strict total order.
pub open spec fn strict_total<T>(lt: spec_fn(T, T) -> bool) -> bool {
    &&& forall|x: T| !#[trigger] lt(x, x)
    &&& forall|x: T, y: T| x != y ==> #[trigger] lt(x, y) || lt(y, x)
    &&& forall|x: T, y: T, z: T| #[trigger] lt(x, y) && #[trigger] lt(y, z) ==> lt(x, z)
}

/// From a position on where two sequences are the same, neither comes first.
pub proof fn lemma_lex_irreflexive<T>(a: Seq<T>, lt: spec_fn(T, T) -> bool, i: int)
    requires
        0 <= i,
    ensures
        !lex_lt(a, a, lt, i),
    decreases a.len() - i,
{
    if i < a.len() {
        lemma_lex_irreflexive(a, lt, i + 1);
    }
}

/// Two sequences that agree before `i` and differ are ordered one way or the other.
pub proof fn lemma_lex_total<T>(a: Seq<T>, b: Seq<T>, lt: spec_fn(T, T) -> bool, i: int)
    requires
        strict_total(lt),
        0 <= i <= a.len(),
        i <= b.len(),
        a.subrange(0, i) == b.subrange(0, i),
        a != b,
    ensures
        lex_lt(a, b, lt, i) || lex_lt(b, a, lt, i),
    decreases a.len() - i,
{
    if i < a.len() && i < b.len() {
        if a[i] == b[i] {
            assert(a.subrange(0, i + 1) =~= a.subrange(0, i).push(a[i]));
            assert(b.subrange(0, i + 1) =~= b.subrange(0, i).push(b[i]));
            lemma_lex_total(a, b, lt, i + 1);
        }
    } else if i == a.len() && i == b.len() {
        assert(a.subrange(0, i) =~= a);
        assert(b.subrange(0, i) =~= b);
    }
}

/// The order of sequences passes along chains.
pub proof fn lemma_lex_transitive<T>(
    a: Seq<T>,
    b: Seq<T>,
    c: Seq<T>,
    lt: spec_fn(T, T) -> bool,
    i: int,
)
    requires
        strict_total(lt),
        0 <= i,
        lex_lt(a, b, lt, i),
        lex_lt(b, c, lt, i),
    ensures
        lex_lt(a, c, lt, i),
    decreases a.len() - i,
{
    if i < a.len() {
        if a[i] == b[i] && b[i] == c[i] {
            lemma_lex_transitive(a, b, c, lt, i + 1);
        } else if a[i] == b[i] {
        } else if b[i] == c[i] {
        } else {
            assert(lt(a[i], b[i]) && lt(b[i], c[i]));
            assert(lt(a[i], c[i]));
            assert(a[i] != c[i]);
        }
    }
}

/// The order of bytes is a strict total order.
pub proof fn lemma_byte_order()
    ensures
        strict_total(byte_lt()),
{
}

/// No byte sequence comes before itself, and of two different ones one comes first.
pub proof fn lemma_bytes_lt_total(a: Seq<u8>, b: Seq<u8>)
    ensures
        !bytes_lt(a, a),
        a != b ==> bytes_lt(a, b) || bytes_lt(b, a),
{
    lemma_byte_order();
    lemma_lex_irreflexive(a, byte_lt(), 0);
    if a != b {
        assert(a.subrange(0, 0) =~= b.subrange(0, 0));
        lemma_lex_total(a, b, byte_lt(), 0);
    }
}

/// The order of values is a strict total order.
pub proof fn lemma_value_order()
    ensures
        strict_total(value_order()),
{
    let lt = value_order();
    lemma_byte_order();
    assert forall|x: ValueView| !#[trigger] lt(x, x) by {
        if let ValueView::Text(s) = x {
            lemma_lex_irreflexive(encode_utf8(s), byte_lt(), 0);
        }
    }
    assert forall|x: ValueView, y: ValueView| x != y implies #[trigger] lt(x, y) || lt(y, x) by {
        if let (ValueView::Text(s), ValueView::Text(t)) = (x, y) {
            vstd::utf8::encode_utf8_decode_utf8(s);
            vstd::utf8::encode_utf8_decode_utf8(t);
            lemma_bytes_lt_total(encode_utf8(s), encode_utf8(t));
        }
    }
    assert forall|x: ValueView, y: ValueView, z: ValueView| #[trigger]
        lt(x, y) && #[trigger] lt(y, z) implies lt(x, z) by {
        if let (ValueView::Text(s), ValueView::Text(t), ValueView::Text(u)) = (x, y, z) {
            lemma_lex_transitive(encode_utf8(s), encode_utf8(t), encode_utf8(u), byte_lt(), 0);
        }
    }
}

/// The order of keys is a strict total order.
pub proof fn lemma_key_order(a: Seq<ValueView>, b: Seq<ValueView>, c: Seq<ValueView>)
    ensures
        !key_lt(a, a),
        a != b ==> key_lt(a, b) || key_lt(b, a),
        key_lt(a, b) && key_lt(b, c) ==> key_lt(a, c),
        key_lt(a, b) ==> !key_lt(b, a) && a != b,
{
    lemma_value_order();
    lemma_lex_irreflexive(a, value_order(), 0);
    lemma_lex_irreflexive(b, value_order(), 0);
    if a != b {
        assert(a.subrange(0, 0) =~= b.subrange(0, 0));
        lemma_lex_total(a, b, value_order(), 0);
    }
    if key_lt(a, b) && key_lt(b, c) {
        lemma_lex_transitive(a, b, c, value_order(), 0);
    }
    if key_lt(a, b) && key_lt(b, a) {
        lemma_lex_transitive(a, b, a, value_order(), 0);
    }
}

/// How the bytes `a` stand to the bytes `b`, from position `i` on where
/// they agree before.
pub fn order_bytes(a: &[u8], b: &[u8]) -> (r: Order)
    ensures
        match r {
            Order::Less => bytes_lt(a@, b@),
            Order::Equal => a@ == b@,
            Order::Greater => bytes_lt(b@, a@),
        },
{
    let mut i: usize = 0;
    while i < a.len() && i < b.len()
        invariant
            i <= a.len(),
            i <= b.len(),
            forall|j: int| 0 <= j < i ==> a[j] == b[j],
            bytes_lt(a@, b@) == lex_lt(a@, b@, byte_lt(), i as int),
            bytes_lt(b@, a@) == lex_lt(b@, a@, byte_lt(), i as int),
        decreases a.len() - i,
    {
        if a[i] < b[i] {
            return Order::Less;
        }
        if a[i] > b[i] {
            return Order::Greater;
        }
        i += 1;
    }
    if i < b.len() {
        Order::Less
    } else if i < a.len() {
        Order::Greater
    } else {
        assert(a@ =~= b@);
        Order::Equal
    }
}

/// How the value `a` stands to the value `b`.
pub fn order_values(a: &Value, b: &Value) -> (r: Order)
    ensures
        match r {
            Order::Less => value_lt(a@, b@),
            Order::Equal => a@ == b@,
            Order::Greater => value_lt(b@, a@),
        },
{
    match (a, b) {
        (Value::Int(x), Value::Int(y)) => {
            if *x < *y {
                Order::Less
            } else if *x > *y {
                Order::Greater
            } else {
                Order::Equal
            }
        },
        (Value::Text(s), Value::Text(t)) => {
            proof {
                vstd::utf8::encode_utf8_decode_utf8(s@);
                vstd::utf8::encode_utf8_decode_utf8(t@);
            }
            order_bytes(s.as_str().as_bytes(), t.as_str().as_bytes())
        },
        (Value::Bool(x), Value::Bool(y)) => {
            if !*x && *y {
                Order::Less
            } else if *x && !*y {
                Order::Greater
            } else {
                Order::Equal
            }
        },
        (Value::Null, Value::Null) => Order::Equal,
        (Value::Int(_), _) => Order::Less,
        (_, Value::Int(_)) => Order::Greater,
        (Value::Text(_), _) => Order::Less,
        (_, Value::Text(_)) => Order::Greater,
        (Value::Bool(_), _) => Order::Less,
        (_, Value::Bool(_)) => Order::Greater,
    }
}

/// How the key `a` stands to the key `b`.
pub fn order_keys(a: &Vec<Value>, b: &Vec<Value>) -> (r: Order)
    ensures
        match r {
            Order::Less => key_lt(values_view(a@), values_view(b@)),
            Order::Equal => values_view(a@) == values_view(b@),
            Order::Greater => key_lt(values_view(b@), values_view(a@)),
        },
{
    let ghost x = values_view(a@);
    let ghost y = values_view(b@);
    let mut i: usize = 0;
    while i < a.len() && i < b.len()
        invariant
            i <= a.len(),
            i <= b.len(),
            x == values_view(a@),
            y == values_view(b@),
            forall|j: int| 0 <= j < i ==> x[j] == y[j],
            key_lt(x, y) == lex_lt(x, y, value_order(), i as int),
            key_lt(y, x) == lex_lt(y, x, value_order(), i as int),
        decreases a.len() - i,
    {
        assert(x[i as int] == a[i as int]@ && y[i as int] == b[i as int]@);
        match order_values(&a[i], &b[i]) {
            Order::Less => {
                proof {
                    lemma_value_order();
                    let lt = value_order();
                    assert(lt(x[i as int], y[i as int]));
                    assert(!lt(x[i as int], x[i as int]));
                }
                return Order::Less;
            },
            Order::Greater => {
                proof {
                    lemma_value_order();
                    let lt = value_order();
                    assert(lt(y[i as int], x[i as int]));
                    assert(!lt(x[i as int], x[i as int]));
                }
                return Order::Greater;
            },
            Order::Equal => {},
        }
        i += 1;
    }
    if i < b.len() {
        Order::Less
    } else if i < a.len() {
        Order::Greater
    } else {
        assert(x =~= y);
        Order::Equal
    }
}

} // verus!
