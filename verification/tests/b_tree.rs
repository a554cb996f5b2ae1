use povertygres::types::b_tree::{BTreeIndex, KeyBound};
use povertygres::types::storage_types::Value;
use povertygres::types::value_order::{order_keys, order_values, Order};

fn idx() -> BTreeIndex {
    BTreeIndex::new("i".to_string(), "t".to_string(), vec!["a".to_string()])
}

fn k(n: i64) -> Vec<Value> {
    vec![Value::Int(n)]
}

#[test]
fn new_index_is_empty() {
    let i = idx();
    assert_eq!(i.name, "i");
    assert_eq!(i.table, "t");
    assert_eq!(i.columns, vec!["a".to_string()]);
    assert!(i.map.is_empty());
    assert!(i.search_eq(&k(1)).is_none());
}

#[test]
fn insert_appends_to_the_bucket_and_keeps_keys_in_order() {
    let mut i = idx();
    i.insert(k(5), (0, 0));
    i.insert(k(1), (0, 1));
    i.insert(k(3), (0, 2));
    i.insert(k(5), (1, 0));
    let keys: Vec<Vec<Value>> = i.map.iter().map(|e| e.key.clone()).collect();
    assert_eq!(keys, vec![k(1), k(3), k(5)]);
    assert_eq!(i.search_eq(&k(5)), Some(&vec![(0, 0), (1, 0)]));
    assert_eq!(i.search_eq(&k(1)), Some(&vec![(0, 1)]));
    assert_eq!(i.search_eq(&k(2)), None);
}

#[test]
fn remove_takes_one_position_and_drops_empty_keys() {
    let mut i = idx();
    i.insert(k(5), (0, 0));
    i.insert(k(5), (1, 0));
    i.insert(k(7), (2, 0));
    i.remove(&k(5), (0, 0));
    assert_eq!(i.search_eq(&k(5)), Some(&vec![(1, 0)]));
    i.remove(&k(5), (9, 9));
    assert_eq!(i.search_eq(&k(5)), Some(&vec![(1, 0)]));
    i.remove(&k(5), (1, 0));
    assert_eq!(i.search_eq(&k(5)), None);
    assert_eq!(i.map.len(), 1);
    i.remove(&k(6), (0, 0));
    assert_eq!(i.search_eq(&k(7)), Some(&vec![(2, 0)]));
}

#[test]
fn delete_keeps_the_key() {
    let mut i = idx();
    i.insert(k(5), (0, 0));
    assert!(!i.delete(&k(5), (1, 1)));
    assert!(i.delete(&k(5), (0, 0)));
    assert_eq!(i.search_eq(&k(5)), Some(&vec![]));
    assert!(!i.delete(&k(6), (0, 0)));
}

#[test]
fn search_range_honours_its_bounds() {
    let mut i = idx();
    for n in 1..=5 {
        i.insert(k(n), (0, n as usize));
    }
    assert_eq!(
        i.search_range(KeyBound::Included(k(2)), KeyBound::Excluded(k(4))),
        vec![(0, 2), (0, 3)]
    );
    assert_eq!(
        i.search_range(KeyBound::Excluded(k(2)), KeyBound::Included(k(4))),
        vec![(0, 3), (0, 4)]
    );
    assert_eq!(i.search_range(KeyBound::Unbounded, KeyBound::Excluded(k(2))), vec![(0, 1)]);
    assert_eq!(i.search_range(KeyBound::Excluded(k(4)), KeyBound::Unbounded), vec![(0, 5)]);
    assert_eq!(i.search_range(KeyBound::Unbounded, KeyBound::Unbounded).len(), 5);
    assert!(i.search_range(KeyBound::Included(k(4)), KeyBound::Included(k(2))).is_empty());
}

#[test]
fn search_prefix_finds_composite_keys() {
    let mut i = BTreeIndex::new(
        "i".to_string(),
        "t".to_string(),
        vec!["a".to_string(), "b".to_string()],
    );
    i.insert(vec![Value::Int(1), Value::Text("x".to_string())], (0, 0));
    i.insert(vec![Value::Int(2), Value::Text("a".to_string())], (0, 1));
    i.insert(vec![Value::Int(1), Value::Text("b".to_string())], (0, 2));
    assert_eq!(i.search_prefix(&k(1)), vec![(0, 2), (0, 0)]);
    assert_eq!(i.search_prefix(&k(2)), vec![(0, 1)]);
    assert!(i.search_prefix(&k(3)).is_empty());
    assert_eq!(i.search_prefix(&vec![]).len(), 3);
}

#[test]
fn values_are_ordered_by_kind_then_by_content() {
    let int = Value::Int(i64::MAX);
    let text = Value::Text(String::new());
    let flag = Value::Bool(false);
    assert_eq!(order_values(&int, &text), Order::Less);
    assert_eq!(order_values(&text, &flag), Order::Less);
    assert_eq!(order_values(&flag, &Value::Null), Order::Less);
    assert_eq!(order_values(&Value::Null, &int), Order::Greater);
    assert_eq!(order_values(&Value::Null, &Value::Null), Order::Equal);
    assert_eq!(order_values(&Value::Int(-1), &Value::Int(0)), Order::Less);
    assert_eq!(order_values(&Value::Bool(true), &Value::Bool(false)), Order::Greater);
    assert_eq!(
        order_values(&Value::Text("Zebra".to_string()), &Value::Text("apple".to_string())),
        Order::Less
    );
    assert_eq!(
        order_values(&Value::Text("ab".to_string()), &Value::Text("abc".to_string())),
        Order::Less
    );
    assert_eq!(
        order_values(&Value::Text("z".to_string()), &Value::Text("\u{e9}".to_string())),
        Order::Less
    );
    assert_eq!(
        order_values(&Value::Text("x".to_string()), &Value::Text("x".to_string())),
        Order::Equal
    );
}

#[test]
fn the_order_of_values_is_that_of_the_derived_one() {
    let vs = vec![
        Value::Int(-3),
        Value::Int(8),
        Value::Text("a".to_string()),
        Value::Text("B".to_string()),
        Value::Text("\u{4e16}".to_string()),
        Value::Bool(false),
        Value::Bool(true),
        Value::Null,
    ];
    for a in &vs {
        for b in &vs {
            let how = order_values(a, b);
            let expected = if a == b {
                Order::Equal
            } else {
                // the kinds ascend in the order of the list above
                let ia = vs.iter().position(|v| v == a).unwrap();
                let ib = vs.iter().position(|v| v == b).unwrap();
                let (x, y) = match (a, b) {
                    (Value::Text(s), Value::Text(t)) => (s.as_bytes() < t.as_bytes(), true),
                    _ => (ia < ib, false),
                };
                let _ = y;
                if x {
                    Order::Less
                } else {
                    Order::Greater
                }
            };
            assert_eq!(how, expected);
        }
    }
}

#[test]
fn keys_are_ordered_value_by_value() {
    assert_eq!(order_keys(&vec![], &k(1)), Order::Less);
    assert_eq!(order_keys(&k(1), &vec![Value::Int(1), Value::Null]), Order::Less);
    assert_eq!(order_keys(&vec![Value::Int(2)], &vec![Value::Int(1), Value::Null]), Order::Greater);
    assert_eq!(order_keys(&k(1), &k(1)), Order::Equal);
}
