use bolt_proto::message::{Message, Success};
use bolt_proto::value::{BoltMap, BoltValue, List, Node};
use bolt_proto::value_map::ValueMap;

fn string(s: &str) -> BoltValue {
    BoltValue::String(s.to_string())
}

fn map(entries: Vec<(&str, BoltValue)>) -> BoltMap {
    BoltMap::from_entries(entries.into_iter().map(|(k, v)| (string(k), v)).collect())
}

fn value_map(entries: Vec<(&str, BoltValue)>) -> ValueMap {
    ValueMap::from_entries(entries.into_iter().map(|(k, v)| (k.to_string(), v)).collect())
}

#[test]
fn maps_equal_whatever_the_order_of_entries() {
    let a = map(vec![("a", BoltValue::Integer(1)), ("b", BoltValue::Null), ("c", string("x"))]);
    let b = map(vec![("c", string("x")), ("a", BoltValue::Integer(1)), ("b", BoltValue::Null)]);
    assert_ne!(a.value, b.value);
    assert_eq!(a, b);
    assert_eq!(BoltValue::Dictionary(a), BoltValue::Dictionary(b));
}

#[test]
fn maps_that_differ_in_a_value_are_not_equal() {
    let a = map(vec![("a", BoltValue::Integer(1)), ("b", BoltValue::Integer(2))]);
    let b = map(vec![("b", BoltValue::Integer(2)), ("a", BoltValue::Integer(3))]);
    assert_ne!(a, b);
}

#[test]
fn maps_that_differ_in_a_key_are_not_equal() {
    let a = map(vec![("a", BoltValue::Integer(1))]);
    let b = map(vec![("b", BoltValue::Integer(1))]);
    assert_ne!(a, b);
}

#[test]
fn maps_of_different_sizes_are_not_equal() {
    let a = map(vec![("a", BoltValue::Integer(1))]);
    let b = map(vec![("a", BoltValue::Integer(1)), ("b", BoltValue::Integer(2))]);
    assert_ne!(a, b);
    assert_ne!(b, a);
}

#[test]
fn nested_maps_equal_whatever_the_order() {
    let inner_a = map(vec![("x", BoltValue::Integer(1)), ("y", BoltValue::Integer(2))]);
    let inner_b = map(vec![("y", BoltValue::Integer(2)), ("x", BoltValue::Integer(1))]);
    let a = BoltValue::List(List { value: vec![BoltValue::Dictionary(inner_a), BoltValue::Null] });
    let b = BoltValue::List(List { value: vec![BoltValue::Dictionary(inner_b), BoltValue::Null] });
    assert_eq!(a, b);
}

#[test]
fn list_order_matters() {
    let a = BoltValue::List(List { value: vec![BoltValue::Integer(1), BoltValue::Integer(2)] });
    let b = BoltValue::List(List { value: vec![BoltValue::Integer(2), BoltValue::Integer(1)] });
    assert_ne!(a, b);
}

#[test]
fn values_of_different_kinds_are_not_equal() {
    assert_ne!(BoltValue::Integer(0), BoltValue::Null);
    assert_ne!(BoltValue::Boolean(false), BoltValue::Integer(0));
    assert_ne!(string("1"), BoltValue::Integer(1));
}

#[test]
fn nodes_with_reordered_properties_are_equal() {
    let a = Node::new(
        BoltValue::Integer(7),
        BoltValue::List(List { value: vec![string("Person")] }),
        BoltValue::Dictionary(map(vec![("name", string("Ada")), ("born", BoltValue::Integer(1815))])),
    );
    let b = Node::new(
        BoltValue::Integer(7),
        BoltValue::List(List { value: vec![string("Person")] }),
        BoltValue::Dictionary(map(vec![("born", BoltValue::Integer(1815)), ("name", string("Ada"))])),
    );
    assert_eq!(BoltValue::Node(a), BoltValue::Node(b));
}

#[test]
fn value_maps_equal_whatever_the_order() {
    let a = value_map(vec![("server", string("Neo4j/4.1")), ("connection_id", string("bolt-1"))]);
    let b = value_map(vec![("connection_id", string("bolt-1")), ("server", string("Neo4j/4.1"))]);
    assert_eq!(a, b);
    let c = value_map(vec![("connection_id", string("bolt-2")), ("server", string("Neo4j/4.1"))]);
    assert_ne!(a, c);
}

#[test]
fn messages_with_reordered_metadata_are_equal() {
    let a = Message::Success(Success::new(value_map(vec![
        ("fields", BoltValue::List(List { value: vec![string("n")] })),
        ("t_first", BoltValue::Integer(2)),
    ])));
    let b = Message::Success(Success::new(value_map(vec![
        ("t_first", BoltValue::Integer(2)),
        ("fields", BoltValue::List(List { value: vec![string("n")] })),
    ])));
    assert_eq!(a, b);
}

#[test]
fn a_value_equals_its_clone() {
    let v = BoltValue::Dictionary(map(vec![
        ("a", BoltValue::List(List { value: vec![BoltValue::Float(1.5f64.to_bits())] })),
        ("b", BoltValue::Null),
    ]));
    assert_eq!(v.clone(), v);
}
