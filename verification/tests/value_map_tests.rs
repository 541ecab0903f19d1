use bolt_proto::value::BoltValue;
use bolt_proto::value_map::ValueMap;

#[test]
fn create_metadata() {
    let empty_map: ValueMap = Default::default();
    assert!(empty_map.value.is_empty());
    let value_map = ValueMap::from_entries(vec![(
        "key".to_string(),
        BoltValue::String("value".to_string()),
    )]);
    assert_eq!(
        vec![(String::from("key"), BoltValue::String(String::from("value")))],
        value_map.value
    );
}

#[test]
fn get_after_insert() {
    let mut map = ValueMap::new();
    map.insert("a".to_string(), BoltValue::Integer(1));
    map.insert("b".to_string(), BoltValue::Integer(2));
    map.insert("a".to_string(), BoltValue::Integer(3));
    assert_eq!(map.get("a"), Some(&BoltValue::Integer(3)));
    assert_eq!(map.get("b"), Some(&BoltValue::Integer(2)));
    assert_eq!(map.get("c"), None);
    assert_eq!(map.len(), 2);
}

#[test]
fn remove_takes_the_entry_out() {
    let mut map = ValueMap::from_entries(vec![
        ("a".to_string(), BoltValue::Integer(1)),
        ("b".to_string(), BoltValue::Null),
    ]);
    assert_eq!(map.remove("a"), Some(BoltValue::Integer(1)));
    assert_eq!(map.remove("a"), None);
    assert_eq!(map.value, vec![("b".to_string(), BoltValue::Null)]);
}

#[test]
fn later_entries_replace_earlier_ones() {
    let map = ValueMap::from_entries(vec![
        ("k".to_string(), BoltValue::Integer(1)),
        ("k".to_string(), BoltValue::Integer(2)),
    ]);
    assert_eq!(map.value, vec![("k".to_string(), BoltValue::Integer(2))]);
}
