use bolt_proto::error::{ConversionError, DeserializationError};
use bolt_proto::value::{BoltMap, BoltValue, List, Node, Path, Relationship, UnboundRelationship};

fn string(s: &str) -> BoltValue {
    BoltValue::String(s.to_string())
}

fn round_trip(value: BoltValue) {
    let bytes = value.try_into_bytes().unwrap();
    assert_eq!(BoltValue::try_from_bytes(&bytes).unwrap(), value);
}

fn letter_map() -> BoltMap {
    let entries: Vec<(BoltValue, BoltValue)> = vec![
        ("a", 1),
        ("b", 1),
        ("c", 3),
        ("d", 4),
        ("e", 5),
        ("f", 6),
        ("g", 7),
        ("h", 8),
        ("i", 9),
        ("j", 0),
        ("k", 1),
        ("l", 2),
        ("m", 3),
        ("n", 4),
        ("o", 5),
        ("p", 6),
    ]
    .into_iter()
    .map(|(k, v)| (string(k), BoltValue::Integer(v)))
    .collect();
    BoltMap::from_entries(entries)
}

#[test]
fn null_from_bytes() {
    let null = BoltValue::Null;
    let null_bytes = null.try_into_bytes().unwrap();
    assert_eq!(BoltValue::try_from_bytes(&null_bytes).unwrap(), BoltValue::Null);
}

#[test]
fn boolean_from_bytes() {
    let t = BoltValue::Boolean(true);
    let true_bytes = t.try_into_bytes().unwrap();
    let f = BoltValue::Boolean(false);
    let false_bytes = f.try_into_bytes().unwrap();
    assert_eq!(BoltValue::try_from_bytes(&true_bytes).unwrap(), t);
    assert_eq!(BoltValue::try_from_bytes(&false_bytes).unwrap(), f);
}

#[test]
fn integer_from_bytes() {
    let tiny = BoltValue::Integer(110);
    let tiny_bytes = tiny.try_into_bytes().unwrap();
    let small = BoltValue::Integer(-50);
    let small_bytes = small.try_into_bytes().unwrap();
    let medium = BoltValue::Integer(8000);
    let medium_bytes = medium.try_into_bytes().unwrap();
    let large = BoltValue::Integer(-1_000_000_000);
    let large_bytes = large.try_into_bytes().unwrap();
    let very_large = BoltValue::Integer(9_000_000_000_000_000_000);
    let very_large_bytes = very_large.try_into_bytes().unwrap();
    assert_eq!(BoltValue::try_from_bytes(&tiny_bytes).unwrap(), tiny);
    assert_eq!(BoltValue::try_from_bytes(&small_bytes).unwrap(), small);
    assert_eq!(BoltValue::try_from_bytes(&medium_bytes).unwrap(), medium);
    assert_eq!(BoltValue::try_from_bytes(&large_bytes).unwrap(), large);
    assert_eq!(BoltValue::try_from_bytes(&very_large_bytes).unwrap(), very_large);
}

#[test]
fn float_from_bytes() {
    let min = BoltValue::Float(f64::MIN_POSITIVE.to_bits());
    let min_bytes = min.try_into_bytes().unwrap();
    let max = BoltValue::Float(f64::MAX.to_bits());
    let max_bytes = max.try_into_bytes().unwrap();
    let e = BoltValue::Float(std::f64::consts::E.to_bits());
    let e_bytes = e.try_into_bytes().unwrap();
    let pi = BoltValue::Float(std::f64::consts::PI.to_bits());
    let pi_bytes = pi.try_into_bytes().unwrap();
    assert_eq!(BoltValue::try_from_bytes(&min_bytes).unwrap(), min);
    assert_eq!(BoltValue::try_from_bytes(&max_bytes).unwrap(), max);
    assert_eq!(BoltValue::try_from_bytes(&e_bytes).unwrap(), e);
    assert_eq!(BoltValue::try_from_bytes(&pi_bytes).unwrap(), pi);
}

#[test]
fn string_from_bytes() {
    let tiny = BoltValue::String("string".repeat(1));
    let tiny_bytes = tiny.try_into_bytes().unwrap();
    let small = BoltValue::String("string".repeat(10));
    let small_bytes = small.try_into_bytes().unwrap();
    let medium = BoltValue::String("string".repeat(1000));
    let medium_bytes = medium.try_into_bytes().unwrap();
    let large = BoltValue::String("string".repeat(100_000));
    let large_bytes = large.try_into_bytes().unwrap();
    assert_eq!(BoltValue::try_from_bytes(&tiny_bytes).unwrap(), tiny);
    assert_eq!(BoltValue::try_from_bytes(&small_bytes).unwrap(), small);
    assert_eq!(BoltValue::try_from_bytes(&medium_bytes).unwrap(), medium);
    assert_eq!(BoltValue::try_from_bytes(&large_bytes).unwrap(), large);
}

#[test]
fn list_from_bytes() {
    let empty_list = BoltValue::List(List::from_vec(vec![]));
    let empty_list_bytes = empty_list.try_into_bytes().unwrap();
    let tiny_list = BoltValue::List(List::from_vec(vec![
        BoltValue::Integer(100_000_000_000);
        10
    ]));
    let tiny_list_bytes = tiny_list.try_into_bytes().unwrap();
    let small_list = BoltValue::List(List::from_vec(vec![string("item"); 100]));
    let small_list_bytes = small_list.try_into_bytes().unwrap();
    let medium_list = BoltValue::List(List::from_vec(vec![BoltValue::Boolean(false); 1000]));
    let medium_list_bytes = medium_list.try_into_bytes().unwrap();
    assert_eq!(BoltValue::try_from_bytes(&empty_list_bytes).unwrap(), empty_list);
    assert_eq!(BoltValue::try_from_bytes(&tiny_list_bytes).unwrap(), tiny_list);
    assert_eq!(BoltValue::try_from_bytes(&small_list_bytes).unwrap(), small_list);
    assert_eq!(BoltValue::try_from_bytes(&medium_list_bytes).unwrap(), medium_list);
}

#[test]
fn map_from_bytes() {
    let empty_map = BoltValue::Dictionary(BoltMap::new());
    let empty_map_bytes = empty_map.try_into_bytes().unwrap();
    let tiny_map =
        BoltValue::Dictionary(BoltMap::from_entries(vec![(string("a"), BoltValue::Integer(1))]));
    let tiny_map_bytes = tiny_map.try_into_bytes().unwrap();
    let small_map = BoltValue::Dictionary(letter_map());
    let small_map_bytes = small_map.try_into_bytes().unwrap();
    assert_eq!(BoltValue::try_from_bytes(&empty_map_bytes).unwrap(), empty_map);
    assert_eq!(BoltValue::try_from_bytes(&tiny_map_bytes).unwrap(), tiny_map);
    assert_eq!(BoltValue::try_from_bytes(&small_map_bytes).unwrap(), small_map);
}

#[test]
fn node_from_bytes() {
    let node = BoltValue::Node(Node::new(
        BoltValue::Integer(42),
        BoltValue::List(List::from_vec(vec![string("Person"), string("Author")])),
        BoltValue::Dictionary(BoltMap::from_entries(vec![(string("name"), string("Ada"))])),
    ));
    let bytes = node.try_into_bytes().unwrap();
    assert_eq!(&bytes[..2], &[0xB3, 0x4E]);
    assert_eq!(BoltValue::try_from_bytes(&bytes).unwrap(), node);
}

#[test]
fn relationship_from_bytes() {
    let rel = BoltValue::Relationship(Relationship::new(
        BoltValue::Integer(7),
        BoltValue::Integer(1),
        BoltValue::Integer(2),
        string("KNOWS"),
        BoltValue::Dictionary(BoltMap::from_entries(vec![(
            string("since"),
            BoltValue::Integer(1999),
        )])),
    ));
    let bytes = rel.try_into_bytes().unwrap();
    assert_eq!(&bytes[..2], &[0xB5, 0x52]);
    assert_eq!(BoltValue::try_from_bytes(&bytes).unwrap(), rel);
}

#[test]
fn path_from_bytes() {
    let node = BoltValue::Node(Node::new(
        BoltValue::Integer(1),
        BoltValue::List(List::from_vec(vec![string("Person")])),
        BoltValue::Dictionary(BoltMap::new()),
    ));
    let unbound = BoltValue::UnboundRelationship(UnboundRelationship::new(
        BoltValue::Integer(3),
        string("KNOWS"),
        BoltValue::Dictionary(BoltMap::new()),
    ));
    let path = BoltValue::Path(Path::new(
        BoltValue::List(List::from_vec(vec![node.clone(), node])),
        BoltValue::List(List::from_vec(vec![unbound])),
        BoltValue::List(List::from_vec(vec![BoltValue::Integer(1), BoltValue::Integer(1)])),
    ));
    let bytes = path.try_into_bytes().unwrap();
    assert_eq!(&bytes[..2], &[0xB3, 0x50]);
    assert_eq!(BoltValue::try_from_bytes(&bytes).unwrap(), path);
}

#[test]
fn unbound_relationship_from_bytes() {
    let unbound = BoltValue::UnboundRelationship(UnboundRelationship::new(
        BoltValue::Integer(3),
        string("KNOWS"),
        BoltValue::Dictionary(BoltMap::from_entries(vec![(
            string("weight"),
            BoltValue::Float(0.5f64.to_bits()),
        )])),
    ));
    let bytes = unbound.try_into_bytes().unwrap();
    assert_eq!(&bytes[..2], &[0xB3, 0x72]);
    assert_eq!(BoltValue::try_from_bytes(&bytes).unwrap(), unbound);
}

#[test]
fn map_get_marker() {
    let empty_map = BoltMap::new();
    assert_eq!(empty_map.get_marker().unwrap(), 0xA0);
    let tiny_map = BoltMap::from_entries(vec![
        (string("a"), BoltValue::Integer(1)),
        (string("b"), BoltValue::Integer(2)),
        (string("c"), BoltValue::Integer(3)),
    ]);
    assert_eq!(tiny_map.get_marker().unwrap(), 0xA0 | tiny_map.len() as u8);
}

#[test]
fn map_try_into_bytes() {
    let empty_map = BoltMap::new();
    assert_eq!(&empty_map.try_into_bytes().unwrap()[..], &[0xA0 | 0_u8]);
    let tiny_map = BoltMap::from_entries(vec![(string("a"), BoltValue::Integer(1))]);
    assert_eq!(&tiny_map.try_into_bytes().unwrap()[..], &[0xA0 | 1, 0x81, 0x61, 0x01]);
    let small_map = letter_map();
    let small_len = small_map.len();
    let small_bytes = small_map.try_into_bytes().unwrap();
    assert_eq!(small_bytes[0], 0xD8);
    assert_eq!(small_bytes.len(), 2 + small_len * 3);
}

#[test]
fn map_try_from_bytes() {
    let empty_map = BoltMap::new();
    let empty_map_bytes = empty_map.try_into_bytes().unwrap();
    let tiny_map = BoltMap::from_entries(vec![(string("a"), BoltValue::Integer(1))]);
    let tiny_map_bytes = tiny_map.try_into_bytes().unwrap();
    let small_map = letter_map();
    let small_map_bytes = small_map.try_into_bytes().unwrap();
    assert_eq!(BoltMap::try_from_bytes(&empty_map_bytes).unwrap(), empty_map);
    assert_eq!(BoltMap::try_from_bytes(&tiny_map_bytes).unwrap(), tiny_map);
    assert_eq!(BoltMap::try_from_bytes(&small_map_bytes).unwrap(), small_map);
}

#[test]
fn integer_encodings_are_the_smallest() {
    assert_eq!(&BoltValue::Integer(1).try_into_bytes().unwrap()[..], &[0x01]);
    assert_eq!(&BoltValue::Integer(-16).try_into_bytes().unwrap()[..], &[0xF0]);
    assert_eq!(&BoltValue::Integer(-17).try_into_bytes().unwrap()[..], &[0xC8, 0xEF]);
    assert_eq!(&BoltValue::Integer(128).try_into_bytes().unwrap()[..], &[0xC9, 0x00, 0x80]);
    assert_eq!(
        &BoltValue::Integer(40_000).try_into_bytes().unwrap()[..],
        &[0xCA, 0x00, 0x00, 0x9C, 0x40]
    );
    assert_eq!(
        &BoltValue::Integer(i64::MIN).try_into_bytes().unwrap()[..],
        &[0xCB, 0x80, 0, 0, 0, 0, 0, 0, 0]
    );
}

#[test]
fn string_and_float_encodings() {
    assert_eq!(
        &string("abc").try_into_bytes().unwrap()[..],
        &[0x83, 0x61, 0x62, 0x63]
    );
    let sixteen = "a".repeat(16);
    let bytes = BoltValue::String(sixteen).try_into_bytes().unwrap();
    assert_eq!(&bytes[..2], &[0xD0, 16]);
    assert_eq!(
        &BoltValue::Float(1.5f64.to_bits()).try_into_bytes().unwrap()[..],
        &[0xC1, 0x3F, 0xF8, 0, 0, 0, 0, 0, 0]
    );
}

#[test]
fn value_markers() {
    assert_eq!(BoltValue::Null.get_marker().unwrap(), 0xC0);
    assert_eq!(BoltValue::Boolean(true).get_marker().unwrap(), 0xC3);
    assert_eq!(BoltValue::Integer(1000).get_marker().unwrap(), 0xC9);
    assert_eq!(string("hey").get_marker().unwrap(), 0x83);
    assert_eq!(
        BoltValue::List(List::from_vec(vec![BoltValue::Null; 20])).get_marker().unwrap(),
        0xD4
    );
    assert_eq!(List::from_vec(vec![BoltValue::Null; 2]).get_marker().unwrap(), 0x92);
}

#[test]
fn decoding_reports_each_error() {
    assert_eq!(BoltValue::try_from_bytes(&[]), Err(DeserializationError::Panicked));
    assert_eq!(BoltValue::try_from_bytes(&[0xC9, 0x01]), Err(DeserializationError::Panicked));
    assert_eq!(
        BoltValue::try_from_bytes(&[0xC7]),
        Err(DeserializationError::InvalidMarkerByte(0xC7))
    );
    assert_eq!(
        BoltValue::try_from_bytes(&[0xB1, 0x01, 0x00]),
        Err(DeserializationError::InvalidSignatureByte(0x01))
    );
    assert_eq!(
        BoltValue::try_from_bytes(&[0x82, 0xFF, 0xFE]),
        Err(DeserializationError::InvalidUTF8(vec![0xFF, 0xFE]))
    );
    assert_eq!(
        BoltMap::try_from_bytes(&[0x01]),
        Err(DeserializationError::ConversionError(ConversionError::FromValue(
            BoltValue::Integer(1)
        )))
    );
    assert_eq!(
        List::try_from_bytes(&[0xA0]),
        Err(DeserializationError::ConversionError(ConversionError::FromValue(
            BoltValue::Dictionary(BoltMap::new())
        )))
    );
}

#[test]
fn decoding_stops_after_the_value() {
    let (value, used) = BoltValue::deserialize(&[0x92, 0x01, 0x02, 0xFF, 0xFF]).unwrap();
    assert_eq!(
        value,
        BoltValue::List(List::from_vec(vec![BoltValue::Integer(1), BoltValue::Integer(2)]))
    );
    assert_eq!(used, 3);
}

#[test]
fn decoded_maps_keep_the_last_of_equal_keys() {
    let bytes = [0xA2, 0x81, 0x61, 0x01, 0x81, 0x61, 0x02];
    let map = BoltMap::try_from_bytes(&bytes).unwrap();
    assert_eq!(map.value, vec![(string("a"), BoltValue::Integer(2))]);
}

#[test]
fn map_insert_replaces_and_appends() {
    let mut map = BoltMap::new();
    map.insert(string("a"), BoltValue::Integer(1));
    map.insert(string("b"), BoltValue::Integer(2));
    map.insert(string("a"), BoltValue::Integer(3));
    assert_eq!(
        map.value,
        vec![(string("a"), BoltValue::Integer(3)), (string("b"), BoltValue::Integer(2))]
    );
}

#[test]
fn conversions_from_values() {
    assert_eq!(
        List::try_from_value(BoltValue::List(List::new())).unwrap(),
        List::new()
    );
    assert_eq!(
        BoltMap::try_from_value(BoltValue::Null),
        Err(ConversionError::FromValue(BoltValue::Null))
    );
    let node = Node::new(BoltValue::Integer(1), BoltValue::Null, BoltValue::Null);
    let same = Node::new(BoltValue::Integer(1), BoltValue::Null, BoltValue::Null);
    assert_eq!(Node::try_from_value(BoltValue::Node(node)).unwrap(), same);
    assert_eq!(
        Path::try_from_value(BoltValue::Boolean(true)),
        Err(ConversionError::FromValue(BoltValue::Boolean(true)))
    );
}

#[test]
fn every_value_survives_a_round_trip() {
    round_trip(BoltValue::Integer(i64::MAX));
    round_trip(string("ünïcödé ✓"));
    round_trip(BoltValue::List(List::from_vec(vec![
        BoltValue::Dictionary(letter_map()),
        BoltValue::Null,
    ])));
}

#[test]
fn decoded_values_reencode_to_themselves() {
    // A non-minimal encoding of 1, and a map whose second entry repeats the first key.
    for bytes in [&[0xC8u8, 0x01][..], &[0xA2, 0x81, 0x61, 0x01, 0x81, 0x61, 0x02][..]] {
        let value = BoltValue::try_from_bytes(bytes).unwrap();
        let again = value.try_into_bytes().unwrap();
        assert_eq!(BoltValue::try_from_bytes(&again).unwrap(), value);
    }
    assert_eq!(&BoltValue::try_from_bytes(&[0xC8, 0x01]).unwrap().try_into_bytes().unwrap()[..], &[0x01]);
}
