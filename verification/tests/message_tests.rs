use bolt_proto::error::{ConversionError, DeserializationError};
use bolt_proto::message::{
    Begin, Hello, Init, Message, Pull, Record, Route, RouteWithMetadata, Run, RunWithMetadata,
    Success,
};
use bolt_proto::message_codec::message_from_values;
use bolt_proto::messages::{AckFailure, BoltInit, DiscardAll, Goodbye, Ignored, PullAll, Reset};
use bolt_proto::value::{BoltMap, BoltValue, List};
use bolt_proto::value_map::ValueMap;

fn string(s: &str) -> BoltValue {
    BoltValue::String(s.to_string())
}

fn metadata(entries: Vec<(&str, BoltValue)>) -> ValueMap {
    ValueMap::from_entries(entries.into_iter().map(|(k, v)| (k.to_string(), v)).collect())
}

fn new_init() -> BoltInit {
    BoltInit::new(
        "MyClient/1.0",
        BoltMap::from_entries(vec![(string("scheme"), string("basic"))]),
    )
}

fn round_trip(message: Message) {
    let expected = message.clone();
    let bytes = message.serialize().unwrap();
    let (decoded, used) = Message::deserialize(&bytes).unwrap();
    assert_eq!(decoded, expected);
    assert_eq!(used, bytes.len());
}

#[test]
fn init_get_marker() {
    assert_eq!(new_init().get_marker().unwrap(), 0xB2);
}

#[test]
fn init_get_signature() {
    assert_eq!(new_init().get_signature(), 0x01);
}

#[test]
fn init_try_into_bytes() {
    assert_eq!(
        &new_init().try_into_bytes().unwrap()[..],
        &[
            0xB2, 0x01, 0x8C, 0x4D, 0x79, 0x43, 0x6C, 0x69, 0x65, 0x6E, 0x74, 0x2F, 0x31, 0x2E,
            0x30, 0xA1, 0x86, 0x73, 0x63, 0x68, 0x65, 0x6D, 0x65, 0x85, 0x62, 0x61, 0x73, 0x69,
            0x63,
        ]
    );
}

#[test]
fn ack_failure_get_marker() {
    assert_eq!(AckFailure.get_marker().unwrap(), 0xB0);
}

#[test]
fn ack_failure_get_signature() {
    assert_eq!(AckFailure.get_signature(), 0x0E);
}

#[test]
fn ack_failure_try_into_bytes() {
    let msg = AckFailure;
    assert_eq!(&msg.try_into_bytes().unwrap()[..], &[0xB0, 0x0E]);
}

#[test]
fn empty_messages_encode_as_marker_and_signature() {
    assert_eq!(&DiscardAll.try_into_bytes().unwrap()[..], &[0xB0, 0x2F]);
    assert_eq!(&PullAll.try_into_bytes().unwrap()[..], &[0xB0, 0x3F]);
    assert_eq!(&Reset.try_into_bytes().unwrap()[..], &[0xB0, 0x0F]);
    assert_eq!(&Ignored.try_into_bytes().unwrap()[..], &[0xB0, 0x7E]);
    assert_eq!(&Goodbye.try_into_bytes().unwrap()[..], &[0xB0, 0x02]);
    assert_eq!(&Message::Commit.serialize().unwrap()[..], &[0xB0, 0x12]);
}

#[test]
fn record_try_from_bytes() {
    let bytes = [0xB1, 0x71, 0x93, 0x01, 0x02, 0x03];
    let (message, used) = Message::deserialize(&bytes).unwrap();
    assert_eq!(used, 6);
    let record = Record::try_from_message(message).unwrap();
    assert_eq!(
        record.fields(),
        &[BoltValue::Integer(1), BoltValue::Integer(2), BoltValue::Integer(3)]
    );
}

#[test]
fn run_try_from_bytes() {
    let bytes = [
        0xB2, 0x10, 0x8F, 0x52, 0x45, 0x54, 0x55, 0x52, 0x4E, 0x20, 0x31, 0x20, 0x41, 0x53, 0x20,
        0x6E, 0x75, 0x6D, 0xA0,
    ];
    let (message, _) = Message::deserialize(&bytes).unwrap();
    let run = Run::try_from_message(message).unwrap();
    assert_eq!(run.query(), "RETURN 1 AS num");
    assert!(run.parameters().is_empty());
}

#[test]
fn messages_survive_a_round_trip() {
    round_trip(Message::Init(Init::new(
        "client/1.0".to_string(),
        metadata(vec![("scheme", string("none"))]),
    )));
    round_trip(Message::Run(Run::new("RETURN 1;".to_string(), ValueMap::new())));
    round_trip(Message::DiscardAll);
    round_trip(Message::PullAll);
    round_trip(Message::AckFailure);
    round_trip(Message::Reset);
    round_trip(Message::Record(Record::new(vec![BoltValue::Integer(3458376)])));
    round_trip(Message::Success(Success::new(metadata(vec![("has_more", BoltValue::Boolean(true))]))));
    round_trip(Message::Ignored);
    round_trip(Message::Hello(Hello::new(metadata(vec![("user_agent", string("x/1"))]))));
    round_trip(Message::Goodbye);
    round_trip(Message::RunWithMetadata(RunWithMetadata::new(
        "RETURN $n;".to_string(),
        metadata(vec![("n", BoltValue::Integer(1))]),
        metadata(vec![("db", string("neo4j"))]),
    )));
    round_trip(Message::Begin(Begin::new(ValueMap::new())));
    round_trip(Message::Commit);
    round_trip(Message::Rollback);
    round_trip(Message::Pull(Pull::new(metadata(vec![("n", BoltValue::Integer(-1))]))));
    round_trip(Message::Route(Route::new(
        metadata(vec![("address", string("localhost:7687"))]),
        vec!["bookmark".to_string()],
        Some("neo4j".to_string()),
    )));
    round_trip(Message::Route(Route::new(ValueMap::new(), vec![], None)));
    round_trip(Message::RouteWithMetadata(RouteWithMetadata::new(
        ValueMap::new(),
        vec!["a".to_string(), "b".to_string()],
        metadata(vec![("db", string("neo4j"))]),
    )));
}

#[test]
fn shared_signatures_are_told_apart_by_size() {
    let hello = Message::Hello(Hello::new(ValueMap::new())).serialize().unwrap();
    assert_eq!(&hello[..], &[0xB1, 0x01, 0xA0]);
    let pull = Message::Pull(Pull::new(ValueMap::new())).serialize().unwrap();
    assert_eq!(&pull[..], &[0xB1, 0x3F, 0xA0]);
    assert_eq!(
        Message::deserialize(&[0xB0, 0x3F]).unwrap(),
        (Message::PullAll, 2)
    );
}

#[test]
fn message_decoding_errors() {
    assert_eq!(Message::deserialize(&[]), Err(DeserializationError::Panicked));
    assert_eq!(
        Message::deserialize(&[0xC0]),
        Err(DeserializationError::InvalidMarkerByte(0xC0))
    );
    assert_eq!(
        Message::deserialize(&[0xB0, 0x55]),
        Err(DeserializationError::InvalidSignatureByte(0x55))
    );
    assert_eq!(
        Message::deserialize(&[0xB3, 0x01, 0xA0, 0xA0, 0xA0]),
        Err(DeserializationError::InvalidSize { size: 3, signature: 0x01 })
    );
    assert_eq!(
        Message::deserialize(&[0xB1, 0x70, 0x01]),
        Err(DeserializationError::ConversionError(ConversionError::FromValue(
            BoltValue::Integer(1)
        )))
    );
    assert_eq!(
        Message::deserialize(&[0xB1, 0x70, 0xA1, 0x01, 0x01]),
        Err(DeserializationError::ConversionError(ConversionError::FromValue(
            BoltValue::Dictionary(BoltMap::from_entries(vec![(
                BoltValue::Integer(1),
                BoltValue::Integer(1)
            )]))
        )))
    );
    assert_eq!(Message::deserialize(&[0xB1, 0x70]), Err(DeserializationError::Panicked));
}

#[test]
fn route_fields_are_checked() {
    let bytes = [0xB3, 0x66, 0xA0, 0x91, 0x01, 0xC0];
    assert_eq!(
        Message::deserialize(&bytes),
        Err(DeserializationError::ConversionError(ConversionError::FromValue(
            BoltValue::List(List::from_vec(vec![BoltValue::Integer(1)]))
        )))
    );
    let bytes = [0xB3, 0x66, 0xA0, 0x90, 0x01];
    assert_eq!(
        Message::deserialize(&bytes),
        Err(DeserializationError::ConversionError(ConversionError::FromValue(
            BoltValue::Integer(1)
        )))
    );
}

#[test]
fn message_from_values_takes_fields_in_order() {
    let message = message_from_values(
        0x10,
        vec![string("RETURN 1"), BoltValue::Dictionary(BoltMap::new())],
    )
    .unwrap();
    assert_eq!(message, Message::Run(Run::new("RETURN 1".to_string(), ValueMap::new())));
}

#[test]
fn conversions_from_messages() {
    let success = Success::new(ValueMap::new());
    assert_eq!(
        Success::try_from_message(Message::Success(Success::new(ValueMap::new()))).unwrap(),
        success
    );
    assert_eq!(
        Record::try_from_message(Message::Ignored),
        Err(ConversionError::FromMessage(Message::Ignored))
    );
}

#[test]
fn accessors_give_the_fields() {
    let init = Init::new("agent/1".to_string(), metadata(vec![("scheme", string("basic"))]));
    assert_eq!(init.user_agent(), "agent/1");
    assert_eq!(init.auth_token().get("scheme"), Some(&string("basic")));
    let run = RunWithMetadata::new("q".to_string(), ValueMap::new(), metadata(vec![]));
    assert_eq!(run.statement(), "q");
    assert!(run.parameters().is_empty());
    let route = RouteWithMetadata::new(ValueMap::new(), vec!["b1".to_string()], ValueMap::new());
    assert_eq!(route.bookmarks(), &["b1".to_string()]);
    assert!(route.context().is_empty());
    assert!(route.metadata().is_empty());
    assert_eq!(Message::Reset.signature(), 0x0F);
    assert_eq!(Message::Record(Record::new(vec![])).marker(), 0xB1);
}

#[test]
fn ack_failure_try_from_bytes() {
    let msg = AckFailure;
    let msg_bytes: &[u8] = &[];
    assert_eq!(AckFailure::try_from_bytes(msg_bytes).unwrap(), msg);
}

#[test]
fn discard_all_try_from_bytes() {
    let bytes: &[u8] = &[];
    assert!(DiscardAll::try_from_bytes(bytes).is_ok());
}

#[test]
fn ignored_try_from_bytes() {
    let bytes: &[u8] = &[];
    assert!(Ignored::try_from_bytes(bytes).is_ok());
}

#[test]
fn pull_all_try_from_bytes() {
    let bytes: &[u8] = &[];
    assert!(PullAll::try_from_bytes(bytes).is_ok());
}

#[test]
fn reset_try_from_bytes() {
    let bytes: &[u8] = &[];
    assert!(Reset::try_from_bytes(bytes).is_ok());
}

#[test]
fn decoded_messages_reencode_to_themselves() {
    let bytes = [0xB1, 0x70, 0xA2, 0x81, 0x61, 0xC8, 0x01, 0x81, 0x61, 0x02];
    let (message, _) = Message::deserialize(&bytes).unwrap();
    let expected = message.clone();
    let again = message.serialize().unwrap();
    assert_eq!(&again[..], &[0xB1, 0x70, 0xA1, 0x81, 0x61, 0x02]);
    assert_eq!(Message::deserialize(&again).unwrap(), (expected, again.len()));
}

#[test]
fn empty_messages_from_messages() {
    assert!(AckFailure::try_from_message(Message::AckFailure).is_ok());
    assert_eq!(
        Reset::try_from_message(Message::Goodbye),
        Err(ConversionError::FromMessage(Message::Goodbye))
    );
}

#[test]
fn structures_with_many_fields() {
    use_structure(16, &[0xDC, 16, 0x44]);
    use_structure(300, &[0xDD, 0x01, 0x2C, 0x44]);
}

fn use_structure(n: usize, header: &[u8]) {
    let fields = vec![BoltValue::Integer(1); n];
    let mut out = Vec::new();
    bolt_proto::message_codec::serialize_structure(0x44, &fields, &mut out).unwrap();
    assert_eq!(&out[..header.len()], header);
    assert_eq!(out.len(), header.len() + n);
    assert!(out[header.len()..].iter().all(|&b| b == 0x01));
}
