use bytes::Bytes;

use bolt_proto::chunk::{dechunk_bytes, frame_need, Chunk, FrameNeed, MessageBytes, CHUNK_SIZE};
use bolt_proto::error::SerializationError;
use bolt_proto::message::{Message, Record};
use bolt_proto::value::BoltValue;

fn new_chunk() -> Chunk {
    Chunk::try_from_bytes(Bytes::from_static(&[
        0x00, 0x01, 0x02, 0x03, 0x04, 0x05, 0x06, 0x07, 0x08, 0x09, 0x0A, 0x0B, 0x0C, 0x0D, 0x0E,
        0x0F,
    ]))
    .unwrap()
}

fn new_message() -> MessageBytes {
    let mut msg = MessageBytes::new();
    msg.add_chunk(new_chunk());
    msg
}

#[test]
fn chunk_into_bytes() {
    let bytes: Bytes = new_chunk().into_bytes();
    assert_eq!(
        bytes,
        Bytes::from_static(&[
            0x00, 0x10, 0x00, 0x01, 0x02, 0x03, 0x04, 0x05, 0x06, 0x07, 0x08, 0x09, 0x0A, 0x0B,
            0x0C, 0x0D, 0x0E, 0x0F,
        ])
    );
}

#[test]
fn message_bytes_into_bytes() {
    let bytes: Bytes = new_message().try_into_bytes().unwrap();
    let mut result = vec![0x00, 0x10];
    result.extend_from_slice(&[
        0x00, 0x01, 0x02, 0x03, 0x04, 0x05, 0x06, 0x07, 0x08, 0x09, 0x0A, 0x0B, 0x0C, 0x0D, 0x0E,
        0x0F,
    ]);
    result.extend_from_slice(&[0x00, 0x00]);
    assert_eq!(bytes, Bytes::from(result));
}

#[test]
fn message_bytes_joins_chunks() {
    let mut msg = new_message();
    msg.add_chunk(Chunk::try_from_bytes(Bytes::from_static(&[0x01, 0x02, 0x03, 0x04])).unwrap());
    assert_eq!(msg.len(), 20);
    assert_eq!(
        msg.bytes(),
        &[
            0x00, 0x01, 0x02, 0x03, 0x04, 0x05, 0x06, 0x07, 0x08, 0x09, 0x0A, 0x0B, 0x0C, 0x0D,
            0x0E, 0x0F, 0x01, 0x02, 0x03, 0x04
        ]
    );
}

#[test]
fn chunk_too_large() {
    let big = Bytes::from(vec![0u8; 70_000]);
    assert!(matches!(
        Chunk::try_from_bytes(big),
        Err(SerializationError::ValueTooLarge(70_000))
    ));
}

#[test]
fn small_message_is_one_chunk_and_the_end() {
    let chunks = Message::Reset.into_chunks().unwrap();
    assert_eq!(chunks.len(), 2);
    assert_eq!(&chunks[0][..], &[0x00, 0x02, 0xB0, 0x0F]);
    assert_eq!(&chunks[1][..], &[0x00, 0x00]);
}

#[test]
fn large_message_is_split_into_full_chunks() {
    let text = "x".repeat(40_000);
    let message = Message::Record(Record::new(vec![BoltValue::String(text.clone())]));
    let encoded = Message::Record(Record::new(vec![BoltValue::String(text)]))
        .serialize()
        .unwrap();
    let chunks = message.into_chunks().unwrap();
    assert_eq!(chunks.len(), 4);
    assert_eq!(chunks[0].len(), CHUNK_SIZE + 2);
    assert_eq!(&chunks[0][..2], &[0x3F, 0xFD]);
    assert_eq!(chunks[1].len(), CHUNK_SIZE + 2);
    assert_eq!(chunks[2].len(), encoded.len() - 2 * CHUNK_SIZE + 2);
    assert_eq!(&chunks[3][..], &[0x00, 0x00]);
    let mut joined = Vec::new();
    for chunk in &chunks[..3] {
        joined.extend_from_slice(&chunk[2..]);
    }
    assert_eq!(&joined[..], &encoded[..]);
}

#[test]
fn framed_message_reads_back() {
    let message = Message::Record(Record::new(vec![
        BoltValue::String("y".repeat(20_000)),
        BoltValue::Integer(7),
    ]));
    let expected = message.clone();
    let mut wire = vec![0x00, 0x00, 0x00, 0x00];
    for chunk in message.into_chunks().unwrap() {
        wire.extend_from_slice(&chunk);
    }
    let framing = wire.len();
    wire.extend_from_slice(&[0x00, 0x03, 0xAA]);
    let (data, used) = dechunk_bytes(&wire).unwrap();
    assert_eq!(used, framing);
    let (decoded, _) = Message::deserialize(&data).unwrap();
    assert_eq!(decoded, expected);
}

#[test]
fn unfinished_framing_is_not_a_message() {
    assert_eq!(dechunk_bytes(&[0x00, 0x00]), None);
    assert_eq!(dechunk_bytes(&[0x00, 0x02, 0xB0, 0x0F]), None);
    assert_eq!(dechunk_bytes(&[0x00, 0x04, 0xB0]), None);
    assert_eq!(
        dechunk_bytes(&[0x00, 0x02, 0xB0, 0x0F, 0x00, 0x00]),
        Some((vec![0xB0, 0x0F], 6))
    );
}

#[test]
fn frame_need_says_what_to_read_next() {
    assert_eq!(frame_need(&[]), FrameNeed::More(2));
    assert_eq!(frame_need(&[0x00]), FrameNeed::More(1));
    assert_eq!(frame_need(&[0x00, 0x00]), FrameNeed::More(2));
    assert_eq!(frame_need(&[0x00, 0x00, 0x00, 0x03]), FrameNeed::More(3));
    assert_eq!(frame_need(&[0x00, 0x02, 0xB0, 0x0F]), FrameNeed::More(2));
    assert_eq!(
        frame_need(&[0x00, 0x00, 0x00, 0x02, 0xB0, 0x0F, 0x00, 0x00]),
        FrameNeed::Complete(8)
    );
}

#[test]
fn message_bytes_split_to() {
    let mut msg = new_message();
    let front = msg.split_to(4);
    assert_eq!(front, Bytes::from_static(&[0x00, 0x01, 0x02, 0x03]));
    assert_eq!(msg.len(), 12);
    assert_eq!(msg.bytes()[0], 0x04);
}

#[test]
fn single_chunk_framing_reads_back() {
    let framed = new_message().try_into_bytes().unwrap();
    let (data, used) = dechunk_bytes(&framed).unwrap();
    assert_eq!(used, framed.len());
    assert_eq!(
        data,
        vec![
            0x00, 0x01, 0x02, 0x03, 0x04, 0x05, 0x06, 0x07, 0x08, 0x09, 0x0A, 0x0B, 0x0C, 0x0D,
            0x0E, 0x0F
        ]
    );
}

#[test]
fn message_bytes_too_long_for_one_header() {
    let mut msg = MessageBytes::new();
    for _ in 0..5 {
        msg.add_chunk(Chunk::try_from_bytes(Bytes::from(vec![7u8; 16000])).unwrap());
    }
    assert_eq!(msg.len(), 80_000);
    assert_eq!(msg.try_into_bytes(), Err(SerializationError::ValueTooLarge(80_000)));
}

#[test]
fn message_bytes_at_header_limit() {
    let mut msg = MessageBytes::new();
    for _ in 0..4 {
        msg.add_chunk(Chunk::try_from_bytes(Bytes::from(vec![1u8; 16383])).unwrap());
    }
    msg.add_chunk(Chunk::try_from_bytes(Bytes::from(vec![1u8; 3])).unwrap());
    assert_eq!(msg.len(), 65_535);
    let framed = msg.try_into_bytes().unwrap();
    assert_eq!(framed.len(), 65_539);
    assert_eq!(&framed[..2], &[0xFF, 0xFF]);
    assert_eq!(&framed[65_537..], &[0x00, 0x00]);
}
