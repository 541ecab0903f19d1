# bolt_proto

The primitives of the Bolt protocol spoken by Neo4j servers, verified with Verus:
the PackStream encoding of values, the protocol messages, their chunked framing on the
wire, protocol versions and the handshake, and the client's record of the server's
state.

## Layout

- `src/` – the verified library.
  - `value.rs`, `value_map.rs` – values, maps, and their mathematical models.
  - `equality.rs` – equality of values: maps compare as sets of entries, whatever
    order their entries are held in.
  - `packstream.rs` – the encoding and decoding of values as spec functions.
  - `serialization.rs`, `deserialization.rs` – the executable encoder and decoder.
  - `roundtrip.rs`, `decoded.rs` – the proofs that decoding an encoded value gives it
    back, and that every decoded value can be encoded and read back.
  - `message.rs`, `message_codec.rs`, `messages.rs` – messages and their encoding.
  - `chunk.rs`, `buffers.rs` – chunked framing over the `bytes` crate's buffers.
  - `version.rs`, `client.rs` – versions, the handshake and the request of each
    operation under each version.
  - `server_state.rs`, `session.rs` – the server's states and how requests and
    responses move between them.
- `app/` – the asynchronous client over a stream, a TCP/TLS stream, and a `bb8`
  connection manager; these do the I/O and leave every decision to the library.
- `tests/` – tests of the library on concrete values.

## What is proved

Among others: decoding the encoding of a value or message gives it back, whatever bytes
follow, for every value or message whose maps hold no two entries with equal keys. Every
map that the library builds or decodes is of that kind; the entry vectors are public,
so a map written by hand may repeat a key, and the round-trip laws say nothing of it.
Reading back the chunks of a message gives its bytes; a map reads back what was
inserted; each response moves the server's state as the protocol prescribes, and a
server streaming in a transaction always has a result open. Two maps with the same
entries are equal in any order, and every value equals itself.
