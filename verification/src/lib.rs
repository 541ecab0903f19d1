//! Primitives of the Bolt protocol spoken by Neo4j servers: the PackStream value
//! encoding, the protocol messages and their chunked framing, protocol versions, and
//! the client-side server state machine.

pub mod version;
pub mod value;
pub mod packstream;
pub mod roundtrip;
pub mod decoded;
pub mod error;
pub mod serialization;
pub mod deserialization;
pub mod value_map;
pub mod equality;
pub mod message;
pub mod message_codec;
pub mod messages;
pub mod buffers;
pub mod chunk;
pub mod server_state;
pub mod session;
pub mod client;
