//! The decisions of a Bolt client: the handshake that agrees on a protocol version, and
//! the request that each operation sends under that version.
use vstd::prelude::*;

use crate::message::{
    Begin, Discard, Hello, Init, Message, MessageModel, Pull, Record, Route, RouteWithMetadata,
    Run, RunWithMetadata,
};
use crate::packstream::{be32, find_key};
use crate::session::{CommunicationError, InputError, Session};
use crate::server_state::ServerState;
use crate::value::{BoltValue, ValueModel};
use crate::value_map::ValueMap;
use crate::version::{compatible, major_of, minor_of, is_compatible, V1_0, V2_0, V3_0, V4_0, V4_1, V4_2, V4_3, V4_4};

verus! {

/// The connection could not be set up.
#[derive(Debug, PartialEq)]
pub enum ConnectionError {
    /// The server agreed on none of the offered versions; they are given.
    HandshakeFailed([u32; 4]),
}

/// The four bytes that open a connection.
pub open spec fn preamble() -> Seq<u8> {
    seq![0x60u8, 0x60u8, 0xB0u8, 0x17u8]
}

/// Values as big-endian `u32`s, one after the other.
pub open spec fn be32_all(vs: Seq<u32>) -> Seq<u8>
    decreases vs.len(),
{
    if vs.len() == 0 {
        Seq::empty()
    } else {
        be32_all(vs.drop_last()) + be32(vs.last())
    }
}

/// What the client sends to open a connection: the preamble, then the four version
/// specifiers it offers, each as a big-endian `u32`.
pub fn handshake_request(specifiers: &[u32; 4]) -> (bytes: Vec<u8>)
    ensures
        bytes@ == preamble() + be32(specifiers[0]) + be32(specifiers[1]) + be32(specifiers[2])
            + be32(specifiers[3]),
{
    let mut bytes: Vec<u8> = Vec::new();
    bytes.push(0x60);
    bytes.push(0x60);
    bytes.push(0xB0);
    bytes.push(0x17);
    let mut i: usize = 0;
    assert(bytes@ =~= preamble() + be32_all(specifiers@.take(0)));
    while i < 4
        invariant
            i <= 4,
            bytes@ == preamble() + be32_all(specifiers@.take(i as int)),
        decreases 4 - i,
    {
        let v = specifiers[i];
        let ghost before = bytes@;
        bytes.push((v >> 24u32) as u8);
        bytes.push((v >> 16u32) as u8);
        bytes.push((v >> 8u32) as u8);
        bytes.push(v as u8);
        proof {
            assert(specifiers@.take(i + 1).drop_last() =~= specifiers@.take(i as int));
            assert(bytes@ =~= before + be32(v));
        }
        i = i + 1;
    }
    proof {
        let s = specifiers@;
        assert(s.take(4) =~= s);
        assert(s.take(3) =~= s.take(4).drop_last());
        assert(s.take(2) =~= s.take(3).drop_last());
        assert(s.take(1) =~= s.take(2).drop_last());
        assert(s.take(0) =~= s.take(1).drop_last());
        assert(be32_all(s.take(0)) =~= Seq::<u8>::empty());
        assert(be32_all(s.take(1)) =~= be32(s[0]));
        assert(be32_all(s.take(2)) =~= be32(s[0]) + be32(s[1]));
        assert(be32_all(s.take(3)) =~= be32(s[0]) + be32(s[1]) + be32(s[2]));
        assert(be32_all(s.take(4)) =~= be32(s[0]) + be32(s[1]) + be32(s[2]) + be32(s[3]));
        assert(bytes@ =~= preamble() + be32(specifiers[0]) + be32(specifiers[1]) + be32(
            specifiers[2],
        ) + be32(specifiers[3]));
    }
    bytes
}

/// Whether the server's answer to the handshake is one of the offered versions: not
/// zero, and compatible with one of the specifiers.
pub open spec fn agreed(version: u32, specifiers: Seq<u32>) -> bool {
    version > 0 && exists|i: int| 0 <= i < specifiers.len() && compatible(version, #[trigger] specifiers[i])
}

/// The handshake agrees on every non-zero version compatible with one of the offered
/// specifiers, whichever place that specifier holds; it never agrees on version zero,
/// nor on a version compatible with none of them.
pub proof fn law_handshake_agreement(version: u32, specifiers: Seq<u32>, i: int)
    ensures
        version > 0 && 0 <= i < specifiers.len() && compatible(version, specifiers[i]) ==> agreed(
            version,
            specifiers,
        ),
        !agreed(0, specifiers),
        (forall|j: int| 0 <= j < specifiers.len() ==> !compatible(version, #[trigger] specifiers[j]))
            ==> !agreed(version, specifiers),
{
}

/// The versions this client speaks are 1.0, 2.0, 3.0 and 4.0 to 4.4; from Bolt v3 on
/// means major version 3 or 4, and from Bolt v4 on means major version 4.
pub proof fn law_version_families(version: u32)
    ensures
        spoken(version) <==> (version < 0x10000 && ((1 <= major_of(version) <= 3 && minor_of(
            version,
        ) == 0) || (major_of(version) == 4 && minor_of(version) <= 4))),
        from_v3(version) <==> (spoken(version) && major_of(version) >= 3),
        from_v4(version) <==> (spoken(version) && major_of(version) >= 4),
{
    let v = version as int;
    if v < 0x10000 {
        assert(v == minor_of(version) * 256 + major_of(version));
    }
}

/// Takes the server's answer to the handshake: a session for the agreed version, or
/// the error that gives the offered specifiers.
pub fn accept_version(version: u32, specifiers: &[u32; 4]) -> (res: Result<Session, ConnectionError>)
    ensures
        agreed(version, specifiers@) ==> (res matches Ok(s) && s.inv() && s.spec_version() == version
            && s.state() == ServerState::Connected && s.queue().len() == 0 && s.open() == 0),
        !agreed(version, specifiers@) ==> (res matches Err(ConnectionError::HandshakeFailed(a))
            && a == *specifiers),
{
    if version > 0 {
        let mut i: usize = 0;
        while i < 4
            invariant
                version > 0,
                i <= 4,
                forall|j: int| 0 <= j < i ==> !compatible(version, #[trigger] specifiers@[j]),
            decreases 4 - i,
        {
            if is_compatible(version, specifiers[i]) {
                assert(compatible(version, specifiers@[i as int]));
                return Ok(Session::new(version));
            }
            i = i + 1;
        }
    }
    Err(ConnectionError::HandshakeFailed(*specifiers))
}

/// The versions this client speaks.
pub open spec fn spoken(version: u32) -> bool {
    version == V1_0 || version == V2_0 || version == V3_0 || version == V4_0 || version == V4_1
        || version == V4_2 || version == V4_3 || version == V4_4
}

/// Bolt v3 and later.
pub open spec fn from_v3(version: u32) -> bool {
    version == V3_0 || version == V4_0 || version == V4_1 || version == V4_2 || version == V4_3
        || version == V4_4
}

/// Bolt v4 and later.
pub open spec fn from_v4(version: u32) -> bool {
    version == V4_0 || version == V4_1 || version == V4_2 || version == V4_3 || version == V4_4
}

fn is_spoken(version: u32) -> (b: bool)
    ensures
        b == spoken(version),
{
    version == V1_0 || version == V2_0 || version == V3_0 || version == V4_0 || version == V4_1
        || version == V4_2 || version == V4_3 || version == V4_4
}

fn is_from_v3(version: u32) -> (b: bool)
    ensures
        b == from_v3(version),
{
    version == V3_0 || version == V4_0 || version == V4_1 || version == V4_2 || version == V4_3
        || version == V4_4
}

/// The given metadata, or an empty map.
pub open spec fn or_empty(m: Option<ValueMap>) -> Seq<(ValueModel, ValueModel)> {
    match m {
        Some(m) => m@,
        None => Seq::empty(),
    }
}

fn unwrap_or_empty(m: Option<ValueMap>) -> (r: ValueMap)
    ensures
        r@ == or_empty(m),
        m matches Some(x) ==> r == x,
{
    match m {
        Some(m) => m,
        None => ValueMap::new(),
    }
}

/// The request of `hello`: for Bolt v1 - v2 an `INIT` whose user agent is taken out of
/// the metadata, the rest being the authentication token; a `HELLO` with the metadata
/// from Bolt v3 on.
pub fn hello_request(version: u32, metadata: ValueMap) -> (res: Result<Message, CommunicationError>)
    ensures
        !spoken(version) ==> (res matches Err(CommunicationError::UnsupportedOperation(v)) && v
            == version),
        from_v3(version) ==> (res matches Ok(Message::Hello(h)) && h.metadata == metadata),
        (version == V1_0 || version == V2_0) ==> match find_key(
            metadata@,
            ValueModel::String("user_agent"@),
            0,
        ) {
            None => res matches Err(CommunicationError::InvalidInput(InputError::MissingUserAgent)),
            Some(i) => match metadata@[i].1 {
                ValueModel::String(ua) => res matches Ok(Message::Init(init)) && init.user_agent@
                    == ua && init.auth_token@ == metadata@.remove(i),
                _ => res matches Err(
                    CommunicationError::InvalidInput(InputError::UserAgentNotString),
                ),
            },
        },
{
    if !is_spoken(version) {
        return Err(CommunicationError::UnsupportedOperation(version));
    }
    if version == V1_0 || version == V2_0 {
        let mut auth_token = metadata;
        match auth_token.remove("user_agent") {
            None => Err(CommunicationError::InvalidInput(InputError::MissingUserAgent)),
            Some(BoltValue::String(user_agent)) => Ok(
                Message::Init(Init { user_agent, auth_token }),
            ),
            Some(_) => Err(CommunicationError::InvalidInput(InputError::UserAgentNotString)),
        }
    } else {
        Ok(Message::Hello(Hello { metadata }))
    }
}

/// The request of `route` (Bolt v4.3+): for v4.3 a `ROUTE` whose database is the `db`
/// entry of the metadata (a string, or null for none; absent is none); a `ROUTE` with
/// the metadata from v4.4 on.
pub fn route_request(
    version: u32,
    context: ValueMap,
    bookmarks: Vec<String>,
    metadata: Option<ValueMap>,
) -> (res: Result<Message, CommunicationError>)
    ensures
        !(version == V4_3 || version == V4_4) ==> (res matches Err(
            CommunicationError::UnsupportedOperation(v),
        ) && v == version),
        version == V4_4 ==> (res matches Ok(Message::RouteWithMetadata(r)) && r.context == context
            && r.bookmarks == bookmarks && r.metadata@ == or_empty(metadata)),
        version == V4_3 ==> match find_key(or_empty(metadata), ValueModel::String("db"@), 0) {
            None => res matches Ok(Message::Route(r)) && r.context == context && r.bookmarks
                == bookmarks && r.db is None,
            Some(i) => match or_empty(metadata)[i].1 {
                ValueModel::String(d) => res matches Ok(Message::Route(r)) && r.context == context
                    && r.bookmarks == bookmarks && (r.db matches Some(x) && x@ == d),
                ValueModel::Null => res matches Ok(Message::Route(r)) && r.context == context
                    && r.bookmarks == bookmarks && r.db is None,
                _ => res matches Err(
                    CommunicationError::InvalidInput(InputError::DbNotStringOrNull),
                ),
            },
        },
{
    if !(version == V4_3 || version == V4_4) {
        return Err(CommunicationError::UnsupportedOperation(version));
    }
    let mut metadata = unwrap_or_empty(metadata);
    if version == V4_3 {
        let db = match metadata.remove("db") {
            Some(BoltValue::String(name)) => Some(name),
            Some(BoltValue::Null) => None,
            Some(_) => {
                return Err(CommunicationError::InvalidInput(InputError::DbNotStringOrNull));
            },
            None => None,
        };
        Ok(Message::Route(Route { context, bookmarks, db }))
    } else {
        Ok(Message::RouteWithMetadata(RouteWithMetadata { context, bookmarks, metadata }))
    }
}

/// The request of `run`: a `RUN` with the query and parameters for Bolt v1 - v2; a `RUN`
/// with metadata from Bolt v3 on.
pub fn run_request(
    version: u32,
    query: String,
    parameters: Option<ValueMap>,
    metadata: Option<ValueMap>,
) -> (res: Result<Message, CommunicationError>)
    ensures
        !spoken(version) ==> (res matches Err(CommunicationError::UnsupportedOperation(v)) && v
            == version),
        (version == V1_0 || version == V2_0) ==> (res matches Ok(Message::Run(r)) && r.query
            == query && r.parameters@ == or_empty(parameters)),
        from_v3(version) ==> (res matches Ok(Message::RunWithMetadata(r)) && r.statement == query
            && r.parameters@ == or_empty(parameters) && r.metadata@ == or_empty(metadata)),
{
    if !is_spoken(version) {
        return Err(CommunicationError::UnsupportedOperation(version));
    }
    let parameters = unwrap_or_empty(parameters);
    if version == V1_0 || version == V2_0 {
        Ok(Message::Run(Run { query, parameters }))
    } else {
        Ok(
            Message::RunWithMetadata(
                RunWithMetadata { statement: query, parameters, metadata: unwrap_or_empty(metadata) },
            ),
        )
    }
}

/// The request of `pull`: `PULL_ALL` for Bolt v1 - v3, a `PULL` with the metadata from
/// Bolt v4 on.
pub fn pull_request(version: u32, metadata: Option<ValueMap>) -> (res: Result<
    Message,
    CommunicationError,
>)
    ensures
        !spoken(version) ==> (res matches Err(CommunicationError::UnsupportedOperation(v)) && v
            == version),
        (version == V1_0 || version == V2_0 || version == V3_0) ==> res matches Ok(Message::PullAll),
        from_v4(version) ==> (res matches Ok(Message::Pull(p)) && p.metadata@ == or_empty(metadata)),
{
    if !is_spoken(version) {
        return Err(CommunicationError::UnsupportedOperation(version));
    }
    if version == V1_0 || version == V2_0 || version == V3_0 {
        Ok(Message::PullAll)
    } else {
        Ok(Message::Pull(Pull { metadata: unwrap_or_empty(metadata) }))
    }
}

/// The request of `discard`: `DISCARD_ALL` for Bolt v1 - v3, a `DISCARD` with the
/// metadata from Bolt v4 on.
pub fn discard_request(version: u32, metadata: Option<ValueMap>) -> (res: Result<
    Message,
    CommunicationError,
>)
    ensures
        !spoken(version) ==> (res matches Err(CommunicationError::UnsupportedOperation(v)) && v
            == version),
        (version == V1_0 || version == V2_0 || version == V3_0) ==> res matches Ok(
            Message::DiscardAll,
        ),
        from_v4(version) ==> (res matches Ok(Message::Discard(d)) && d.metadata@ == or_empty(
            metadata,
        )),
{
    if !is_spoken(version) {
        return Err(CommunicationError::UnsupportedOperation(version));
    }
    if version == V1_0 || version == V2_0 || version == V3_0 {
        Ok(Message::DiscardAll)
    } else {
        Ok(Message::Discard(Discard { metadata: unwrap_or_empty(metadata) }))
    }
}

/// The request of `begin` (Bolt v3+): a `BEGIN` with the metadata.
pub fn begin_request(version: u32, metadata: Option<ValueMap>) -> (res: Result<
    Message,
    CommunicationError,
>)
    ensures
        !from_v3(version) ==> (res matches Err(CommunicationError::UnsupportedOperation(v)) && v
            == version),
        from_v3(version) ==> (res matches Ok(Message::Begin(b)) && b.metadata@ == or_empty(
            metadata,
        )),
{
    if !is_from_v3(version) {
        return Err(CommunicationError::UnsupportedOperation(version));
    }
    Ok(Message::Begin(Begin { metadata: unwrap_or_empty(metadata) }))
}

/// The operations that send a message without fields.
#[derive(Debug, Clone, Copy, PartialEq, Eq, Structural)]
pub enum SimpleRequest {
    Commit,
    Rollback,
    AckFailure,
    Reset,
    Goodbye,
}

/// The versions that have an operation without fields: commit, rollback and goodbye
/// from Bolt v3 on, acknowledging a failure in Bolt v1 - v2, reset in every version.
pub open spec fn has_simple_request(version: u32, op: SimpleRequest) -> bool {
    match op {
        SimpleRequest::Commit | SimpleRequest::Rollback | SimpleRequest::Goodbye => from_v3(version),
        SimpleRequest::AckFailure => version == V1_0 || version == V2_0,
        SimpleRequest::Reset => spoken(version),
    }
}

/// The message that an operation without fields sends, where the version has it.
pub fn simple_request(version: u32, op: SimpleRequest) -> (res: Result<Message, CommunicationError>)
    ensures
        !has_simple_request(version, op) ==> (res matches Err(
            CommunicationError::UnsupportedOperation(v),
        ) && v == version),
        has_simple_request(version, op) ==> (res matches Ok(m) && m@ == match op {
            SimpleRequest::Commit => MessageModel::Commit,
            SimpleRequest::Rollback => MessageModel::Rollback,
            SimpleRequest::AckFailure => MessageModel::AckFailure,
            SimpleRequest::Reset => MessageModel::Reset,
            SimpleRequest::Goodbye => MessageModel::Goodbye,
        }),
{
    match op {
        SimpleRequest::Commit => if is_from_v3(version) {
            Ok(Message::Commit)
        } else {
            Err(CommunicationError::UnsupportedOperation(version))
        },
        SimpleRequest::Rollback => if is_from_v3(version) {
            Ok(Message::Rollback)
        } else {
            Err(CommunicationError::UnsupportedOperation(version))
        },
        SimpleRequest::Goodbye => if is_from_v3(version) {
            Ok(Message::Goodbye)
        } else {
            Err(CommunicationError::UnsupportedOperation(version))
        },
        SimpleRequest::AckFailure => if version == V1_0 || version == V2_0 {
            Ok(Message::AckFailure)
        } else {
            Err(CommunicationError::UnsupportedOperation(version))
        },
        SimpleRequest::Reset => if is_spoken(version) {
            Ok(Message::Reset)
        } else {
            Err(CommunicationError::UnsupportedOperation(version))
        },
    }
}

/// Whether a message can answer a pull: a record, or one of the summaries.
pub open spec fn answers_pull(m: MessageModel) -> bool {
    m is Record || m is Success || m is Failure || m is Ignored
}

/// Takes one answer to a pull. A record joins the collected records and the pull goes
/// on (`None`); a `SUCCESS` or `FAILURE` ends it; an `IGNORED` ends it and drops the
/// collected records.
pub fn collect_pull_answer(records: &mut Vec<Record>, answer: Message) -> (done: Option<Message>)
    requires
        answers_pull(answer@),
    ensures
        answer is Record ==> done is None && (answer matches Message::Record(r) && final(records)@
            == old(records)@.push(r)),
        (answer is Success || answer is Failure) ==> (done matches Some(m) && m == answer
            && final(records)@ == old(records)@),
        answer is Ignored ==> (done matches Some(Message::Ignored) && final(records)@.len() == 0),
{
    match answer {
        Message::Record(record) => {
            records.push(record);
            None
        },
        Message::Ignored => {
            records.clear();
            Some(Message::Ignored)
        },
        other => Some(other),
    }
}

/// Whether a message can answer while a reset is under way: a summary, or an `IGNORED`
/// for a request sent before the reset.
pub open spec fn answers_reset(m: MessageModel) -> bool {
    m is Success || m is Failure || m is Ignored
}

/// Takes one answer after a reset: `IGNORED` answers an earlier request and the wait
/// goes on (`None`); a `SUCCESS` or `FAILURE` is the reset's own answer.
pub fn reset_answer(answer: Message) -> (done: Option<Message>)
    requires
        answers_reset(answer@),
    ensures
        answer is Ignored ==> done is None,
        !(answer is Ignored) ==> (done matches Some(m) && m == answer),
{
    match answer {
        Message::Ignored => None,
        other => Some(other),
    }
}


/// The versions for which a pooled connection initializes itself with `hello`: Bolt
/// v1 - v4.1.
pub open spec fn pool_initializes(version: u32) -> bool {
    version == V1_0 || version == V2_0 || version == V3_0 || version == V4_0 || version == V4_1
}

/// Whether a pooled connection that agreed on `version` can be initialized.
pub fn pool_version_supported(version: u32) -> (b: bool)
    ensures
        b == pool_initializes(version),
{
    version == V1_0 || version == V2_0 || version == V3_0 || version == V4_0 || version == V4_1
}
/// Which protocol versions offer each request without arguments: `COMMIT`, `ROLLBACK`
/// and `GOODBYE` from Bolt v3 on, `ACK_FAILURE` only before it, `RESET` in every
/// version spoken.
pub proof fn law_simple_request_versions(version: u32)
    ensures
        has_simple_request(version, SimpleRequest::Commit) <==> (spoken(version) && major_of(
            version,
        ) >= 3),
        has_simple_request(version, SimpleRequest::Rollback) <==> (spoken(version) && major_of(
            version,
        ) >= 3),
        has_simple_request(version, SimpleRequest::Goodbye) <==> (spoken(version) && major_of(
            version,
        ) >= 3),
        has_simple_request(version, SimpleRequest::AckFailure) <==> (spoken(version) && major_of(
            version,
        ) < 3),
        has_simple_request(version, SimpleRequest::Reset) <==> spoken(version),
        pool_initializes(version) <==> (spoken(version) && (major_of(version) < 4 || minor_of(
            version,
        ) <= 1)),
{
    law_version_families(version);
}
} // verus!
