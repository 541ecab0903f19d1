//! The messages of the Bolt protocol and their encoding.
//!
//! A message is encoded as a PackStream structure: a marker announcing the number of
//! fields, a signature byte naming the message, then the fields as values. Some
//! signatures are shared by two messages of different protocol versions, which are
//! told apart by their number of fields (or, for `ROUTE`, by the kind of the last).
use vstd::prelude::*;

use crate::packstream::{
    first_oversize_seq, in_family, keys_distinct, parse_size, parse_values, ser, ser_seq,
    sized_header, well_formed, well_formed_entries, well_formed_seq, DecodeError,
    MARKER_SMALL_STRUCT, MARKER_TINY_STRUCT,
};
use crate::roundtrip::{bytes_at, lemma_bytes_at_index, lemma_bytes_at_split, lemma_parse_ser_seq, lemma_sized_header};
use crate::value::{seq_models, BoltValue, ValueModel};
use crate::value_map::ValueMap;

verus! {

pub const SIGNATURE_INIT: u8 = 0x01;
pub const SIGNATURE_RUN: u8 = 0x10;
pub const SIGNATURE_DISCARD_ALL: u8 = 0x2F;
pub const SIGNATURE_PULL_ALL: u8 = 0x3F;
pub const SIGNATURE_ACK_FAILURE: u8 = 0x0E;
pub const SIGNATURE_RESET: u8 = 0x0F;
pub const SIGNATURE_RECORD: u8 = 0x71;
pub const SIGNATURE_SUCCESS: u8 = 0x70;
pub const SIGNATURE_FAILURE: u8 = 0x7F;
pub const SIGNATURE_IGNORED: u8 = 0x7E;
pub const SIGNATURE_HELLO: u8 = 0x01;
pub const SIGNATURE_GOODBYE: u8 = 0x02;
pub const SIGNATURE_RUN_WITH_METADATA: u8 = 0x10;
pub const SIGNATURE_BEGIN: u8 = 0x11;
pub const SIGNATURE_COMMIT: u8 = 0x12;
pub const SIGNATURE_ROLLBACK: u8 = 0x13;
pub const SIGNATURE_DISCARD: u8 = 0x2F;
pub const SIGNATURE_PULL: u8 = 0x3F;
pub const SIGNATURE_ROUTE: u8 = 0x66;

/// `INIT` (Bolt v1 - v2): the user agent and the authentication token.
#[derive(Debug, PartialEq)]
pub struct Init {
    pub user_agent: String,
    pub auth_token: ValueMap,
}

/// `RUN` (Bolt v1 - v2): a query and its parameters.
#[derive(Debug, PartialEq)]
pub struct Run {
    pub query: String,
    pub parameters: ValueMap,
}

/// `RECORD`: one row of a result.
#[derive(Debug, PartialEq)]
pub struct Record {
    pub fields: Vec<BoltValue>,
}

/// `SUCCESS`: a request succeeded.
#[derive(Debug, PartialEq)]
pub struct Success {
    pub metadata: ValueMap,
}

/// `FAILURE`: a request failed.
#[derive(Debug, PartialEq)]
pub struct Failure {
    pub metadata: ValueMap,
}

/// `HELLO` (Bolt v3+): authentication and client details.
#[derive(Debug, PartialEq)]
pub struct Hello {
    pub metadata: ValueMap,
}

/// `RUN` (Bolt v3+): a query, its parameters and transaction metadata.
#[derive(Debug, PartialEq)]
pub struct RunWithMetadata {
    pub statement: String,
    pub parameters: ValueMap,
    pub metadata: ValueMap,
}

/// `BEGIN` (Bolt v3+): starts an explicit transaction.
#[derive(Debug, PartialEq)]
pub struct Begin {
    pub metadata: ValueMap,
}

/// `DISCARD` (Bolt v4+): discards records of a result.
#[derive(Debug, PartialEq)]
pub struct Discard {
    pub metadata: ValueMap,
}

/// `PULL` (Bolt v4+): fetches records of a result.
#[derive(Debug, PartialEq)]
pub struct Pull {
    pub metadata: ValueMap,
}

/// `ROUTE` (Bolt v4.3): asks for the routing table of a database.
#[derive(Debug, PartialEq)]
pub struct Route {
    pub context: ValueMap,
    pub bookmarks: Vec<String>,
    pub db: Option<String>,
}

/// `ROUTE` (Bolt v4.4+): asks for a routing table, with metadata.
#[derive(Debug, PartialEq)]
pub struct RouteWithMetadata {
    pub context: ValueMap,
    pub bookmarks: Vec<String>,
    pub metadata: ValueMap,
}

/// A Bolt message.
#[derive(Debug, PartialEq)]
pub enum Message {
    Init(Init),
    Run(Run),
    DiscardAll,
    PullAll,
    AckFailure,
    Reset,
    Record(Record),
    Success(Success),
    Failure(Failure),
    Ignored,
    Hello(Hello),
    Goodbye,
    RunWithMetadata(RunWithMetadata),
    Begin(Begin),
    Commit,
    Rollback,
    Discard(Discard),
    Pull(Pull),
    Route(Route),
    RouteWithMetadata(RouteWithMetadata),
}

/// The mathematical content of a [`Message`]. String-keyed maps are given as the
/// entries of a dictionary value, whose keys are string values.
pub enum MessageModel {
    Init(Seq<char>, Seq<(ValueModel, ValueModel)>),
    Run(Seq<char>, Seq<(ValueModel, ValueModel)>),
    DiscardAll,
    PullAll,
    AckFailure,
    Reset,
    Record(Seq<ValueModel>),
    Success(Seq<(ValueModel, ValueModel)>),
    Failure(Seq<(ValueModel, ValueModel)>),
    Ignored,
    Hello(Seq<(ValueModel, ValueModel)>),
    Goodbye,
    RunWithMetadata(Seq<char>, Seq<(ValueModel, ValueModel)>, Seq<(ValueModel, ValueModel)>),
    Begin(Seq<(ValueModel, ValueModel)>),
    Commit,
    Rollback,
    Discard(Seq<(ValueModel, ValueModel)>),
    Pull(Seq<(ValueModel, ValueModel)>),
    Route(Seq<(ValueModel, ValueModel)>, Seq<Seq<char>>, Option<Seq<char>>),
    RouteWithMetadata(
        Seq<(ValueModel, ValueModel)>,
        Seq<Seq<char>>,
        Seq<(ValueModel, ValueModel)>,
    ),
}

/// The contents of a sequence of strings.
pub open spec fn strings_model(s: Seq<String>) -> Seq<Seq<char>> {
    s.map_values(|x: String| x@)
}

impl View for Message {
    type V = MessageModel;

    open spec fn view(&self) -> MessageModel {
        match self {
            Message::Init(m) => MessageModel::Init(m.user_agent@, m.auth_token@),
            Message::Run(m) => MessageModel::Run(m.query@, m.parameters@),
            Message::DiscardAll => MessageModel::DiscardAll,
            Message::PullAll => MessageModel::PullAll,
            Message::AckFailure => MessageModel::AckFailure,
            Message::Reset => MessageModel::Reset,
            Message::Record(m) => MessageModel::Record(seq_models(m.fields@)),
            Message::Success(m) => MessageModel::Success(m.metadata@),
            Message::Failure(m) => MessageModel::Failure(m.metadata@),
            Message::Ignored => MessageModel::Ignored,
            Message::Hello(m) => MessageModel::Hello(m.metadata@),
            Message::Goodbye => MessageModel::Goodbye,
            Message::RunWithMetadata(m) => MessageModel::RunWithMetadata(
                m.statement@,
                m.parameters@,
                m.metadata@,
            ),
            Message::Begin(m) => MessageModel::Begin(m.metadata@),
            Message::Commit => MessageModel::Commit,
            Message::Rollback => MessageModel::Rollback,
            Message::Discard(m) => MessageModel::Discard(m.metadata@),
            Message::Pull(m) => MessageModel::Pull(m.metadata@),
            Message::Route(m) => MessageModel::Route(
                m.context@,
                strings_model(m.bookmarks@),
                match m.db {
                    Some(d) => Some(d@),
                    None => None,
                },
            ),
            Message::RouteWithMetadata(m) => MessageModel::RouteWithMetadata(
                m.context@,
                strings_model(m.bookmarks@),
                m.metadata@,
            ),
        }
    }
}

/// The signature byte of a message.
pub open spec fn signature_of(m: MessageModel) -> u8 {
    match m {
        MessageModel::Init(..) => SIGNATURE_INIT,
        MessageModel::Run(..) => SIGNATURE_RUN,
        MessageModel::DiscardAll => SIGNATURE_DISCARD_ALL,
        MessageModel::PullAll => SIGNATURE_PULL_ALL,
        MessageModel::AckFailure => SIGNATURE_ACK_FAILURE,
        MessageModel::Reset => SIGNATURE_RESET,
        MessageModel::Record(..) => SIGNATURE_RECORD,
        MessageModel::Success(..) => SIGNATURE_SUCCESS,
        MessageModel::Failure(..) => SIGNATURE_FAILURE,
        MessageModel::Ignored => SIGNATURE_IGNORED,
        MessageModel::Hello(..) => SIGNATURE_HELLO,
        MessageModel::Goodbye => SIGNATURE_GOODBYE,
        MessageModel::RunWithMetadata(..) => SIGNATURE_RUN_WITH_METADATA,
        MessageModel::Begin(..) => SIGNATURE_BEGIN,
        MessageModel::Commit => SIGNATURE_COMMIT,
        MessageModel::Rollback => SIGNATURE_ROLLBACK,
        MessageModel::Discard(..) => SIGNATURE_DISCARD,
        MessageModel::Pull(..) => SIGNATURE_PULL,
        MessageModel::Route(..) => SIGNATURE_ROUTE,
        MessageModel::RouteWithMetadata(..) => SIGNATURE_ROUTE,
    }
}

/// A list of strings as a value.
pub open spec fn strings_value(s: Seq<Seq<char>>) -> ValueModel {
    ValueModel::List(s.map_values(|x: Seq<char>| ValueModel::String(x)))
}

/// The fields of a message, as values, in order.
pub open spec fn fields_of(m: MessageModel) -> Seq<ValueModel> {
    match m {
        MessageModel::Init(ua, auth) => seq![ValueModel::String(ua), ValueModel::Dictionary(auth)],
        MessageModel::Run(q, params) => seq![
            ValueModel::String(q),
            ValueModel::Dictionary(params),
        ],
        MessageModel::Record(fields) => seq![ValueModel::List(fields)],
        MessageModel::Success(md) => seq![ValueModel::Dictionary(md)],
        MessageModel::Failure(md) => seq![ValueModel::Dictionary(md)],
        MessageModel::Hello(md) => seq![ValueModel::Dictionary(md)],
        MessageModel::RunWithMetadata(q, params, md) => seq![
            ValueModel::String(q),
            ValueModel::Dictionary(params),
            ValueModel::Dictionary(md),
        ],
        MessageModel::Begin(md) => seq![ValueModel::Dictionary(md)],
        MessageModel::Discard(md) => seq![ValueModel::Dictionary(md)],
        MessageModel::Pull(md) => seq![ValueModel::Dictionary(md)],
        MessageModel::Route(ctx, bookmarks, db) => seq![
            ValueModel::Dictionary(ctx),
            strings_value(bookmarks),
            match db {
                Some(d) => ValueModel::String(d),
                None => ValueModel::Null,
            },
        ],
        MessageModel::RouteWithMetadata(ctx, bookmarks, md) => seq![
            ValueModel::Dictionary(ctx),
            strings_value(bookmarks),
            ValueModel::Dictionary(md),
        ],
        _ => Seq::empty(),
    }
}

/// The encoding of a message: a structure of its signature and fields.
pub open spec fn ser_message(m: MessageModel) -> Seq<u8> {
    ser(ValueModel::Structure(signature_of(m), fields_of(m)))
}

/// The number of fields to read for a message with signature `sig` whose marker
/// announced `size` fields.
pub open spec fn message_shape(sig: u8, size: nat) -> Result<nat, DecodeError> {
    if sig == SIGNATURE_INIT {
        if size == 1 || size == 2 {
            Ok(size)
        } else {
            Err(DecodeError::InvalidSize(size as usize, sig))
        }
    } else if sig == SIGNATURE_RUN {
        if size == 2 || size == 3 {
            Ok(size)
        } else {
            Err(DecodeError::InvalidSize(size as usize, sig))
        }
    } else if sig == SIGNATURE_DISCARD_ALL || sig == SIGNATURE_PULL_ALL {
        if size == 0 || size == 1 {
            Ok(size)
        } else {
            Err(DecodeError::InvalidSize(size as usize, sig))
        }
    } else if sig == SIGNATURE_ACK_FAILURE || sig == SIGNATURE_RESET || sig == SIGNATURE_IGNORED
        || sig == SIGNATURE_GOODBYE || sig == SIGNATURE_COMMIT || sig == SIGNATURE_ROLLBACK {
        Ok(0)
    } else if sig == SIGNATURE_RECORD || sig == SIGNATURE_SUCCESS || sig == SIGNATURE_FAILURE || sig
        == SIGNATURE_BEGIN {
        Ok(1)
    } else if sig == SIGNATURE_ROUTE {
        Ok(3)
    } else {
        Err(DecodeError::InvalidSignatureByte(sig))
    }
}

/// Whether every key of the entries is a string.
pub open spec fn string_keys(e: Seq<(ValueModel, ValueModel)>) -> bool {
    forall|i: int| 0 <= i < e.len() ==> (#[trigger] e[i]).0 is String
}

/// A field read as a string.
pub open spec fn as_string(v: ValueModel) -> Result<Seq<char>, DecodeError> {
    match v {
        ValueModel::String(s) => Ok(s),
        _ => Err(DecodeError::ConversionFromValue(v)),
    }
}

/// A field read as a string-keyed map.
pub open spec fn as_entries(v: ValueModel) -> Result<Seq<(ValueModel, ValueModel)>, DecodeError> {
    match v {
        ValueModel::Dictionary(e) => if string_keys(e) {
            Ok(e)
        } else {
            Err(DecodeError::ConversionFromValue(v))
        },
        _ => Err(DecodeError::ConversionFromValue(v)),
    }
}

/// A field read as a list of values.
pub open spec fn as_list(v: ValueModel) -> Result<Seq<ValueModel>, DecodeError> {
    match v {
        ValueModel::List(items) => Ok(items),
        _ => Err(DecodeError::ConversionFromValue(v)),
    }
}

/// A field read as a list of strings.
pub open spec fn as_strings(v: ValueModel) -> Result<Seq<Seq<char>>, DecodeError> {
    match v {
        ValueModel::List(items) => if forall|i: int|
            0 <= i < items.len() ==> (#[trigger] items[i]) is String {
            Ok(items.map_values(|x: ValueModel| x->String_0))
        } else {
            Err(DecodeError::ConversionFromValue(v))
        },
        _ => Err(DecodeError::ConversionFromValue(v)),
    }
}

/// A field read as an optional string: a string, or null.
pub open spec fn as_opt_string(v: ValueModel) -> Result<Option<Seq<char>>, DecodeError> {
    match v {
        ValueModel::String(s) => Ok(Some(s)),
        ValueModel::Null => Ok(None),
        _ => Err(DecodeError::ConversionFromValue(v)),
    }
}

/// A message with a single map field.
pub open spec fn with_entries(
    v: ValueModel,
    make: spec_fn(Seq<(ValueModel, ValueModel)>) -> MessageModel,
) -> Result<MessageModel, DecodeError> {
    match as_entries(v) {
        Ok(e) => Ok(make(e)),
        Err(err) => Err(err),
    }
}

/// The message with signature `sig` made from its decoded fields, converting each
/// field in order; the first field of the wrong kind is the error.
pub open spec fn message_from_fields(sig: u8, f: Seq<ValueModel>) -> Result<MessageModel, DecodeError> {
    if sig == SIGNATURE_INIT && f.len() == 1 {
        with_entries(f[0], |e| MessageModel::Hello(e))
    } else if sig == SIGNATURE_INIT && f.len() == 2 {
        match as_string(f[0]) {
            Err(err) => Err(err),
            Ok(ua) => with_entries(f[1], |e| MessageModel::Init(ua, e)),
        }
    } else if sig == SIGNATURE_RUN && f.len() == 2 {
        match as_string(f[0]) {
            Err(err) => Err(err),
            Ok(q) => with_entries(f[1], |e| MessageModel::Run(q, e)),
        }
    } else if sig == SIGNATURE_RUN && f.len() == 3 {
        match as_string(f[0]) {
            Err(err) => Err(err),
            Ok(q) => match as_entries(f[1]) {
                Err(err) => Err(err),
                Ok(p) => with_entries(f[2], |e| MessageModel::RunWithMetadata(q, p, e)),
            },
        }
    } else if sig == SIGNATURE_DISCARD_ALL && f.len() == 0 {
        Ok(MessageModel::DiscardAll)
    } else if sig == SIGNATURE_DISCARD_ALL && f.len() == 1 {
        with_entries(f[0], |e| MessageModel::Discard(e))
    } else if sig == SIGNATURE_PULL_ALL && f.len() == 0 {
        Ok(MessageModel::PullAll)
    } else if sig == SIGNATURE_PULL_ALL && f.len() == 1 {
        with_entries(f[0], |e| MessageModel::Pull(e))
    } else if sig == SIGNATURE_ACK_FAILURE {
        Ok(MessageModel::AckFailure)
    } else if sig == SIGNATURE_RESET {
        Ok(MessageModel::Reset)
    } else if sig == SIGNATURE_IGNORED {
        Ok(MessageModel::Ignored)
    } else if sig == SIGNATURE_GOODBYE {
        Ok(MessageModel::Goodbye)
    } else if sig == SIGNATURE_COMMIT {
        Ok(MessageModel::Commit)
    } else if sig == SIGNATURE_ROLLBACK {
        Ok(MessageModel::Rollback)
    } else if sig == SIGNATURE_RECORD {
        match as_list(f[0]) {
            Err(err) => Err(err),
            Ok(items) => Ok(MessageModel::Record(items)),
        }
    } else if sig == SIGNATURE_SUCCESS {
        with_entries(f[0], |e| MessageModel::Success(e))
    } else if sig == SIGNATURE_FAILURE {
        with_entries(f[0], |e| MessageModel::Failure(e))
    } else if sig == SIGNATURE_BEGIN {
        with_entries(f[0], |e| MessageModel::Begin(e))
    } else {
        match as_entries(f[0]) {
            Err(err) => Err(err),
            Ok(ctx) => match as_strings(f[1]) {
                Err(err) => Err(err),
                Ok(bookmarks) => if f[2] is Dictionary {
                    with_entries(f[2], |e| MessageModel::RouteWithMetadata(ctx, bookmarks, e))
                } else {
                    match as_opt_string(f[2]) {
                        Err(err) => Err(err),
                        Ok(db) => Ok(MessageModel::Route(ctx, bookmarks, db)),
                    }
                },
            },
        }
    }
}

/// Decoding the message at the start of `s`: the message and the number of bytes it
/// takes.
pub open spec fn parse_message(s: Seq<u8>) -> Result<(MessageModel, int), DecodeError> {
    if s.len() == 0 {
        Err(DecodeError::Truncated)
    } else {
        let m = s[0];
        if in_family(m, MARKER_TINY_STRUCT, MARKER_SMALL_STRUCT, false) {
            match parse_size(s, 0, m, MARKER_TINY_STRUCT, MARKER_SMALL_STRUCT) {
                Err(e) => Err(e),
                Ok((size, start)) => if start < s.len() {
                    let sig = s[start];
                    match message_shape(sig, size) {
                        Err(e) => Err(e),
                        Ok(k) => match parse_values(s, start + 1, k) {
                            Err(e) => Err(e),
                            Ok((fields, end)) => match message_from_fields(sig, fields) {
                                Err(e) => Err(e),
                                Ok(msg) => Ok((msg, end)),
                            },
                        },
                    }
                } else {
                    Err(DecodeError::Truncated)
                },
            }
        } else {
            Err(DecodeError::InvalidMarkerByte(m))
        }
    }
}

/// A map field that decodes back to itself: string keys, distinct, and well-formed
/// values.
pub open spec fn entries_well_formed(e: Seq<(ValueModel, ValueModel)>) -> bool {
    string_keys(e) && keys_distinct(e) && well_formed_entries(e)
}

/// A message whose fields decode back to themselves.
pub open spec fn message_well_formed(m: MessageModel) -> bool {
    match m {
        MessageModel::Init(_, a) => entries_well_formed(a),
        MessageModel::Run(_, p) => entries_well_formed(p),
        MessageModel::Record(f) => well_formed_seq(f),
        MessageModel::Success(md) => entries_well_formed(md),
        MessageModel::Failure(md) => entries_well_formed(md),
        MessageModel::Hello(md) => entries_well_formed(md),
        MessageModel::RunWithMetadata(_, p, md) => entries_well_formed(p) && entries_well_formed(
            md,
        ),
        MessageModel::Begin(md) => entries_well_formed(md),
        MessageModel::Discard(md) => entries_well_formed(md),
        MessageModel::Pull(md) => entries_well_formed(md),
        MessageModel::Route(ctx, _, _) => entries_well_formed(ctx),
        MessageModel::RouteWithMetadata(ctx, _, md) => entries_well_formed(ctx)
            && entries_well_formed(md),
        _ => true,
    }
}

/// A sequence is well formed exactly when each of its values is.
pub proof fn lemma_well_formed_seq(items: Seq<ValueModel>)
    ensures
        well_formed_seq(items) <==> forall|i: int|
            0 <= i < items.len() ==> well_formed(#[trigger] items[i]),
    decreases items.len(),
{
    if items.len() > 0 {
        lemma_well_formed_seq(items.drop_last());
        if well_formed_seq(items) {
            assert forall|i: int| 0 <= i < items.len() implies well_formed(#[trigger] items[i]) by {
                if i < items.len() - 1 {
                    assert(items.drop_last()[i] == items[i]);
                }
            }
        }
        if forall|i: int| 0 <= i < items.len() ==> well_formed(#[trigger] items[i]) {
            assert forall|i: int| 0 <= i < items.drop_last().len() implies well_formed(
                #[trigger] items.drop_last()[i],
            ) by {
                assert(items.drop_last()[i] == items[i]);
            }
            assert(well_formed(items[items.len() - 1]));
        }
    }
}

/// The fields of a well-formed message are well-formed values.
proof fn lemma_fields_well_formed(m: MessageModel)
    requires
        message_well_formed(m),
    ensures
        well_formed_seq(fields_of(m)),
{
    let f = fields_of(m);
    lemma_well_formed_seq(f);
    match m {
        MessageModel::Route(_, b, _) => {
            lemma_well_formed_seq(strings_value(b)->List_0);
        },
        MessageModel::RouteWithMetadata(_, b, _) => {
            lemma_well_formed_seq(strings_value(b)->List_0);
        },
        _ => {},
    }
}

/// The fields of a well-formed message convert back to the message.
proof fn lemma_message_from_fields(m: MessageModel)
    requires
        message_well_formed(m),
    ensures
        message_from_fields(signature_of(m), fields_of(m)) == Ok::<MessageModel, DecodeError>(m),
        message_shape(signature_of(m), fields_of(m).len()) == Ok::<nat, DecodeError>(
            fields_of(m).len(),
        ),
{
    match m {
        MessageModel::Route(ctx, b, db) => {
            let items = strings_value(b)->List_0;
            assert(items.map_values(|x: ValueModel| x->String_0) =~= b);
        },
        MessageModel::RouteWithMetadata(ctx, b, md) => {
            let items = strings_value(b)->List_0;
            assert(items.map_values(|x: ValueModel| x->String_0) =~= b);
        },
        _ => {},
    }
}

/// Decoding the encoding of a well-formed message whose sizes all fit gives the
/// message back, whatever bytes follow it, and stops right after the encoding.
pub proof fn law_message_decode_after_encode(m: MessageModel, rest: Seq<u8>)
    requires
        message_well_formed(m),
        first_oversize_seq(fields_of(m)) is None,
    ensures
        parse_message(ser_message(m) + rest) == Ok::<(MessageModel, int), DecodeError>(
            (m, ser_message(m).len() as int),
        ),
{
    let sig = signature_of(m);
    let f = fields_of(m);
    let h = sized_header(MARKER_TINY_STRUCT, MARKER_SMALL_STRUCT, f.len());
    let s = ser_message(m) + rest;
    assert(ser_message(m) == (h + seq![sig]) + ser_seq(f));
    assert(s.subrange(0, ser_message(m).len() as int) =~= ser_message(m));
    assert(bytes_at(s, 0, ser_message(m)));
    lemma_bytes_at_split(s, 0, h + seq![sig], ser_seq(f));
    lemma_bytes_at_split(s, 0, h, seq![sig]);
    lemma_sized_header(s, 0, MARKER_TINY_STRUCT, MARKER_SMALL_STRUCT, f.len());
    lemma_bytes_at_index(s, h.len() as int, seq![sig]);
    assert(s[h.len() + 0int] == seq![sig][0]);
    lemma_fields_well_formed(m);
    lemma_parse_ser_seq(f, s, h.len() + 1int);
    lemma_message_from_fields(m);
}

/// Each message is encoded as the structure of its signature byte whose fields are, in
/// this order: for `INIT` the user agent and the authentication token; for `RUN` the
/// query and its parameters; for `RUN` with metadata the statement, the parameters and
/// the metadata; for `RECORD` the list of its fields; for `SUCCESS`, `FAILURE`, `HELLO`,
/// `BEGIN`, `DISCARD` and `PULL` their metadata; for `ROUTE` the routing context, the
/// bookmarks and the database (or null), or with metadata the context, the bookmarks and
/// the metadata; the other messages have no field.
pub proof fn law_message_encoding(
    q: Seq<char>,
    a: Seq<(ValueModel, ValueModel)>,
    b: Seq<(ValueModel, ValueModel)>,
    fields: Seq<ValueModel>,
    bookmarks: Seq<Seq<char>>,
    db: Option<Seq<char>>,
)
    ensures
        ser_message(MessageModel::Init(q, a)) == ser(
            ValueModel::Structure(0x01, seq![ValueModel::String(q), ValueModel::Dictionary(a)]),
        ),
        ser_message(MessageModel::Run(q, a)) == ser(
            ValueModel::Structure(0x10, seq![ValueModel::String(q), ValueModel::Dictionary(a)]),
        ),
        ser_message(MessageModel::RunWithMetadata(q, a, b)) == ser(
            ValueModel::Structure(
                0x10,
                seq![ValueModel::String(q), ValueModel::Dictionary(a), ValueModel::Dictionary(b)],
            ),
        ),
        ser_message(MessageModel::Record(fields)) == ser(
            ValueModel::Structure(0x71, seq![ValueModel::List(fields)]),
        ),
        ser_message(MessageModel::Success(a)) == ser(
            ValueModel::Structure(0x70, seq![ValueModel::Dictionary(a)]),
        ),
        ser_message(MessageModel::Failure(a)) == ser(
            ValueModel::Structure(0x7F, seq![ValueModel::Dictionary(a)]),
        ),
        ser_message(MessageModel::Hello(a)) == ser(
            ValueModel::Structure(0x01, seq![ValueModel::Dictionary(a)]),
        ),
        ser_message(MessageModel::Begin(a)) == ser(
            ValueModel::Structure(0x11, seq![ValueModel::Dictionary(a)]),
        ),
        ser_message(MessageModel::Discard(a)) == ser(
            ValueModel::Structure(0x2F, seq![ValueModel::Dictionary(a)]),
        ),
        ser_message(MessageModel::Pull(a)) == ser(
            ValueModel::Structure(0x3F, seq![ValueModel::Dictionary(a)]),
        ),
        ser_message(MessageModel::Route(a, bookmarks, db)) == ser(
            ValueModel::Structure(
                0x66,
                seq![
                    ValueModel::Dictionary(a),
                    ValueModel::List(bookmarks.map_values(|x: Seq<char>| ValueModel::String(x))),
                    match db {
                        Some(d) => ValueModel::String(d),
                        None => ValueModel::Null,
                    },
                ],
            ),
        ),
        ser_message(MessageModel::RouteWithMetadata(a, bookmarks, b)) == ser(
            ValueModel::Structure(
                0x66,
                seq![
                    ValueModel::Dictionary(a),
                    ValueModel::List(bookmarks.map_values(|x: Seq<char>| ValueModel::String(x))),
                    ValueModel::Dictionary(b),
                ],
            ),
        ),
        ser_message(MessageModel::DiscardAll) == ser(ValueModel::Structure(0x2F, Seq::empty())),
        ser_message(MessageModel::PullAll) == ser(ValueModel::Structure(0x3F, Seq::empty())),
        ser_message(MessageModel::AckFailure) == ser(ValueModel::Structure(0x0E, Seq::empty())),
        ser_message(MessageModel::Reset) == ser(ValueModel::Structure(0x0F, Seq::empty())),
        ser_message(MessageModel::Ignored) == ser(ValueModel::Structure(0x7E, Seq::empty())),
        ser_message(MessageModel::Goodbye) == ser(ValueModel::Structure(0x02, Seq::empty())),
        ser_message(MessageModel::Commit) == ser(ValueModel::Structure(0x12, Seq::empty())),
        ser_message(MessageModel::Rollback) == ser(ValueModel::Structure(0x13, Seq::empty())),
{
    assert(fields_of(MessageModel::DiscardAll) =~= Seq::<ValueModel>::empty());
}

} // verus!
