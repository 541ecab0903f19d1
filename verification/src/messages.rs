//! Construction, field access and conversion of the individual messages, and the
//! messages without fields.
use vstd::prelude::*;

use bytes::Bytes;

use crate::buffers::{bytes_from_vec, bytes_view};

use crate::error::{ConversionError, DeserializationError, SerializationError};
use crate::message::{
    strings_model, Begin, Discard, Failure, Hello, Init, Message, Pull, Record, Route, RouteWithMetadata, Run,
    RunWithMetadata, Success, SIGNATURE_ACK_FAILURE, SIGNATURE_DISCARD_ALL, SIGNATURE_GOODBYE,
    SIGNATURE_IGNORED, SIGNATURE_INIT, SIGNATURE_PULL_ALL, SIGNATURE_RESET,
};
use crate::message_codec::serialize_structure;
use crate::packstream::{first_oversize_seq, ser, MARKER_TINY_STRUCT};
use crate::value::{copy_values, lemma_seq_models, seq_models, BoltMap, BoltValue, ValueModel};
use crate::value_map::ValueMap;

verus! {

broadcast use vstd::std_specs::vec::group_vec_axioms;

impl Init {
    pub fn new(user_agent: String, auth_token: ValueMap) -> (m: Init)
        ensures
            m.user_agent == user_agent,
            m.auth_token == auth_token,
    {
        Init { user_agent, auth_token }
    }

    pub fn user_agent(&self) -> (r: &str)
        ensures
            r@ == self.user_agent@,
    {
        self.user_agent.as_str()
    }

    pub fn auth_token(&self) -> (r: &ValueMap)
        ensures
            *r == self.auth_token,
    {
        &self.auth_token
    }
}

impl Run {
    pub fn new(query: String, parameters: ValueMap) -> (m: Run)
        ensures
            m.query == query,
            m.parameters == parameters,
    {
        Run { query, parameters }
    }

    pub fn query(&self) -> (r: &str)
        ensures
            r@ == self.query@,
    {
        self.query.as_str()
    }

    pub fn parameters(&self) -> (r: &ValueMap)
        ensures
            *r == self.parameters,
    {
        &self.parameters
    }
}

impl Record {
    pub fn new(fields: Vec<BoltValue>) -> (m: Record)
        ensures
            m.fields == fields,
    {
        Record { fields }
    }

    pub fn fields(&self) -> (r: &[BoltValue])
        ensures
            r@ == self.fields@,
    {
        self.fields.as_slice()
    }
}

impl RunWithMetadata {
    pub fn new(statement: String, parameters: ValueMap, metadata: ValueMap) -> (m: RunWithMetadata)
        ensures
            m.statement == statement,
            m.parameters == parameters,
            m.metadata == metadata,
    {
        RunWithMetadata { statement, parameters, metadata }
    }

    pub fn statement(&self) -> (r: &str)
        ensures
            r@ == self.statement@,
    {
        self.statement.as_str()
    }

    pub fn parameters(&self) -> (r: &ValueMap)
        ensures
            *r == self.parameters,
    {
        &self.parameters
    }

    pub fn metadata(&self) -> (r: &ValueMap)
        ensures
            *r == self.metadata,
    {
        &self.metadata
    }
}

impl Route {
    pub fn new(context: ValueMap, bookmarks: Vec<String>, db: Option<String>) -> (m: Route)
        ensures
            m.context == context,
            m.bookmarks == bookmarks,
            m.db == db,
    {
        Route { context, bookmarks, db }
    }

    pub fn context(&self) -> (r: &ValueMap)
        ensures
            *r == self.context,
    {
        &self.context
    }

    pub fn bookmarks(&self) -> (r: &[String])
        ensures
            r@ == self.bookmarks@,
    {
        self.bookmarks.as_slice()
    }

    pub fn db(&self) -> (r: &Option<String>)
        ensures
            *r == self.db,
    {
        &self.db
    }
}

impl RouteWithMetadata {
    pub fn new(context: ValueMap, bookmarks: Vec<String>, metadata: ValueMap) -> (m:
        RouteWithMetadata)
        ensures
            m.context == context,
            m.bookmarks == bookmarks,
            m.metadata == metadata,
    {
        RouteWithMetadata { context, bookmarks, metadata }
    }

    pub fn context(&self) -> (r: &ValueMap)
        ensures
            *r == self.context,
    {
        &self.context
    }

    pub fn bookmarks(&self) -> (r: &[String])
        ensures
            r@ == self.bookmarks@,
    {
        self.bookmarks.as_slice()
    }

    pub fn metadata(&self) -> (r: &ValueMap)
        ensures
            *r == self.metadata,
    {
        &self.metadata
    }
}

impl Success {
    pub fn new(metadata: ValueMap) -> (m: Success)
        ensures
            m.metadata == metadata,
    {
        Success { metadata }
    }

    pub fn metadata(&self) -> (r: &ValueMap)
        ensures
            *r == self.metadata,
    {
        &self.metadata
    }
}

impl Failure {
    pub fn new(metadata: ValueMap) -> (m: Failure)
        ensures
            m.metadata == metadata,
    {
        Failure { metadata }
    }

    pub fn metadata(&self) -> (r: &ValueMap)
        ensures
            *r == self.metadata,
    {
        &self.metadata
    }
}

impl Hello {
    pub fn new(metadata: ValueMap) -> (m: Hello)
        ensures
            m.metadata == metadata,
    {
        Hello { metadata }
    }

    pub fn metadata(&self) -> (r: &ValueMap)
        ensures
            *r == self.metadata,
    {
        &self.metadata
    }
}

impl Begin {
    pub fn new(metadata: ValueMap) -> (m: Begin)
        ensures
            m.metadata == metadata,
    {
        Begin { metadata }
    }

    pub fn metadata(&self) -> (r: &ValueMap)
        ensures
            *r == self.metadata,
    {
        &self.metadata
    }
}

impl Discard {
    pub fn new(metadata: ValueMap) -> (m: Discard)
        ensures
            m.metadata == metadata,
    {
        Discard { metadata }
    }

    pub fn metadata(&self) -> (r: &ValueMap)
        ensures
            *r == self.metadata,
    {
        &self.metadata
    }
}

impl Pull {
    pub fn new(metadata: ValueMap) -> (m: Pull)
        ensures
            m.metadata == metadata,
    {
        Pull { metadata }
    }

    pub fn metadata(&self) -> (r: &ValueMap)
        ensures
            *r == self.metadata,
    {
        &self.metadata
    }
}

impl Init {
    /// The `Init` message inside `message`, or the conversion error that holds
    /// `message`.
    pub fn try_from_message(message: Message) -> (res: Result<Init, ConversionError>)
        ensures
            match message {
                Message::Init(inner) => res matches Ok(r) && r == inner,
                _ => res matches Err(ConversionError::FromMessage(m)) && m == message,
            },
    {
        match message {
            Message::Init(inner) => Ok(inner),
            other => Err(ConversionError::FromMessage(other)),
        }
    }
}

impl Run {
    /// The `Run` message inside `message`, or the conversion error that holds
    /// `message`.
    pub fn try_from_message(message: Message) -> (res: Result<Run, ConversionError>)
        ensures
            match message {
                Message::Run(inner) => res matches Ok(r) && r == inner,
                _ => res matches Err(ConversionError::FromMessage(m)) && m == message,
            },
    {
        match message {
            Message::Run(inner) => Ok(inner),
            other => Err(ConversionError::FromMessage(other)),
        }
    }
}

impl Record {
    /// The `Record` message inside `message`, or the conversion error that holds
    /// `message`.
    pub fn try_from_message(message: Message) -> (res: Result<Record, ConversionError>)
        ensures
            match message {
                Message::Record(inner) => res matches Ok(r) && r == inner,
                _ => res matches Err(ConversionError::FromMessage(m)) && m == message,
            },
    {
        match message {
            Message::Record(inner) => Ok(inner),
            other => Err(ConversionError::FromMessage(other)),
        }
    }
}

impl Success {
    /// The `Success` message inside `message`, or the conversion error that holds
    /// `message`.
    pub fn try_from_message(message: Message) -> (res: Result<Success, ConversionError>)
        ensures
            match message {
                Message::Success(inner) => res matches Ok(r) && r == inner,
                _ => res matches Err(ConversionError::FromMessage(m)) && m == message,
            },
    {
        match message {
            Message::Success(inner) => Ok(inner),
            other => Err(ConversionError::FromMessage(other)),
        }
    }
}

impl Failure {
    /// The `Failure` message inside `message`, or the conversion error that holds
    /// `message`.
    pub fn try_from_message(message: Message) -> (res: Result<Failure, ConversionError>)
        ensures
            match message {
                Message::Failure(inner) => res matches Ok(r) && r == inner,
                _ => res matches Err(ConversionError::FromMessage(m)) && m == message,
            },
    {
        match message {
            Message::Failure(inner) => Ok(inner),
            other => Err(ConversionError::FromMessage(other)),
        }
    }
}

impl Hello {
    /// The `Hello` message inside `message`, or the conversion error that holds
    /// `message`.
    pub fn try_from_message(message: Message) -> (res: Result<Hello, ConversionError>)
        ensures
            match message {
                Message::Hello(inner) => res matches Ok(r) && r == inner,
                _ => res matches Err(ConversionError::FromMessage(m)) && m == message,
            },
    {
        match message {
            Message::Hello(inner) => Ok(inner),
            other => Err(ConversionError::FromMessage(other)),
        }
    }
}

impl RunWithMetadata {
    /// The `RunWithMetadata` message inside `message`, or the conversion error that holds
    /// `message`.
    pub fn try_from_message(message: Message) -> (res: Result<RunWithMetadata, ConversionError>)
        ensures
            match message {
                Message::RunWithMetadata(inner) => res matches Ok(r) && r == inner,
                _ => res matches Err(ConversionError::FromMessage(m)) && m == message,
            },
    {
        match message {
            Message::RunWithMetadata(inner) => Ok(inner),
            other => Err(ConversionError::FromMessage(other)),
        }
    }
}

impl Begin {
    /// The `Begin` message inside `message`, or the conversion error that holds
    /// `message`.
    pub fn try_from_message(message: Message) -> (res: Result<Begin, ConversionError>)
        ensures
            match message {
                Message::Begin(inner) => res matches Ok(r) && r == inner,
                _ => res matches Err(ConversionError::FromMessage(m)) && m == message,
            },
    {
        match message {
            Message::Begin(inner) => Ok(inner),
            other => Err(ConversionError::FromMessage(other)),
        }
    }
}

impl Discard {
    /// The `Discard` message inside `message`, or the conversion error that holds
    /// `message`.
    pub fn try_from_message(message: Message) -> (res: Result<Discard, ConversionError>)
        ensures
            match message {
                Message::Discard(inner) => res matches Ok(r) && r == inner,
                _ => res matches Err(ConversionError::FromMessage(m)) && m == message,
            },
    {
        match message {
            Message::Discard(inner) => Ok(inner),
            other => Err(ConversionError::FromMessage(other)),
        }
    }
}

impl Pull {
    /// The `Pull` message inside `message`, or the conversion error that holds
    /// `message`.
    pub fn try_from_message(message: Message) -> (res: Result<Pull, ConversionError>)
        ensures
            match message {
                Message::Pull(inner) => res matches Ok(r) && r == inner,
                _ => res matches Err(ConversionError::FromMessage(m)) && m == message,
            },
    {
        match message {
            Message::Pull(inner) => Ok(inner),
            other => Err(ConversionError::FromMessage(other)),
        }
    }
}

impl Route {
    /// The `Route` message inside `message`, or the conversion error that holds
    /// `message`.
    pub fn try_from_message(message: Message) -> (res: Result<Route, ConversionError>)
        ensures
            match message {
                Message::Route(inner) => res matches Ok(r) && r == inner,
                _ => res matches Err(ConversionError::FromMessage(m)) && m == message,
            },
    {
        match message {
            Message::Route(inner) => Ok(inner),
            other => Err(ConversionError::FromMessage(other)),
        }
    }
}

impl RouteWithMetadata {
    /// The `RouteWithMetadata` message inside `message`, or the conversion error that holds
    /// `message`.
    pub fn try_from_message(message: Message) -> (res: Result<RouteWithMetadata, ConversionError>)
        ensures
            match message {
                Message::RouteWithMetadata(inner) => res matches Ok(r) && r == inner,
                _ => res matches Err(ConversionError::FromMessage(m)) && m == message,
            },
    {
        match message {
            Message::RouteWithMetadata(inner) => Ok(inner),
            other => Err(ConversionError::FromMessage(other)),
        }
    }
}

/// The encoding of a message without fields.
fn empty_message_bytes(sig: u8) -> (res: Result<Bytes, SerializationError>)
    ensures
        res matches Ok(bytes) && bytes_view(bytes) == ser(ValueModel::Structure(sig, Seq::empty())),
{
    let fields: Vec<BoltValue> = Vec::new();
    let mut out: Vec<u8> = Vec::new();
    proof {
        assert(seq_models(fields@) =~= Seq::<ValueModel>::empty());
    }
    match serialize_structure(sig, &fields, &mut out) {
        Ok(()) => {
            assert(out@ =~= ser(ValueModel::Structure(sig, Seq::empty())));
            Ok(bytes_from_vec(out))
        },
        Err(e) => {
            assert(first_oversize_seq(Seq::<ValueModel>::empty()) is None);
            Err(e)
        },
    }
}

/// `ACK_FAILURE` (Bolt v1 - v2): acknowledges a failure.
#[derive(Debug, PartialEq)]
pub struct AckFailure;

impl AckFailure {
    /// The `AckFailure` message itself, or the conversion error that holds `message`.
    pub fn try_from_message(message: Message) -> (res: Result<AckFailure, ConversionError>)
        ensures
            message is AckFailure ==> res is Ok,
            !(message is AckFailure) ==> (res matches Err(ConversionError::FromMessage(m)) && m
                == message),
    {
        match message {
            Message::AckFailure => Ok(AckFailure),
            other => Err(ConversionError::FromMessage(other)),
        }
    }

    /// Reads the fields of this message, which has none: nothing is read.
    pub fn try_from_bytes(_bytes: &[u8]) -> (res: Result<AckFailure, DeserializationError>)
        ensures
            res is Ok,
    {
        Ok(AckFailure)
    }

    /// The marker of this message: a structure without fields.
    pub fn get_marker(&self) -> (res: Result<u8, SerializationError>)
        ensures
            res matches Ok(m) && m == MARKER_TINY_STRUCT,
    {
        Ok(MARKER_TINY_STRUCT)
    }

    pub fn get_signature(&self) -> (sig: u8)
        ensures
            sig == SIGNATURE_ACK_FAILURE,
    {
        SIGNATURE_ACK_FAILURE
    }

    /// The encoding of this message: its marker and its signature.
    pub fn try_into_bytes(&self) -> (res: Result<Bytes, SerializationError>)
        ensures
            res matches Ok(bytes) && bytes_view(bytes) == ser(ValueModel::Structure(SIGNATURE_ACK_FAILURE, Seq::empty())),
    {
        empty_message_bytes(SIGNATURE_ACK_FAILURE)
    }
}

/// `DISCARD_ALL` (Bolt v1 - v3): discards all records of a result.
#[derive(Debug, PartialEq)]
pub struct DiscardAll;

impl DiscardAll {
    /// The `DiscardAll` message itself, or the conversion error that holds `message`.
    pub fn try_from_message(message: Message) -> (res: Result<DiscardAll, ConversionError>)
        ensures
            message is DiscardAll ==> res is Ok,
            !(message is DiscardAll) ==> (res matches Err(ConversionError::FromMessage(m)) && m
                == message),
    {
        match message {
            Message::DiscardAll => Ok(DiscardAll),
            other => Err(ConversionError::FromMessage(other)),
        }
    }

    /// Reads the fields of this message, which has none: nothing is read.
    pub fn try_from_bytes(_bytes: &[u8]) -> (res: Result<DiscardAll, DeserializationError>)
        ensures
            res is Ok,
    {
        Ok(DiscardAll)
    }

    /// The marker of this message: a structure without fields.
    pub fn get_marker(&self) -> (res: Result<u8, SerializationError>)
        ensures
            res matches Ok(m) && m == MARKER_TINY_STRUCT,
    {
        Ok(MARKER_TINY_STRUCT)
    }

    pub fn get_signature(&self) -> (sig: u8)
        ensures
            sig == SIGNATURE_DISCARD_ALL,
    {
        SIGNATURE_DISCARD_ALL
    }

    /// The encoding of this message: its marker and its signature.
    pub fn try_into_bytes(&self) -> (res: Result<Bytes, SerializationError>)
        ensures
            res matches Ok(bytes) && bytes_view(bytes) == ser(ValueModel::Structure(SIGNATURE_DISCARD_ALL, Seq::empty())),
    {
        empty_message_bytes(SIGNATURE_DISCARD_ALL)
    }
}

/// `PULL_ALL` (Bolt v1 - v3): fetches all records of a result.
#[derive(Debug, PartialEq)]
pub struct PullAll;

impl PullAll {
    /// The `PullAll` message itself, or the conversion error that holds `message`.
    pub fn try_from_message(message: Message) -> (res: Result<PullAll, ConversionError>)
        ensures
            message is PullAll ==> res is Ok,
            !(message is PullAll) ==> (res matches Err(ConversionError::FromMessage(m)) && m
                == message),
    {
        match message {
            Message::PullAll => Ok(PullAll),
            other => Err(ConversionError::FromMessage(other)),
        }
    }

    /// Reads the fields of this message, which has none: nothing is read.
    pub fn try_from_bytes(_bytes: &[u8]) -> (res: Result<PullAll, DeserializationError>)
        ensures
            res is Ok,
    {
        Ok(PullAll)
    }

    /// The marker of this message: a structure without fields.
    pub fn get_marker(&self) -> (res: Result<u8, SerializationError>)
        ensures
            res matches Ok(m) && m == MARKER_TINY_STRUCT,
    {
        Ok(MARKER_TINY_STRUCT)
    }

    pub fn get_signature(&self) -> (sig: u8)
        ensures
            sig == SIGNATURE_PULL_ALL,
    {
        SIGNATURE_PULL_ALL
    }

    /// The encoding of this message: its marker and its signature.
    pub fn try_into_bytes(&self) -> (res: Result<Bytes, SerializationError>)
        ensures
            res matches Ok(bytes) && bytes_view(bytes) == ser(ValueModel::Structure(SIGNATURE_PULL_ALL, Seq::empty())),
    {
        empty_message_bytes(SIGNATURE_PULL_ALL)
    }
}

/// `RESET`: returns the connection to a clean state.
#[derive(Debug, PartialEq)]
pub struct Reset;

impl Reset {
    /// The `Reset` message itself, or the conversion error that holds `message`.
    pub fn try_from_message(message: Message) -> (res: Result<Reset, ConversionError>)
        ensures
            message is Reset ==> res is Ok,
            !(message is Reset) ==> (res matches Err(ConversionError::FromMessage(m)) && m
                == message),
    {
        match message {
            Message::Reset => Ok(Reset),
            other => Err(ConversionError::FromMessage(other)),
        }
    }

    /// Reads the fields of this message, which has none: nothing is read.
    pub fn try_from_bytes(_bytes: &[u8]) -> (res: Result<Reset, DeserializationError>)
        ensures
            res is Ok,
    {
        Ok(Reset)
    }

    /// The marker of this message: a structure without fields.
    pub fn get_marker(&self) -> (res: Result<u8, SerializationError>)
        ensures
            res matches Ok(m) && m == MARKER_TINY_STRUCT,
    {
        Ok(MARKER_TINY_STRUCT)
    }

    pub fn get_signature(&self) -> (sig: u8)
        ensures
            sig == SIGNATURE_RESET,
    {
        SIGNATURE_RESET
    }

    /// The encoding of this message: its marker and its signature.
    pub fn try_into_bytes(&self) -> (res: Result<Bytes, SerializationError>)
        ensures
            res matches Ok(bytes) && bytes_view(bytes) == ser(ValueModel::Structure(SIGNATURE_RESET, Seq::empty())),
    {
        empty_message_bytes(SIGNATURE_RESET)
    }
}

/// `IGNORED`: a request was ignored.
#[derive(Debug, PartialEq)]
pub struct Ignored;

impl Ignored {
    /// The `Ignored` message itself, or the conversion error that holds `message`.
    pub fn try_from_message(message: Message) -> (res: Result<Ignored, ConversionError>)
        ensures
            message is Ignored ==> res is Ok,
            !(message is Ignored) ==> (res matches Err(ConversionError::FromMessage(m)) && m
                == message),
    {
        match message {
            Message::Ignored => Ok(Ignored),
            other => Err(ConversionError::FromMessage(other)),
        }
    }

    /// Reads the fields of this message, which has none: nothing is read.
    pub fn try_from_bytes(_bytes: &[u8]) -> (res: Result<Ignored, DeserializationError>)
        ensures
            res is Ok,
    {
        Ok(Ignored)
    }

    /// The marker of this message: a structure without fields.
    pub fn get_marker(&self) -> (res: Result<u8, SerializationError>)
        ensures
            res matches Ok(m) && m == MARKER_TINY_STRUCT,
    {
        Ok(MARKER_TINY_STRUCT)
    }

    pub fn get_signature(&self) -> (sig: u8)
        ensures
            sig == SIGNATURE_IGNORED,
    {
        SIGNATURE_IGNORED
    }

    /// The encoding of this message: its marker and its signature.
    pub fn try_into_bytes(&self) -> (res: Result<Bytes, SerializationError>)
        ensures
            res matches Ok(bytes) && bytes_view(bytes) == ser(ValueModel::Structure(SIGNATURE_IGNORED, Seq::empty())),
    {
        empty_message_bytes(SIGNATURE_IGNORED)
    }
}

/// `GOODBYE` (Bolt v3+): announces that the client closes the connection.
#[derive(Debug, PartialEq)]
pub struct Goodbye;

impl Goodbye {
    /// The `Goodbye` message itself, or the conversion error that holds `message`.
    pub fn try_from_message(message: Message) -> (res: Result<Goodbye, ConversionError>)
        ensures
            message is Goodbye ==> res is Ok,
            !(message is Goodbye) ==> (res matches Err(ConversionError::FromMessage(m)) && m
                == message),
    {
        match message {
            Message::Goodbye => Ok(Goodbye),
            other => Err(ConversionError::FromMessage(other)),
        }
    }

    /// Reads the fields of this message, which has none: nothing is read.
    pub fn try_from_bytes(_bytes: &[u8]) -> (res: Result<Goodbye, DeserializationError>)
        ensures
            res is Ok,
    {
        Ok(Goodbye)
    }

    /// The marker of this message: a structure without fields.
    pub fn get_marker(&self) -> (res: Result<u8, SerializationError>)
        ensures
            res matches Ok(m) && m == MARKER_TINY_STRUCT,
    {
        Ok(MARKER_TINY_STRUCT)
    }

    pub fn get_signature(&self) -> (sig: u8)
        ensures
            sig == SIGNATURE_GOODBYE,
    {
        SIGNATURE_GOODBYE
    }

    /// The encoding of this message: its marker and its signature.
    pub fn try_into_bytes(&self) -> (res: Result<Bytes, SerializationError>)
        ensures
            res matches Ok(bytes) && bytes_view(bytes) == ser(ValueModel::Structure(SIGNATURE_GOODBYE, Seq::empty())),
    {
        empty_message_bytes(SIGNATURE_GOODBYE)
    }
}

/// `INIT` as a structure of two values: the client name and the authentication token.
#[derive(Debug, PartialEq)]
pub struct BoltInit {
    pub client_name: BoltValue,
    pub auth_token: BoltValue,
}

impl BoltInit {
    pub fn new(client_name: &str, auth_token: BoltMap) -> (m: BoltInit)
        ensures
            m.client_name@ == ValueModel::String(client_name@),
            m.auth_token == BoltValue::Dictionary(auth_token),
    {
        BoltInit {
            client_name: BoltValue::String(client_name.to_owned()),
            auth_token: BoltValue::Dictionary(auth_token),
        }
    }

    /// The marker of this message: a structure of two fields.
    pub fn get_marker(&self) -> (res: Result<u8, SerializationError>)
        ensures
            res matches Ok(m) && m == MARKER_TINY_STRUCT + 2,
    {
        Ok(MARKER_TINY_STRUCT + 2)
    }

    pub fn get_signature(&self) -> (sig: u8)
        ensures
            sig == SIGNATURE_INIT,
    {
        SIGNATURE_INIT
    }

    /// The encoding of this message, or the error for the first string, list or map,
    /// in the order of the encoding, that is too large to be announced.
    pub fn try_into_bytes(self) -> (res: Result<Bytes, SerializationError>)
        ensures
            match res {
                Ok(bytes) => {
                    &&& first_oversize_seq(seq![self.client_name@, self.auth_token@]) is None
                    &&& bytes_view(bytes) == ser(
                        ValueModel::Structure(
                            SIGNATURE_INIT,
                            seq![self.client_name@, self.auth_token@],
                        ),
                    )
                },
                Err(SerializationError::ValueTooLarge(n)) => first_oversize_seq(
                    seq![self.client_name@, self.auth_token@],
                ) == Some(n as nat),
            },
    {
        let ghost f = seq![self.client_name@, self.auth_token@];
        let mut fields: Vec<BoltValue> = Vec::new();
        fields.push(self.client_name);
        fields.push(self.auth_token);
        proof {
            lemma_seq_models(fields@);
            assert(seq_models(fields@) =~= f);
        }
        let mut out: Vec<u8> = Vec::new();
        serialize_structure(SIGNATURE_INIT, &fields, &mut out)?;
        assert(out@ =~= ser(ValueModel::Structure(SIGNATURE_INIT, f)));
        Ok(bytes_from_vec(out))
    }
}


/// A copy of a list of strings.
fn copy_strings(v: &Vec<String>) -> (r: Vec<String>)
    ensures
        strings_model(r@) == strings_model(v@),
{
    let mut out: Vec<String> = Vec::new();
    let mut i: usize = 0;
    while i < v.len()
        invariant
            i <= v.len(),
            out.len() == i,
            forall|j: int| 0 <= j < i ==> (#[trigger] out@[j])@ == v@[j]@,
        decreases v.len() - i,
    {
        out.push(v[i].clone());
        i = i + 1;
    }
    assert(strings_model(out@) =~= strings_model(v@));
    out
}

impl Clone for Message {
    /// A copy with the same model.
    fn clone(&self) -> (r: Message)
        ensures
            r@ == self@,
    {
        match self {
            Message::Init(m) => Message::Init(
                Init { user_agent: m.user_agent.clone(), auth_token: m.auth_token.clone() },
            ),
            Message::Run(m) => Message::Run(
                Run { query: m.query.clone(), parameters: m.parameters.clone() },
            ),
            Message::DiscardAll => Message::DiscardAll,
            Message::PullAll => Message::PullAll,
            Message::AckFailure => Message::AckFailure,
            Message::Reset => Message::Reset,
            Message::Record(m) => Message::Record(Record { fields: copy_values(&m.fields) }),
            Message::Success(m) => Message::Success(Success { metadata: m.metadata.clone() }),
            Message::Failure(m) => Message::Failure(Failure { metadata: m.metadata.clone() }),
            Message::Ignored => Message::Ignored,
            Message::Hello(m) => Message::Hello(Hello { metadata: m.metadata.clone() }),
            Message::Goodbye => Message::Goodbye,
            Message::RunWithMetadata(m) => Message::RunWithMetadata(
                RunWithMetadata {
                    statement: m.statement.clone(),
                    parameters: m.parameters.clone(),
                    metadata: m.metadata.clone(),
                },
            ),
            Message::Begin(m) => Message::Begin(Begin { metadata: m.metadata.clone() }),
            Message::Commit => Message::Commit,
            Message::Rollback => Message::Rollback,
            Message::Discard(m) => Message::Discard(Discard { metadata: m.metadata.clone() }),
            Message::Pull(m) => Message::Pull(Pull { metadata: m.metadata.clone() }),
            Message::Route(m) => Message::Route(
                Route {
                    context: m.context.clone(),
                    bookmarks: copy_strings(&m.bookmarks),
                    db: match &m.db {
                        Some(d) => Some(d.clone()),
                        None => None,
                    },
                },
            ),
            Message::RouteWithMetadata(m) => Message::RouteWithMetadata(
                RouteWithMetadata {
                    context: m.context.clone(),
                    bookmarks: copy_strings(&m.bookmarks),
                    metadata: m.metadata.clone(),
                },
            ),
        }
    }
}
} // verus!
