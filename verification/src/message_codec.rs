//! Encoding and decoding messages.
use vstd::prelude::*;

use bytes::Bytes;

use crate::buffers::{bytes_from_vec, bytes_view};

use crate::deserialization::{lemma_seq_equal, parse_values_at, read_size};
use crate::error::{ConversionError, DeserializationError, SerializationError};
use crate::message::{
    as_entries, as_list, as_opt_string, as_string, as_strings, fields_of, message_from_fields,
    message_shape, parse_message, ser_message, signature_of, string_keys, strings_model,
    strings_value, Begin, Discard, Failure, Hello, Init, Message, MessageModel, Pull, Record,
    Route, RouteWithMetadata, Run, RunWithMetadata, Success, SIGNATURE_ACK_FAILURE,
    SIGNATURE_BEGIN, SIGNATURE_COMMIT, SIGNATURE_DISCARD_ALL, SIGNATURE_FAILURE,
    SIGNATURE_GOODBYE, SIGNATURE_IGNORED, SIGNATURE_INIT, SIGNATURE_PULL_ALL, SIGNATURE_RECORD,
    SIGNATURE_RESET, SIGNATURE_ROLLBACK, SIGNATURE_ROUTE, SIGNATURE_RUN, SIGNATURE_SUCCESS,
};
use crate::packstream::{
    first_oversize, first_oversize_seq, in_family, ser, ser_seq, DecodeError,
    MARKER_SMALL_STRUCT, MARKER_TINY_STRUCT,
};
use crate::serialization::{lemma_ser_seq_push, push_item, push_sized_header};
use crate::value::{
    entry_models, lemma_entry_models, lemma_seq_models, seq_models, BoltMap, BoltValue, List,
    ValueModel,
};
use crate::value_map::{lemma_string_entries, string_entries, ValueMap};

verus! {

broadcast use vstd::std_specs::vec::group_vec_axioms;

/// The dictionary value holding the entries of a string-keyed map.
pub fn value_map_into_value(m: ValueMap) -> (v: BoltValue)
    ensures
        v@ == ValueModel::Dictionary(m@),
{
    let ghost orig = m.value@;
    proof {
        lemma_string_entries(orig);
    }
    let mut rest = m.value;
    let mut entries: Vec<(BoltValue, BoltValue)> = Vec::new();
    let n = rest.len();
    let mut i: usize = 0;
    while rest.len() > 0
        invariant
            orig.len() == n,
            i + rest.len() == n,
            rest@ == orig.skip(i as int),
            entries.len() == i,
            string_entries(orig).len() == n,
            forall|j: int|
                0 <= j < n ==> #[trigger] string_entries(orig)[j] == (
                    ValueModel::String(orig[j].0@),
                    orig[j].1@,
                ),
            forall|j: int|
                0 <= j < i ==> (#[trigger] entries@[j]).0@ == ValueModel::String(orig[j].0@)
                    && entries@[j].1@ == orig[j].1@,
        decreases rest.len(),
    {
        let ghost before = rest@;
        let (k, v) = rest.remove(0);
        proof {
            assert(orig.skip(i as int)[0] == orig[i as int]);
            assert forall|j: int| 0 <= j < rest@.len() implies rest@[j] == orig.skip(i + 1)[j] by {
                assert(rest@[j] == before[j + 1]);
                assert(orig.skip(i as int)[j + 1] == orig[i + 1 + j]);
                assert(orig.skip(i + 1)[j] == orig[i + 1 + j]);
            }
            assert(rest@ =~= orig.skip(i + 1));
        }
        entries.push((BoltValue::String(k), v));
        i = i + 1;
    }
    proof {
        lemma_entry_models(entries@);
        assert forall|j: int| 0 <= j < n implies entry_models(entries@)[j] == string_entries(
            orig,
        )[j] by {
            assert(entries@[j].0@ == ValueModel::String(orig[j].0@));
        }
        lemma_seq_equal(entry_models(entries@), string_entries(orig));
    }
    BoltValue::Dictionary(BoltMap { value: entries })
}

/// The list value holding the given strings.
pub fn strings_into_value(s: Vec<String>) -> (v: BoltValue)
    ensures
        v@ == strings_value(strings_model(s@)),
{
    let ghost orig = s@;
    let mut rest = s;
    let mut items: Vec<BoltValue> = Vec::new();
    let n = rest.len();
    let mut i: usize = 0;
    while rest.len() > 0
        invariant
            orig.len() == n,
            i + rest.len() == n,
            rest@ == orig.skip(i as int),
            items.len() == i,
            forall|j: int| 0 <= j < i ==> #[trigger] items@[j]@ == ValueModel::String(orig[j]@),
        decreases rest.len(),
    {
        let ghost before = rest@;
        let k = rest.remove(0);
        proof {
            assert(orig.skip(i as int)[0] == orig[i as int]);
            assert forall|j: int| 0 <= j < rest@.len() implies rest@[j] == orig.skip(i + 1)[j] by {
                assert(rest@[j] == before[j + 1]);
                assert(orig.skip(i as int)[j + 1] == orig[i + 1 + j]);
                assert(orig.skip(i + 1)[j] == orig[i + 1 + j]);
            }
            assert(rest@ =~= orig.skip(i + 1));
        }
        items.push(BoltValue::String(k));
        i = i + 1;
    }
    proof {
        lemma_seq_models(items@);
        assert forall|j: int| 0 <= j < n implies seq_models(items@)[j] == strings_model(
            orig,
        ).map_values(|x: Seq<char>| ValueModel::String(x))[j] by {
            assert(items@[j]@ == ValueModel::String(orig[j]@));
        }
        lemma_seq_equal(
            seq_models(items@),
            strings_model(orig).map_values(|x: Seq<char>| ValueModel::String(x)),
        );
    }
    BoltValue::List(List { value: items })
}

/// The value of an optional string: the string, or null.
pub fn opt_string_into_value(s: Option<String>) -> (v: BoltValue)
    ensures
        v@ == (match s {
            Some(d) => ValueModel::String(d@),
            None => ValueModel::Null,
        }),
{
    match s {
        Some(d) => BoltValue::String(d),
        None => BoltValue::Null,
    }
}

/// Appends the encoding of a structure of signature `sig` and its fields: the marker
/// (with the field count for up to fifteen fields, else followed by a one- or two-byte
/// count), the signature, then the fields. A structure of 65536 or more fields, or a
/// field too large to be announced, is the error, in the order of the encoding.
pub fn serialize_structure(sig: u8, fields: &Vec<BoltValue>, out: &mut Vec<u8>) -> (res: Result<
    (),
    SerializationError,
>)
    ensures
        match res {
            Ok(()) => {
                &&& first_oversize(ValueModel::Structure(sig, seq_models(fields@))) is None
                &&& final(out)@ == old(out)@ + ser(ValueModel::Structure(sig, seq_models(fields@)))
            },
            Err(SerializationError::ValueTooLarge(n)) => first_oversize(
                ValueModel::Structure(sig, seq_models(fields@)),
            ) == Some(n as nat),
        },
{
    let n = fields.len();
    proof {
        lemma_seq_models(fields@);
    }
    if n >= 65536 {
        return Err(SerializationError::ValueTooLarge(n));
    }
    push_sized_header(out, MARKER_TINY_STRUCT, MARKER_SMALL_STRUCT, n);
    out.push(sig);
    let ghost base = out@;
    let ghost items = seq_models(fields@);
    let mut i: usize = 0;
    assert(items.take(0) =~= Seq::<ValueModel>::empty());
    while i < n
        invariant
            n == fields.len(),
            n < 65536,
            items == seq_models(fields@),
            items.len() == n,
            forall|j: int| 0 <= j < n ==> #[trigger] items[j] == fields@[j]@,
            i <= n,
            out@ == base + ser_seq(items.take(i as int)),
            first_oversize_seq(items.take(i as int)) is None,
        decreases n - i,
    {
        assert(items.take(i as int).push(fields@[i as int]@) =~= items.take(i + 1));
        push_item(out, &fields[i], Ghost(base), Ghost(items.take(i as int)), Ghost(items))?;
        i = i + 1;
    }
    assert(items.take(n as int) =~= items);
    assert(final(out)@ =~= old(out)@ + ser(ValueModel::Structure(sig, items)));
    Ok(())
}

impl Message {
    /// The signature byte of this message.
    pub fn signature(&self) -> (sig: u8)
        ensures
            sig == signature_of(self@),
    {
        match self {
            Message::Init(_) => SIGNATURE_INIT,
            Message::Run(_) => SIGNATURE_RUN,
            Message::DiscardAll => SIGNATURE_DISCARD_ALL,
            Message::PullAll => SIGNATURE_PULL_ALL,
            Message::AckFailure => SIGNATURE_ACK_FAILURE,
            Message::Reset => SIGNATURE_RESET,
            Message::Record(_) => SIGNATURE_RECORD,
            Message::Success(_) => SIGNATURE_SUCCESS,
            Message::Failure(_) => SIGNATURE_FAILURE,
            Message::Ignored => SIGNATURE_IGNORED,
            Message::Hello(_) => SIGNATURE_INIT,
            Message::Goodbye => SIGNATURE_GOODBYE,
            Message::RunWithMetadata(_) => SIGNATURE_RUN,
            Message::Begin(_) => SIGNATURE_BEGIN,
            Message::Commit => SIGNATURE_COMMIT,
            Message::Rollback => SIGNATURE_ROLLBACK,
            Message::Discard(_) => SIGNATURE_DISCARD_ALL,
            Message::Pull(_) => SIGNATURE_PULL_ALL,
            Message::Route(_) => SIGNATURE_ROUTE,
            Message::RouteWithMetadata(_) => SIGNATURE_ROUTE,
        }
    }

    /// The marker byte that starts the encoding of this message.
    pub fn marker(&self) -> (m: u8)
        ensures
            m == ser_message(self@)[0],
    {
        let n: u8 = match self {
            Message::Init(_) => 2,
            Message::Run(_) => 2,
            Message::Record(_) => 1,
            Message::Success(_) => 1,
            Message::Failure(_) => 1,
            Message::Hello(_) => 1,
            Message::RunWithMetadata(_) => 3,
            Message::Begin(_) => 1,
            Message::Discard(_) => 1,
            Message::Pull(_) => 1,
            Message::Route(_) => 3,
            Message::RouteWithMetadata(_) => 3,
            _ => 0,
        };
        MARKER_TINY_STRUCT + n
    }

    /// The signature of this message and its fields as values, in order.
    pub fn into_fields(self) -> (res: (u8, Vec<BoltValue>))
        ensures
            res.0 == signature_of(self@),
            seq_models(res.1@) == fields_of(self@),
            res.1.len() <= 3,
    {
        let sig = self.signature();
        let ghost model = self@;
        let mut fields: Vec<BoltValue> = Vec::new();
        match self {
            Message::Init(m) => {
                fields.push(BoltValue::String(m.user_agent));
                fields.push(value_map_into_value(m.auth_token));
            },
            Message::Run(m) => {
                fields.push(BoltValue::String(m.query));
                fields.push(value_map_into_value(m.parameters));
            },
            Message::Record(m) => {
                fields.push(BoltValue::List(List { value: m.fields }));
            },
            Message::Success(m) => {
                fields.push(value_map_into_value(m.metadata));
            },
            Message::Failure(m) => {
                fields.push(value_map_into_value(m.metadata));
            },
            Message::Hello(m) => {
                fields.push(value_map_into_value(m.metadata));
            },
            Message::RunWithMetadata(m) => {
                fields.push(BoltValue::String(m.statement));
                fields.push(value_map_into_value(m.parameters));
                fields.push(value_map_into_value(m.metadata));
            },
            Message::Begin(m) => {
                fields.push(value_map_into_value(m.metadata));
            },
            Message::Discard(m) => {
                fields.push(value_map_into_value(m.metadata));
            },
            Message::Pull(m) => {
                fields.push(value_map_into_value(m.metadata));
            },
            Message::Route(m) => {
                fields.push(value_map_into_value(m.context));
                fields.push(strings_into_value(m.bookmarks));
                fields.push(opt_string_into_value(m.db));
            },
            Message::RouteWithMetadata(m) => {
                fields.push(value_map_into_value(m.context));
                fields.push(strings_into_value(m.bookmarks));
                fields.push(value_map_into_value(m.metadata));
            },
            _ => {},
        }
        proof {
            lemma_seq_models(fields@);
            lemma_seq_equal(seq_models(fields@), fields_of(model));
        }
        (sig, fields)
    }

    /// The encoding of this message, or the error for the first string, list or map,
    /// in the order of the encoding, that is too large to be announced.
    pub fn serialize(self) -> (res: Result<Bytes, SerializationError>)
        ensures
            match res {
                Ok(bytes) => {
                    &&& first_oversize_seq(fields_of(self@)) is None
                    &&& bytes_view(bytes) == ser_message(self@)
                },
                Err(SerializationError::ValueTooLarge(n)) => first_oversize_seq(
                    fields_of(self@),
                ) == Some(n as nat),
            },
    {
        let ghost model = self@;
        let (sig, fields) = self.into_fields();
        let mut out: Vec<u8> = Vec::new();
        serialize_structure(sig, &fields, &mut out)?;
        assert(out@ =~= ser_message(model));
        Ok(bytes_from_vec(out))
    }
}

/// A decoded field as a string, or the conversion error that holds it.
pub fn value_into_string(v: BoltValue) -> (res: Result<String, DeserializationError>)
    ensures
        match as_string(v@) {
            Ok(s) => res matches Ok(r) && r@ == s,
            Err(e) => res matches Err(err) && err@ == e,
        },
{
    match v {
        BoltValue::String(s) => Ok(s),
        other => Err(DeserializationError::ConversionError(ConversionError::FromValue(other))),
    }
}

/// A decoded field as an optional string: a string, or null.
pub fn value_into_opt_string(v: BoltValue) -> (res: Result<Option<String>, DeserializationError>)
    ensures
        match as_opt_string(v@) {
            Ok(Some(s)) => res matches Ok(Some(r)) && r@ == s,
            Ok(None) => res matches Ok(None),
            Err(e) => res matches Err(err) && err@ == e,
        },
{
    match v {
        BoltValue::String(s) => Ok(Some(s)),
        BoltValue::Null => Ok(None),
        other => Err(DeserializationError::ConversionError(ConversionError::FromValue(other))),
    }
}

/// A decoded field as a list of values.
pub fn value_into_list(v: BoltValue) -> (res: Result<Vec<BoltValue>, DeserializationError>)
    ensures
        match as_list(v@) {
            Ok(items) => res matches Ok(r) && seq_models(r@) == items,
            Err(e) => res matches Err(err) && err@ == e,
        },
{
    match v {
        BoltValue::List(l) => Ok(l.value),
        other => Err(DeserializationError::ConversionError(ConversionError::FromValue(other))),
    }
}

/// Whether every key of a map is a string.
fn keys_are_strings(m: &BoltMap) -> (b: bool)
    ensures
        b == string_keys(entry_models(m.value@)),
{
    proof {
        lemma_entry_models(m.value@);
    }
    let mut i: usize = 0;
    while i < m.value.len()
        invariant
            i <= m.value.len(),
            entry_models(m.value@).len() == m.value.len(),
            forall|j: int|
                0 <= j < m.value.len() ==> #[trigger] entry_models(m.value@)[j] == (
                    m.value@[j].0@,
                    m.value@[j].1@,
                ),
            forall|j: int| 0 <= j < i ==> (#[trigger] entry_models(m.value@)[j]).0 is String,
        decreases m.value.len() - i,
    {
        match &m.value[i].0 {
            BoltValue::String(_) => {},
            _ => {
                assert(!(entry_models(m.value@)[i as int].0 is String));
                return false;
            },
        }
        i = i + 1;
    }
    true
}

/// A decoded field as a string-keyed map, or the conversion error that holds it.
pub fn value_into_value_map(v: BoltValue) -> (res: Result<ValueMap, DeserializationError>)
    ensures
        match as_entries(v@) {
            Ok(e) => res matches Ok(r) && r@ == e,
            Err(e) => res matches Err(err) && err@ == e,
        },
{
    match v {
        BoltValue::Dictionary(m) => {
            if !keys_are_strings(&m) {
                return Err(
                    DeserializationError::ConversionError(
                        ConversionError::FromValue(BoltValue::Dictionary(m)),
                    ),
                );
            }
            let ghost orig = m.value@;
            proof {
                lemma_entry_models(orig);
            }
            let mut rest = m.value;
            let mut entries: Vec<(String, BoltValue)> = Vec::new();
            let n = rest.len();
            let mut i: usize = 0;
            while rest.len() > 0
                invariant
                    orig.len() == n,
                    i + rest.len() == n,
                    rest@ == orig.skip(i as int),
                    entries.len() == i,
                    entry_models(orig).len() == n,
                    string_keys(entry_models(orig)),
                    forall|j: int|
                        0 <= j < n ==> #[trigger] entry_models(orig)[j] == (
                            orig[j].0@,
                            orig[j].1@,
                        ),
                    forall|j: int|
                        0 <= j < i ==> ValueModel::String((#[trigger] entries@[j]).0@) == orig[j].0@
                            && entries@[j].1@ == orig[j].1@,
                decreases rest.len(),
            {
                let ghost before = rest@;
                let (k, val) = rest.remove(0);
                proof {
                    assert(orig.skip(i as int)[0] == orig[i as int]);
                    assert forall|j: int| 0 <= j < rest@.len() implies rest@[j] == orig.skip(i + 1)[j] by {
                        assert(rest@[j] == before[j + 1]);
                        assert(orig.skip(i as int)[j + 1] == orig[i + 1 + j]);
                        assert(orig.skip(i + 1)[j] == orig[i + 1 + j]);
                    }
                    assert(rest@ =~= orig.skip(i + 1));
                    assert(entry_models(orig)[i as int].0 is String);
                }
                match k {
                    BoltValue::String(key) => {
                        entries.push((key, val));
                    },
                    _ => {
                        proof {
                            assert(false);
                        }
                    },
                }
                i = i + 1;
            }
            proof {
                lemma_string_entries(entries@);
                lemma_seq_equal(string_entries(entries@), entry_models(orig));
            }
            Ok(ValueMap { value: entries })
        },
        other => Err(DeserializationError::ConversionError(ConversionError::FromValue(other))),
    }
}

/// A decoded field as a list of strings, or the conversion error that holds it.
pub fn value_into_strings(v: BoltValue) -> (res: Result<Vec<String>, DeserializationError>)
    ensures
        match as_strings(v@) {
            Ok(s) => res matches Ok(r) && strings_model(r@) == s,
            Err(e) => res matches Err(err) && err@ == e,
        },
{
    match v {
        BoltValue::List(l) => {
            let ghost orig = l.value@;
            let ghost vm = v@;
            proof {
                lemma_seq_models(orig);
            }
            let mut i: usize = 0;
            while i < l.value.len()
                invariant
                    orig == l.value@,
                    vm == v@,
                    vm == ValueModel::List(seq_models(orig)),
                    i <= l.value.len(),
                    seq_models(orig).len() == orig.len(),
                    forall|j: int| 0 <= j < orig.len() ==> #[trigger] seq_models(orig)[j] == orig[j]@,
                    forall|j: int| 0 <= j < i ==> (#[trigger] seq_models(orig)[j]) is String,
                decreases l.value.len() - i,
            {
                match &l.value[i] {
                    BoltValue::String(_) => {},
                    _ => {
                        let ghost items = seq_models(orig);
                        assert(!(items[i as int] is String));
                        assert(!(forall|k: int| 0 <= k < items.len() ==> (#[trigger] items[k]) is String));
                        assert(vm == ValueModel::List(items));
                        return Err(
                            DeserializationError::ConversionError(
                                ConversionError::FromValue(BoltValue::List(l)),
                            ),
                        );
                    },
                }
                i = i + 1;
            }
            let mut rest = l.value;
            let mut strings: Vec<String> = Vec::new();
            let n = rest.len();
            let mut i: usize = 0;
            while rest.len() > 0
                invariant
                    orig.len() == n,
                    i + rest.len() == n,
                    rest@ == orig.skip(i as int),
                    strings.len() == i,
                    seq_models(orig).len() == n,
                    forall|j: int| 0 <= j < n ==> #[trigger] seq_models(orig)[j] == orig[j]@,
                    forall|j: int| 0 <= j < n ==> (#[trigger] seq_models(orig)[j]) is String,
                    forall|j: int|
                        0 <= j < i ==> ValueModel::String((#[trigger] strings@[j])@) == orig[j]@,
                decreases rest.len(),
            {
                let ghost before = rest@;
                let x = rest.remove(0);
                proof {
                    assert(orig.skip(i as int)[0] == orig[i as int]);
                    assert forall|j: int| 0 <= j < rest@.len() implies rest@[j] == orig.skip(i + 1)[j] by {
                        assert(rest@[j] == before[j + 1]);
                        assert(orig.skip(i as int)[j + 1] == orig[i + 1 + j]);
                        assert(orig.skip(i + 1)[j] == orig[i + 1 + j]);
                    }
                    assert(rest@ =~= orig.skip(i + 1));
                    assert(seq_models(orig)[i as int] is String);
                }
                match x {
                    BoltValue::String(s) => {
                        strings.push(s);
                    },
                    _ => {
                        proof {
                            assert(false);
                        }
                    },
                }
                i = i + 1;
            }
            proof {
                let target = seq_models(orig).map_values(|x: ValueModel| x->String_0);
                assert forall|j: int| 0 <= j < n implies strings_model(strings@)[j] == target[j] by {
                    assert(ValueModel::String(strings@[j]@) == orig[j]@);
                }
                lemma_seq_equal(strings_model(strings@), target);
            }
            Ok(strings)
        },
        other => Err(DeserializationError::ConversionError(ConversionError::FromValue(other))),
    }
}


/// The message with a signature that carries one field, made from that field.
fn message_from_one_field(sig: u8, f0: BoltValue) -> (res: Result<Message, DeserializationError>)
    requires
        sig == SIGNATURE_INIT || sig == SIGNATURE_DISCARD_ALL || sig == SIGNATURE_PULL_ALL || sig
            == SIGNATURE_RECORD || sig == SIGNATURE_SUCCESS || sig == SIGNATURE_FAILURE || sig
            == SIGNATURE_BEGIN,
    ensures
        match message_from_fields(sig, seq![f0@]) {
            Ok(m) => res matches Ok(r) && r@ == m,
            Err(e) => res matches Err(err) && err@ == e,
        },
{
    if sig == SIGNATURE_RECORD {
        let items = value_into_list(f0)?;
        return Ok(Message::Record(Record { fields: items }));
    }
    let md = value_into_value_map(f0)?;
    if sig == SIGNATURE_INIT {
        Ok(Message::Hello(Hello { metadata: md }))
    } else if sig == SIGNATURE_DISCARD_ALL {
        Ok(Message::Discard(Discard { metadata: md }))
    } else if sig == SIGNATURE_PULL_ALL {
        Ok(Message::Pull(Pull { metadata: md }))
    } else if sig == SIGNATURE_SUCCESS {
        Ok(Message::Success(Success { metadata: md }))
    } else if sig == SIGNATURE_FAILURE {
        Ok(Message::Failure(Failure { metadata: md }))
    } else {
        Ok(Message::Begin(Begin { metadata: md }))
    }
}

/// The message with a signature that carries two fields, made from those fields.
fn message_from_two_fields(sig: u8, f0: BoltValue, f1: BoltValue) -> (res: Result<
    Message,
    DeserializationError,
>)
    requires
        sig == SIGNATURE_INIT || sig == SIGNATURE_RUN,
    ensures
        match message_from_fields(sig, seq![f0@, f1@]) {
            Ok(m) => res matches Ok(r) && r@ == m,
            Err(e) => res matches Err(err) && err@ == e,
        },
{
    let text = value_into_string(f0)?;
    let map = value_into_value_map(f1)?;
    if sig == SIGNATURE_INIT {
        Ok(Message::Init(Init { user_agent: text, auth_token: map }))
    } else {
        Ok(Message::Run(Run { query: text, parameters: map }))
    }
}

/// The message with a signature that carries three fields, made from those fields.
fn message_from_three_fields(sig: u8, f0: BoltValue, f1: BoltValue, f2: BoltValue) -> (res: Result<
    Message,
    DeserializationError,
>)
    requires
        sig == SIGNATURE_RUN || sig == SIGNATURE_ROUTE,
    ensures
        match message_from_fields(sig, seq![f0@, f1@, f2@]) {
            Ok(m) => res matches Ok(r) && r@ == m,
            Err(e) => res matches Err(err) && err@ == e,
        },
{
    if sig == SIGNATURE_RUN {
        let statement = value_into_string(f0)?;
        let parameters = value_into_value_map(f1)?;
        let metadata = value_into_value_map(f2)?;
        return Ok(Message::RunWithMetadata(RunWithMetadata { statement, parameters, metadata }));
    }
    let context = value_into_value_map(f0)?;
    let bookmarks = value_into_strings(f1)?;
    match f2 {
        BoltValue::Dictionary(m) => {
            let metadata = value_into_value_map(BoltValue::Dictionary(m))?;
            Ok(Message::RouteWithMetadata(RouteWithMetadata { context, bookmarks, metadata }))
        },
        other => {
            let db = value_into_opt_string(other)?;
            Ok(Message::Route(Route { context, bookmarks, db }))
        },
    }
}

/// The message with signature `sig` made from its decoded fields, converting each
/// field in order; the first field of the wrong kind is the error.
pub fn message_from_values(sig: u8, fields: Vec<BoltValue>) -> (res: Result<
    Message,
    DeserializationError,
>)
    requires
        message_shape(sig, fields.len() as nat) == Ok::<nat, DecodeError>(fields.len() as nat),
    ensures
        match message_from_fields(sig, seq_models(fields@)) {
            Ok(m) => res matches Ok(r) && r@ == m,
            Err(e) => res matches Err(err) && err@ == e,
        },
{
    let ghost orig = fields@;
    proof {
        lemma_seq_models(orig);
    }
    let n = fields.len();
    let mut rest = fields;
    if n == 0 {
        assert(seq_models(orig).len() == 0);
        if sig == SIGNATURE_DISCARD_ALL {
            Ok(Message::DiscardAll)
        } else if sig == SIGNATURE_PULL_ALL {
            Ok(Message::PullAll)
        } else if sig == SIGNATURE_ACK_FAILURE {
            Ok(Message::AckFailure)
        } else if sig == SIGNATURE_RESET {
            Ok(Message::Reset)
        } else if sig == SIGNATURE_IGNORED {
            Ok(Message::Ignored)
        } else if sig == SIGNATURE_GOODBYE {
            Ok(Message::Goodbye)
        } else if sig == SIGNATURE_COMMIT {
            Ok(Message::Commit)
        } else {
            Ok(Message::Rollback)
        }
    } else if n == 1 {
        let f0 = rest.pop().unwrap();
        assert(seq_models(orig) =~= seq![f0@]);
        message_from_one_field(sig, f0)
    } else if n == 2 {
        let f1 = rest.pop().unwrap();
        let f0 = rest.pop().unwrap();
        assert(seq_models(orig) =~= seq![f0@, f1@]);
        message_from_two_fields(sig, f0, f1)
    } else {
        let f2 = rest.pop().unwrap();
        let f1 = rest.pop().unwrap();
        let f0 = rest.pop().unwrap();
        assert(seq_models(orig) =~= seq![f0@, f1@, f2@]);
        message_from_three_fields(sig, f0, f1, f2)
    }
}

impl Message {
    /// Decodes the message at the start of `bytes`, with the number of bytes it takes.
    pub fn deserialize(bytes: &[u8]) -> (res: Result<(Message, usize), DeserializationError>)
        ensures
            match parse_message(bytes@) {
                Ok((m, n)) => res matches Ok((r, k)) && r@ == m && k == n,
                Err(e) => res matches Err(err) && err@ == e,
            },
    {
        if bytes.len() == 0 {
            return Err(DeserializationError::Panicked);
        }
        let m = bytes[0];
        if !((MARKER_TINY_STRUCT <= m && m < MARKER_TINY_STRUCT + 16) || m == MARKER_SMALL_STRUCT
            || m == MARKER_SMALL_STRUCT + 1) {
            return Err(DeserializationError::InvalidMarkerByte(m));
        }
        let (size, start) = read_size(bytes, 0, m, MARKER_TINY_STRUCT, MARKER_SMALL_STRUCT)?;
        if start >= bytes.len() {
            return Err(DeserializationError::Panicked);
        }
        let sig = bytes[start];
        let count = message_field_count(sig, size)?;
        let (fields, end) = parse_values_at(bytes, start + 1, count)?;
        let msg = message_from_values(sig, fields)?;
        Ok((msg, end))
    }
}

/// The number of fields to read for a message with signature `sig` whose marker
/// announced `size` fields.
pub fn message_field_count(sig: u8, size: usize) -> (res: Result<usize, DeserializationError>)
    ensures
        match message_shape(sig, size as nat) {
            Ok(k) => res matches Ok(r) && r == k,
            Err(e) => res matches Err(err) && err@ == e,
        },
{
    if sig == SIGNATURE_INIT {
        if size == 1 || size == 2 {
            Ok(size)
        } else {
            Err(DeserializationError::InvalidSize { size, signature: sig })
        }
    } else if sig == SIGNATURE_RUN {
        if size == 2 || size == 3 {
            Ok(size)
        } else {
            Err(DeserializationError::InvalidSize { size, signature: sig })
        }
    } else if sig == SIGNATURE_DISCARD_ALL || sig == SIGNATURE_PULL_ALL {
        if size == 0 || size == 1 {
            Ok(size)
        } else {
            Err(DeserializationError::InvalidSize { size, signature: sig })
        }
    } else if sig == SIGNATURE_ACK_FAILURE || sig == SIGNATURE_RESET || sig == SIGNATURE_IGNORED
        || sig == SIGNATURE_GOODBYE || sig == SIGNATURE_COMMIT || sig == SIGNATURE_ROLLBACK {
        Ok(0)
    } else if sig == SIGNATURE_RECORD || sig == SIGNATURE_SUCCESS || sig == SIGNATURE_FAILURE
        || sig == SIGNATURE_BEGIN {
        Ok(1)
    } else if sig == SIGNATURE_ROUTE {
        Ok(3)
    } else {
        Err(DeserializationError::InvalidSignatureByte(sig))
    }
}

} // verus!
