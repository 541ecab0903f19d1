//! Decoding values from bytes.
use vstd::prelude::*;
use vstd::slice::slice_subrange;
use vstd::utf8::*;

use crate::decoded::law_decoded_value_round_trip;
use crate::error::{ConversionError, DeserializationError};
use crate::packstream::{
    be16_at, be32_at, be64_at, field_count, find_key, in_family, keys_distinct, map_insert,
    parse_entries, parse_size, parse_value, parse_values, DecodeError, MARKER_FALSE,
    MARKER_FLOAT, MARKER_INT_16, MARKER_INT_32, MARKER_INT_64, MARKER_INT_8, MARKER_NULL,
    MARKER_SMALL_LIST, MARKER_SMALL_MAP, MARKER_SMALL_STRING, MARKER_SMALL_STRUCT,
    MARKER_TINY_LIST, MARKER_TINY_MAP, MARKER_TINY_STRING, MARKER_TINY_STRUCT, MARKER_TRUE,
};
use crate::roundtrip::{lemma_find_key_absent, lemma_find_key_skip};
use crate::value::{
    entry_models, lemma_entry_models, lemma_seq_models, model_of, seq_models, BoltMap,
    BoltValue, List, Node, Path, Relationship, UnboundRelationship, ValueModel, SIGNATURE_NODE,
    SIGNATURE_PATH, SIGNATURE_RELATIONSHIP, SIGNATURE_UNBOUND_RELATIONSHIP,
};

verus! {

broadcast use vstd::std_specs::vec::group_vec_axioms;

/// Reads a byte slice as UTF-8 text through `core::str::from_utf8`.
///
/// Trusted: the standard library documents that `from_utf8` succeeds exactly on valid
/// UTF-8 and that the `str` it returns is the input bytes themselves; the contract
/// states both, with vstd's `valid_utf8` and `encode_utf8` as the meaning of UTF-8.
#[verifier::external_body]
fn str_from_utf8(bytes: &[u8]) -> (res: Option<&str>)
    ensures
        res is Some <==> valid_utf8(bytes@),
        res matches Some(s) ==> encode_utf8(s@) == bytes@,
{
    core::str::from_utf8(bytes).ok()
}

/// A number for each kind of value; structures are told apart by their signature.
pub open spec fn model_kind(m: ValueModel) -> int {
    match m {
        ValueModel::Null => 0,
        ValueModel::Boolean(_) => 1,
        ValueModel::Integer(_) => 2,
        ValueModel::Float(_) => 3,
        ValueModel::String(_) => 4,
        ValueModel::List(_) => 5,
        ValueModel::Dictionary(_) => 6,
        ValueModel::Structure(sig, _) => 7 + sig,
    }
}

/// The kind of a value, read off its variant.
pub open spec fn variant_kind(v: BoltValue) -> int {
    match v {
        BoltValue::Null => 0,
        BoltValue::Boolean(_) => 1,
        BoltValue::Integer(_) => 2,
        BoltValue::Float(_) => 3,
        BoltValue::String(_) => 4,
        BoltValue::List(_) => 5,
        BoltValue::Dictionary(_) => 6,
        BoltValue::Node(_) => 7 + SIGNATURE_NODE,
        BoltValue::Relationship(_) => 7 + SIGNATURE_RELATIONSHIP,
        BoltValue::Path(_) => 7 + SIGNATURE_PATH,
        BoltValue::UnboundRelationship(_) => 7 + SIGNATURE_UNBOUND_RELATIONSHIP,
    }
}

/// The kind of a value's model is the kind of its variant.
pub(crate) proof fn lemma_variant_kind(v: BoltValue)
    ensures
        model_kind(model_of(v)) == variant_kind(v),
{
}

/// The kind of a value.
pub(crate) fn value_kind(v: &BoltValue) -> (k: u16)
    ensures
        k == variant_kind(*v),
{
    match v {
        BoltValue::Null => 0,
        BoltValue::Boolean(_) => 1,
        BoltValue::Integer(_) => 2,
        BoltValue::Float(_) => 3,
        BoltValue::String(_) => 4,
        BoltValue::List(_) => 5,
        BoltValue::Dictionary(_) => 6,
        BoltValue::Node(_) => 7 + SIGNATURE_NODE as u16,
        BoltValue::Relationship(_) => 7 + SIGNATURE_RELATIONSHIP as u16,
        BoltValue::Path(_) => 7 + SIGNATURE_PATH as u16,
        BoltValue::UnboundRelationship(_) => 7 + SIGNATURE_UNBOUND_RELATIONSHIP as u16,
    }
}

/// Whether two values have the same content.
pub fn values_equal(a: &BoltValue, b: &BoltValue) -> (res: bool)
    ensures
        res == (a@ == b@),
    decreases *a,
{
    if value_kind(a) != value_kind(b) {
        proof {
            lemma_variant_kind(*a);
            lemma_variant_kind(*b);
        }
        return false;
    }
    match a {
        BoltValue::Boolean(x) => match b {
            BoltValue::Boolean(y) => *x == *y,
            _ => false,
        },
        BoltValue::Integer(x) => match b {
            BoltValue::Integer(y) => *x == *y,
            _ => false,
        },
        BoltValue::Float(x) => match b {
            BoltValue::Float(y) => *x == *y,
            _ => false,
        },
        BoltValue::Null => match b {
            BoltValue::Null => true,
            _ => false,
        },
        BoltValue::String(x) => match b {
            BoltValue::String(y) => *x == *y,
            _ => false,
        },
        BoltValue::List(x) => match b {
            BoltValue::List(y) => {
                assert(decreases_to!(*a => *x));
                lists_equal(x, y)
            },
            _ => false,
        },
        BoltValue::Dictionary(x) => match b {
            BoltValue::Dictionary(y) => {
                assert(decreases_to!(*a => *x));
                maps_equal(x, y)
            },
            _ => false,
        },
        BoltValue::Node(x) => match b {
            BoltValue::Node(y) => {
                assert(decreases_to!(*a => *x));
                nodes_equal(x, y)
            },
            _ => false,
        },
        BoltValue::Relationship(x) => match b {
            BoltValue::Relationship(y) => {
                assert(decreases_to!(*a => *x));
                relationships_equal(x, y)
            },
            _ => false,
        },
        BoltValue::Path(x) => match b {
            BoltValue::Path(y) => {
                assert(decreases_to!(*a => *x));
                paths_equal(x, y)
            },
            _ => false,
        },
        BoltValue::UnboundRelationship(x) => match b {
            BoltValue::UnboundRelationship(y) => {
                assert(decreases_to!(*a => *x));
                unbound_relationships_equal(x, y)
            },
            _ => false,
        },
    }
}

/// Sequences with equal lengths and equal elements are equal.
pub proof fn lemma_seq_equal<A>(a: Seq<A>, b: Seq<A>)
    requires
        a.len() == b.len(),
        forall|i: int| 0 <= i < a.len() ==> a[i] == b[i],
    ensures
        a == b,
{
    assert(a =~= b);
}

/// Whether two nodes have the same content.
fn nodes_equal(x: &Node, y: &Node) -> (res: bool)
    ensures
        res == (model_of(BoltValue::Node(*x)) == model_of(BoltValue::Node(*y))),
    decreases *x,
{
    let a = values_equal(&x.node_identity, &y.node_identity);
    let b = values_equal(&x.labels, &y.labels);
    let c = values_equal(&x.properties, &y.properties);
    proof {
        reveal_with_fuel(seq_models, 1);
    }
    a && b && c
}

/// Whether two relationships have the same content.
fn relationships_equal(x: &Relationship, y: &Relationship) -> (res: bool)
    ensures
        res == (model_of(BoltValue::Relationship(*x)) == model_of(BoltValue::Relationship(*y))),
    decreases *x,
{
    let a = values_equal(&x.rel_identity, &y.rel_identity);
    let b = values_equal(&x.start_node_identity, &y.start_node_identity);
    let c = values_equal(&x.end_node_identity, &y.end_node_identity);
    let d = values_equal(&x.rel_type, &y.rel_type);
    let e = values_equal(&x.properties, &y.properties);
    a && b && c && d && e
}

/// Whether two paths have the same content.
fn paths_equal(x: &Path, y: &Path) -> (res: bool)
    ensures
        res == (model_of(BoltValue::Path(*x)) == model_of(BoltValue::Path(*y))),
    decreases *x,
{
    let a = values_equal(&x.nodes, &y.nodes);
    let b = values_equal(&x.relationships, &y.relationships);
    let c = values_equal(&x.sequence, &y.sequence);
    a && b && c
}

/// Whether two unbound relationships have the same content.
fn unbound_relationships_equal(x: &UnboundRelationship, y: &UnboundRelationship) -> (res: bool)
    ensures
        res == (model_of(BoltValue::UnboundRelationship(*x)) == model_of(
            BoltValue::UnboundRelationship(*y),
        )),
    decreases *x,
{
    let a = values_equal(&x.rel_identity, &y.rel_identity);
    let b = values_equal(&x.rel_type, &y.rel_type);
    let c = values_equal(&x.properties, &y.properties);
    a && b && c
}

/// Whether two lists have the same content.
fn lists_equal(x: &List, y: &List) -> (res: bool)
    ensures
        res == (seq_models(x.value@) == seq_models(y.value@)),
    decreases *x,
{
    proof {
        lemma_seq_models(x.value@);
        lemma_seq_models(y.value@);
    }
    if x.value.len() != y.value.len() {
        return false;
    }
    let mut i: usize = 0;
    while i < x.value.len()
        invariant
            x.value.len() == y.value.len(),
            i <= x.value.len(),
            seq_models(x.value@).len() == x.value.len(),
            seq_models(y.value@).len() == y.value.len(),
            forall|j: int|
                0 <= j < x.value.len() ==> #[trigger] seq_models(x.value@)[j] == model_of(
                    x.value@[j],
                ),
            forall|j: int|
                0 <= j < y.value.len() ==> #[trigger] seq_models(y.value@)[j] == model_of(
                    y.value@[j],
                ),
            forall|j: int| 0 <= j < i ==> seq_models(x.value@)[j] == seq_models(y.value@)[j],
        decreases x.value.len() - i,
    {
        assert(decreases_to!(*x => x.value));
        assert(decreases_to!(x.value => x.value[i as int]));
        if !values_equal(&x.value[i], &y.value[i]) {
            assert(seq_models(x.value@)[i as int] != seq_models(y.value@)[i as int]);
            return false;
        }
        i = i + 1;
    }
    proof {
        lemma_seq_equal(seq_models(x.value@), seq_models(y.value@));
    }
    true
}

/// Whether two maps have the same entries in the same order.
fn maps_equal(x: &BoltMap, y: &BoltMap) -> (res: bool)
    ensures
        res == (entry_models(x.value@) == entry_models(y.value@)),
    decreases *x,
{
    proof {
        lemma_entry_models(x.value@);
        lemma_entry_models(y.value@);
    }
    if x.value.len() != y.value.len() {
        return false;
    }
    let mut i: usize = 0;
    while i < x.value.len()
        invariant
            x.value.len() == y.value.len(),
            i <= x.value.len(),
            entry_models(x.value@).len() == x.value.len(),
            entry_models(y.value@).len() == y.value.len(),
            forall|j: int|
                0 <= j < x.value.len() ==> #[trigger] entry_models(x.value@)[j] == (
                    model_of(x.value@[j].0),
                    model_of(x.value@[j].1),
                ),
            forall|j: int|
                0 <= j < y.value.len() ==> #[trigger] entry_models(y.value@)[j] == (
                    model_of(y.value@[j].0),
                    model_of(y.value@[j].1),
                ),
            forall|j: int| 0 <= j < i ==> entry_models(x.value@)[j] == entry_models(y.value@)[j],
        decreases x.value.len() - i,
    {
        assert(decreases_to!(*x => x.value));
        assert(decreases_to!(x.value => x.value[i as int]));
        assert(decreases_to!(x.value[i as int] => x.value[i as int].0));
        assert(decreases_to!(x.value[i as int] => x.value[i as int].1));
        if !values_equal(&x.value[i].0, &y.value[i].0) {
            assert(entry_models(x.value@)[i as int] != entry_models(y.value@)[i as int]);
            return false;
        }
        if !values_equal(&x.value[i].1, &y.value[i].1) {
            assert(entry_models(x.value@)[i as int] != entry_models(y.value@)[i as int]);
            return false;
        }
        i = i + 1;
    }
    proof {
        lemma_seq_equal(entry_models(x.value@), entry_models(y.value@));
    }
    true
}

/// Once decoding `k` values fails, decoding more values fails the same way.
pub proof fn lemma_parse_values_err(s: Seq<u8>, pos: int, k: nat, n: nat)
    requires
        k <= n,
        parse_values(s, pos, k) is Err,
    ensures
        parse_values(s, pos, n) == parse_values(s, pos, k),
    decreases n,
{
    if n > k {
        lemma_parse_values_err(s, pos, k, (n - 1) as nat);
    }
}

/// Once decoding `k` map entries fails, decoding more entries fails the same way.
pub proof fn lemma_parse_entries_err(s: Seq<u8>, pos: int, k: nat, n: nat)
    requires
        k <= n,
        parse_entries(s, pos, k) is Err,
    ensures
        parse_entries(s, pos, n) == parse_entries(s, pos, k),
    decreases n,
{
    if n > k {
        lemma_parse_entries_err(s, pos, k, (n - 1) as nat);
    }
}

/// Reads the big-endian `u16` at `p`.
fn read_be16(s: &[u8], p: usize) -> (x: u16)
    requires
        p + 2 <= s.len(),
    ensures
        x == be16_at(s@, p as int),
{
    (s[p] as u16) << 8u16 | s[p + 1] as u16
}

/// Reads the big-endian `u32` at `p`.
fn read_be32(s: &[u8], p: usize) -> (x: u32)
    requires
        p + 4 <= s.len(),
    ensures
        x == be32_at(s@, p as int),
{
    (s[p] as u32) << 24u32 | (s[p + 1] as u32) << 16u32 | (s[p + 2] as u32) << 8u32 | s[p
        + 3] as u32
}

/// Reads the big-endian `u64` at `p`.
fn read_be64(s: &[u8], p: usize) -> (x: u64)
    requires
        p + 8 <= s.len(),
    ensures
        x == be64_at(s@, p as int),
{
    (s[p] as u64) << 56u64 | (s[p + 1] as u64) << 48u64 | (s[p + 2] as u64) << 40u64 | (s[p
        + 3] as u64) << 32u64 | (s[p + 4] as u64) << 24u64 | (s[p + 5] as u64) << 16u64 | (s[p
        + 6] as u64) << 8u64 | s[p + 7] as u64
}

/// Reads the size that a sized header at `pos`, with marker `m`, announces.
pub(crate) fn read_size(s: &[u8], pos: usize, m: u8, tiny: u8, small: u8) -> (res: Result<
    (usize, usize),
    DeserializationError,
>)
    requires
        pos < s.len(),
        tiny <= 0xE0,
        small <= 0xFD,
    ensures
        match res {
            Ok((n, start)) => {
                &&& parse_size(s@, pos as int, m, tiny, small) == Ok::<(nat, int), DecodeError>(
                    (n as nat, start as int),
                )
                &&& pos < start <= s.len()
            },
            Err(e) => parse_size(s@, pos as int, m, tiny, small) == Err::<(nat, int), DecodeError>(
                e@,
            ),
        },
{
    if tiny <= m && m < tiny + 16 {
        Ok(((m - tiny) as usize, pos + 1))
    } else if m == small {
        if s.len() - pos >= 2 {
            Ok((s[pos + 1] as usize, pos + 2))
        } else {
            Err(DeserializationError::Panicked)
        }
    } else if m == small + 1 {
        if s.len() - pos >= 3 {
            Ok((read_be16(s, pos + 1) as usize, pos + 3))
        } else {
            Err(DeserializationError::Panicked)
        }
    } else if s.len() - pos >= 5 {
        Ok((read_be32(s, pos + 1) as usize, pos + 5))
    } else {
        Err(DeserializationError::Panicked)
    }
}

/// Decodes the string whose marker `m` stands at `pos`.
fn parse_string_at(s: &[u8], pos: usize, m: u8) -> (res: Result<
    (BoltValue, usize),
    DeserializationError,
>)
    requires
        pos < s.len(),
        s[pos as int] == m,
        in_family(m, MARKER_TINY_STRING, MARKER_SMALL_STRING, true),
    ensures
        match res {
            Ok((v, end)) => {
                &&& parse_value(s@, pos as int) == Ok::<(ValueModel, int), DecodeError>(
                    (v@, end as int),
                )
                &&& pos < end <= s.len()
            },
            Err(e) => parse_value(s@, pos as int) == Err::<(ValueModel, int), DecodeError>(e@),
        },
{
    let (n, start) = read_size(s, pos, m, MARKER_TINY_STRING, MARKER_SMALL_STRING)?;
    if n > s.len() - start {
        return Err(DeserializationError::Panicked);
    }
    let bytes = slice_subrange(s, start, start + n);
    match str_from_utf8(bytes) {
        Some(text) => {
            proof {
                encode_utf8_decode_utf8(text@);
            }
            let owned = text.to_owned();
            Ok((BoltValue::String(owned), start + n))
        },
        None => Err(DeserializationError::InvalidUTF8(vstd::slice::slice_to_vec(bytes))),
    }
}

/// Inserts an entry into a map: the first entry with an equal key has its value
/// replaced in place, a new key is appended. Distinct keys stay distinct.
pub fn insert_entry(entries: &mut Vec<(BoltValue, BoltValue)>, k: BoltValue, v: BoltValue)
    ensures
        entry_models(final(entries)@) == map_insert(entry_models(old(entries)@), k@, v@),
        keys_distinct(entry_models(old(entries)@)) ==> keys_distinct(
            entry_models(final(entries)@),
        ),
{
    let ghost e0 = entry_models(entries@);
    proof {
        lemma_entry_models(entries@);
    }
    let mut i: usize = 0;
    while i < entries.len()
        invariant
            entries@ == old(entries)@,
            e0 == entry_models(entries@),
            e0.len() == entries.len(),
            forall|j: int|
                0 <= j < entries.len() ==> #[trigger] e0[j] == (
                    model_of(entries@[j].0),
                    model_of(entries@[j].1),
                ),
            i <= entries.len(),
            forall|j: int| 0 <= j < i ==> #[trigger] e0[j].0 != k@,
        decreases entries.len() - i,
    {
        if values_equal(&entries[i].0, &k) {
            let ghost idx = i as int;
            entries.set(i, (k, v));
            proof {
                lemma_find_key_skip(e0, k@, idx);
                lemma_entry_models(entries@);
                lemma_seq_equal(entry_models(entries@), e0.update(idx, (k@, v@)));
                if keys_distinct(e0) {
                    assert forall|a: int, b: int|
                        0 <= a < b < entry_models(entries@).len() implies #[trigger] entry_models(
                        entries@,
                    )[a].0 != #[trigger] entry_models(entries@)[b].0 by {
                        assert(e0[a].0 != e0[b].0);
                    }
                }
            }
            return;
        }
        i = i + 1;
    }
    entries.push((k, v));
    proof {
        lemma_find_key_absent(e0, k@, 0);
        lemma_entry_models(entries@);
        lemma_seq_equal(entry_models(entries@), e0.push((k@, v@)));
        if keys_distinct(e0) {
            assert forall|a: int, b: int|
                0 <= a < b < entry_models(entries@).len() implies #[trigger] entry_models(
                entries@,
            )[a].0 != #[trigger] entry_models(entries@)[b].0 by {
                if b < e0.len() {
                    assert(e0[a].0 != e0[b].0);
                } else {
                    assert(e0[a].0 != k@);
                }
            }
        }
    }
}

/// Decodes the value that starts at `pos`: the value and the position after it.
pub fn parse_value_at(s: &[u8], pos: usize) -> (res: Result<(BoltValue, usize), DeserializationError>)
    ensures
        match res {
            Ok((v, end)) => {
                &&& parse_value(s@, pos as int) == Ok::<(ValueModel, int), DecodeError>(
                    (v@, end as int),
                )
                &&& pos < end <= s.len()
            },
            Err(e) => parse_value(s@, pos as int) == Err::<(ValueModel, int), DecodeError>(e@),
        },
    decreases s.len() - pos, 2int,
{
    if pos >= s.len() {
        return Err(DeserializationError::Panicked);
    }
    let m = s[pos];
    if m == MARKER_NULL {
        Ok((BoltValue::Null, pos + 1))
    } else if m == MARKER_FALSE {
        Ok((BoltValue::Boolean(false), pos + 1))
    } else if m == MARKER_TRUE {
        Ok((BoltValue::Boolean(true), pos + 1))
    } else if m < 0x80 || m >= 0xF0 {
        Ok((BoltValue::Integer((m as i8) as i64), pos + 1))
    } else if m == MARKER_INT_8 {
        if s.len() - pos >= 2 {
            Ok((BoltValue::Integer((s[pos + 1] as i8) as i64), pos + 2))
        } else {
            Err(DeserializationError::Panicked)
        }
    } else if m == MARKER_INT_16 {
        if s.len() - pos >= 3 {
            Ok((BoltValue::Integer((read_be16(s, pos + 1) as i16) as i64), pos + 3))
        } else {
            Err(DeserializationError::Panicked)
        }
    } else if m == MARKER_INT_32 {
        if s.len() - pos >= 5 {
            Ok((BoltValue::Integer((read_be32(s, pos + 1) as i32) as i64), pos + 5))
        } else {
            Err(DeserializationError::Panicked)
        }
    } else if m == MARKER_INT_64 {
        if s.len() - pos >= 9 {
            Ok((BoltValue::Integer(read_be64(s, pos + 1) as i64), pos + 9))
        } else {
            Err(DeserializationError::Panicked)
        }
    } else if m == MARKER_FLOAT {
        if s.len() - pos >= 9 {
            Ok((BoltValue::Float(read_be64(s, pos + 1)), pos + 9))
        } else {
            Err(DeserializationError::Panicked)
        }
    } else if (MARKER_TINY_STRING <= m && m < MARKER_TINY_STRING + 16) || (MARKER_SMALL_STRING <= m
        && m <= MARKER_SMALL_STRING + 2) {
        parse_string_at(s, pos, m)
    } else if (MARKER_TINY_LIST <= m && m < MARKER_TINY_LIST + 16) || (MARKER_SMALL_LIST <= m && m
        <= MARKER_SMALL_LIST + 2) {
        parse_list_at(s, pos, m)
    } else if (MARKER_TINY_MAP <= m && m < MARKER_TINY_MAP + 16) || (MARKER_SMALL_MAP <= m && m
        <= MARKER_SMALL_MAP + 2) {
        parse_map_at(s, pos, m)
    } else if (MARKER_TINY_STRUCT <= m && m < MARKER_TINY_STRUCT + 16) || (MARKER_SMALL_STRUCT
        <= m && m <= MARKER_SMALL_STRUCT + 1) {
        parse_struct_at(s, pos, m)
    } else {
        Err(DeserializationError::InvalidMarkerByte(m))
    }
}

/// Decodes the list whose marker `m` stands at `pos`.
fn parse_list_at(s: &[u8], pos: usize, m: u8) -> (res: Result<(BoltValue, usize), DeserializationError>)
    requires
        pos < s.len(),
        s[pos as int] == m,
        m != MARKER_NULL && m != MARKER_FALSE && m != MARKER_TRUE && m != MARKER_FLOAT,
        in_family(m, MARKER_TINY_LIST, MARKER_SMALL_LIST, true),
    ensures
        match res {
            Ok((v, end)) => {
                &&& parse_value(s@, pos as int) == Ok::<(ValueModel, int), DecodeError>(
                    (v@, end as int),
                )
                &&& pos < end <= s.len()
            },
            Err(e) => parse_value(s@, pos as int) == Err::<(ValueModel, int), DecodeError>(e@),
        },
    decreases s.len() - pos, 1int,
{
    let (n, start) = read_size(s, pos, m, MARKER_TINY_LIST, MARKER_SMALL_LIST)?;
    let (items, end) = parse_values_at(s, start, n)?;
    Ok((BoltValue::List(List { value: items }), end))
}

/// Decodes the map whose marker `m` stands at `pos`.
fn parse_map_at(s: &[u8], pos: usize, m: u8) -> (res: Result<(BoltValue, usize), DeserializationError>)
    requires
        pos < s.len(),
        s[pos as int] == m,
        m != MARKER_NULL && m != MARKER_FALSE && m != MARKER_TRUE && m != MARKER_FLOAT,
        in_family(m, MARKER_TINY_MAP, MARKER_SMALL_MAP, true),
    ensures
        match res {
            Ok((v, end)) => {
                &&& parse_value(s@, pos as int) == Ok::<(ValueModel, int), DecodeError>(
                    (v@, end as int),
                )
                &&& pos < end <= s.len()
            },
            Err(e) => parse_value(s@, pos as int) == Err::<(ValueModel, int), DecodeError>(e@),
        },
    decreases s.len() - pos, 1int,
{
    let (n, start) = read_size(s, pos, m, MARKER_TINY_MAP, MARKER_SMALL_MAP)?;
    let (entries, end) = parse_entries_at(s, start, n)?;
    Ok((BoltValue::Dictionary(BoltMap { value: entries }), end))
}

/// Decodes the structure whose marker `m` stands at `pos`.
fn parse_struct_at(s: &[u8], pos: usize, m: u8) -> (res: Result<
    (BoltValue, usize),
    DeserializationError,
>)
    requires
        pos < s.len(),
        s[pos as int] == m,
        m != MARKER_NULL && m != MARKER_FALSE && m != MARKER_TRUE && m != MARKER_FLOAT,
        in_family(m, MARKER_TINY_STRUCT, MARKER_SMALL_STRUCT, false),
    ensures
        match res {
            Ok((v, end)) => {
                &&& parse_value(s@, pos as int) == Ok::<(ValueModel, int), DecodeError>(
                    (v@, end as int),
                )
                &&& pos < end <= s.len()
            },
            Err(e) => parse_value(s@, pos as int) == Err::<(ValueModel, int), DecodeError>(e@),
        },
    decreases s.len() - pos, 1int,
{
    let (_size, start) = read_size(s, pos, m, MARKER_TINY_STRUCT, MARKER_SMALL_STRUCT)?;
    if start >= s.len() {
        return Err(DeserializationError::Panicked);
    }
    let sig = s[start];
    let count: usize = if sig == SIGNATURE_NODE {
        3
    } else if sig == SIGNATURE_RELATIONSHIP {
        5
    } else if sig == SIGNATURE_PATH {
        3
    } else if sig == SIGNATURE_UNBOUND_RELATIONSHIP {
        3
    } else {
        return Err(DeserializationError::InvalidSignatureByte(sig));
    };
    let (fields, end) = parse_values_at(s, start + 1, count)?;
    Ok((build_structure(sig, fields), end))
}

/// The structure value with signature `sig` and the given fields.
#[verifier::spinoff_prover]
#[verifier::rlimit(30)]
fn build_structure(sig: u8, fields: Vec<BoltValue>) -> (v: BoltValue)
    requires
        field_count(sig) > 0,
        fields.len() == field_count(sig),
    ensures
        v@ == ValueModel::Structure(sig, seq_models(fields@)),
{
    let mut fields = fields;
    proof {
        lemma_seq_models(fields@);
    }
    let ghost models = seq_models(fields@);
    let ghost f0 = fields@;
    if sig == SIGNATURE_RELATIONSHIP {
        let properties = fields.pop().unwrap();
        assert(fields@ =~= f0.take(4));
        let rel_type = fields.pop().unwrap();
        assert(fields@ =~= f0.take(3));
        let end_node_identity = fields.pop().unwrap();
        assert(fields@ =~= f0.take(2));
        let start_node_identity = fields.pop().unwrap();
        assert(fields@ =~= f0.take(1));
        let rel_identity = fields.pop().unwrap();
        let v = BoltValue::Relationship(
            Relationship {
                rel_identity: Box::new(rel_identity),
                start_node_identity: Box::new(start_node_identity),
                end_node_identity: Box::new(end_node_identity),
                rel_type: Box::new(rel_type),
                properties: Box::new(properties),
            },
        );
        proof {
            lemma_seq_equal(models, seq![rel_identity@, start_node_identity@, end_node_identity@, rel_type@, properties@]);
        }
        v
    } else {
        let third = fields.pop().unwrap();
        assert(fields@ =~= f0.take(2));
        let second = fields.pop().unwrap();
        assert(fields@ =~= f0.take(1));
        let first = fields.pop().unwrap();
        proof {
            lemma_seq_equal(models, seq![first@, second@, third@]);
        }
        let v = if sig == SIGNATURE_NODE {
            BoltValue::Node(
                Node {
                    node_identity: Box::new(first),
                    labels: Box::new(second),
                    properties: Box::new(third),
                },
            )
        } else if sig == SIGNATURE_PATH {
            BoltValue::Path(
                Path {
                    nodes: Box::new(first),
                    relationships: Box::new(second),
                    sequence: Box::new(third),
                },
            )
        } else {
            BoltValue::UnboundRelationship(
                UnboundRelationship {
                    rel_identity: Box::new(first),
                    rel_type: Box::new(second),
                    properties: Box::new(third),
                },
            )
        };
        v
    }
}

/// Decodes `n` values one after the other from `pos`.
pub(crate) fn parse_values_at(s: &[u8], pos: usize, n: usize) -> (res: Result<
    (Vec<BoltValue>, usize),
    DeserializationError,
>)
    requires
        pos <= s.len(),
    ensures
        match res {
            Ok((items, end)) => {
                &&& parse_values(s@, pos as int, n as nat) == Ok::<
                    (Seq<ValueModel>, int),
                    DecodeError,
                >((seq_models(items@), end as int))
                &&& pos <= end <= s.len()
                &&& items.len() == n
            },
            Err(e) => parse_values(s@, pos as int, n as nat) == Err::<
                (Seq<ValueModel>, int),
                DecodeError,
            >(e@),
        },
    decreases s.len() - pos, 3int,
{
    let mut items: Vec<BoltValue> = Vec::new();
    let mut q: usize = pos;
    let mut i: usize = 0;
    while i < n
        invariant
            pos <= q <= s.len(),
            i <= n,
            items.len() == i,
            parse_values(s@, pos as int, i as nat) == Ok::<(Seq<ValueModel>, int), DecodeError>(
                (seq_models(items@), q as int),
            ),
        decreases n - i,
    {
        match parse_value_at(s, q) {
            Ok((v, end)) => {
                proof {
                    assert(items@.push(v).drop_last() =~= items@);
                }
                items.push(v);
                q = end;
                i = i + 1;
            },
            Err(e) => {
                proof {
                    lemma_parse_values_err(s@, pos as int, (i + 1) as nat, n as nat);
                }
                return Err(e);
            },
        }
    }
    Ok((items, q))
}

/// Decodes `n` map entries from `pos`, each inserted into the map in turn.
fn parse_entries_at(s: &[u8], pos: usize, n: usize) -> (res: Result<
    (Vec<(BoltValue, BoltValue)>, usize),
    DeserializationError,
>)
    requires
        pos <= s.len(),
    ensures
        match res {
            Ok((entries, end)) => {
                &&& parse_entries(s@, pos as int, n as nat) == Ok::<
                    (Seq<(ValueModel, ValueModel)>, int),
                    DecodeError,
                >((entry_models(entries@), end as int))
                &&& pos <= end <= s.len()
                &&& keys_distinct(entry_models(entries@))
            },
            Err(e) => parse_entries(s@, pos as int, n as nat) == Err::<
                (Seq<(ValueModel, ValueModel)>, int),
                DecodeError,
            >(e@),
        },
    decreases s.len() - pos, 3int,
{
    let mut entries: Vec<(BoltValue, BoltValue)> = Vec::new();
    let mut q: usize = pos;
    let mut i: usize = 0;
    while i < n
        invariant
            pos <= q <= s.len(),
            i <= n,
            parse_entries(s@, pos as int, i as nat) == Ok::<
                (Seq<(ValueModel, ValueModel)>, int),
                DecodeError,
            >((entry_models(entries@), q as int)),
            keys_distinct(entry_models(entries@)),
        decreases n - i,
    {
        match parse_value_at(s, q) {
            Ok((k, q1)) => {
                match parse_value_at(s, q1) {
                    Ok((v, end)) => {
                        insert_entry(&mut entries, k, v);
                        q = end;
                        i = i + 1;
                    },
                    Err(e) => {
                        proof {
                            lemma_parse_entries_err(s@, pos as int, (i + 1) as nat, n as nat);
                        }
                        return Err(e);
                    },
                }
            },
            Err(e) => {
                proof {
                    lemma_parse_entries_err(s@, pos as int, (i + 1) as nat, n as nat);
                }
                return Err(e);
            },
        }
    }
    Ok((entries, q))
}

impl BoltValue {
    /// Decodes the value at the start of `bytes`, with the number of bytes it takes.
    pub fn deserialize(bytes: &[u8]) -> (res: Result<(BoltValue, usize), DeserializationError>)
        ensures
            match res {
                Ok((v, n)) => parse_value(bytes@, 0) == Ok::<(ValueModel, int), DecodeError>(
                    (v@, n as int),
                ),
                Err(e) => parse_value(bytes@, 0) == Err::<(ValueModel, int), DecodeError>(e@),
            },
    {
        parse_value_at(bytes, 0)
    }

    /// Decodes the value at the start of `bytes`; bytes after it are left alone.
    pub fn try_from_bytes(bytes: &[u8]) -> (res: Result<BoltValue, DeserializationError>)
        ensures
            match res {
                Ok(v) => exists|n: int|
                    parse_value(bytes@, 0) == Ok::<(ValueModel, int), DecodeError>((v@, n)),
                Err(e) => parse_value(bytes@, 0) == Err::<(ValueModel, int), DecodeError>(e@),
            },
    {
        match parse_value_at(bytes, 0) {
            Ok((v, _)) => Ok(v),
            Err(e) => Err(e),
        }
    }
}


impl List {
    /// Decodes the list at the start of `bytes`; any other value is a conversion error
    /// that holds it.
    pub fn try_from_bytes(bytes: &[u8]) -> (res: Result<List, DeserializationError>)
        ensures
            match parse_value(bytes@, 0) {
                Ok((ValueModel::List(items), _)) => res matches Ok(l) && seq_models(l.value@)
                    == items,
                Ok((v, _)) => res matches Err(
                    DeserializationError::ConversionError(ConversionError::FromValue(x)),
                ) && x@ == v,
                Err(e) => res matches Err(err) && err@ == e,
            },
    {
        match parse_value_at(bytes, 0) {
            Ok((BoltValue::List(l), _)) => Ok(l),
            Ok((other, _)) => Err(
                DeserializationError::ConversionError(ConversionError::FromValue(other)),
            ),
            Err(e) => Err(e),
        }
    }
}

impl BoltMap {
    /// Decodes the map at the start of `bytes`; any other value is a conversion error
    /// that holds it.
    pub fn try_from_bytes(bytes: &[u8]) -> (res: Result<BoltMap, DeserializationError>)
        ensures
            match parse_value(bytes@, 0) {
                Ok((ValueModel::Dictionary(entries), _)) => res matches Ok(m) && entry_models(
                    m.value@,
                ) == entries && m.wf(),
                Ok((v, _)) => res matches Err(
                    DeserializationError::ConversionError(ConversionError::FromValue(x)),
                ) && x@ == v,
                Err(e) => res matches Err(err) && err@ == e,
            },
    {
        proof {
            law_decoded_value_round_trip(bytes@, Seq::empty());
        }
        match parse_value_at(bytes, 0) {
            Ok((BoltValue::Dictionary(m), _)) => Ok(m),
            Ok((other, _)) => Err(
                DeserializationError::ConversionError(ConversionError::FromValue(other)),
            ),
            Err(e) => Err(e),
        }
    }
}
} // verus!
