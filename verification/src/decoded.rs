//! What decoding produces: every decoded value is one that the encoder can encode and
//! the decoder read back, so a decoded value survives being encoded and decoded again.
use vstd::prelude::*;
use vstd::utf8::*;

use crate::message::{
    as_entries, entries_well_formed, fields_of, law_message_decode_after_encode,
    lemma_well_formed_seq, message_from_fields, message_shape, message_well_formed,
    parse_message, ser_message, signature_of, strings_value, MessageModel,
};
use crate::packstream::{
    field_count, find_key, first_oversize, first_oversize_entries, first_oversize_seq,
    in_family, keys_distinct, map_insert, parse_entries, parse_size, parse_value, parse_values,
    ser, well_formed, well_formed_entries, DecodeError, MARKER_SMALL_LIST, MARKER_SMALL_MAP,
    MARKER_SMALL_STRING, MARKER_SMALL_STRUCT, MARKER_TINY_LIST, MARKER_TINY_MAP,
    MARKER_TINY_STRING, MARKER_TINY_STRUCT,
};
use crate::roundtrip::law_decode_after_encode;
use crate::value::ValueModel;

verus! {

/// A sequence of values fits exactly when each of its values does.
proof fn lemma_fits_seq(items: Seq<ValueModel>)
    ensures
        first_oversize_seq(items) is None <==> forall|i: int|
            0 <= i < items.len() ==> first_oversize(#[trigger] items[i]) is None,
    decreases items.len(),
{
    if items.len() > 0 {
        lemma_fits_seq(items.drop_last());
        if first_oversize_seq(items) is None {
            assert forall|i: int| 0 <= i < items.len() implies first_oversize(
                #[trigger] items[i],
            ) is None by {
                if i < items.len() - 1 {
                    assert(items.drop_last()[i] == items[i]);
                }
            }
        }
        if forall|i: int| 0 <= i < items.len() ==> first_oversize(#[trigger] items[i]) is None {
            assert forall|i: int| 0 <= i < items.drop_last().len() implies first_oversize(
                #[trigger] items.drop_last()[i],
            ) is None by {
                assert(items.drop_last()[i] == items[i]);
            }
            assert(first_oversize(items[items.len() - 1]) is None);
        }
    }
}

/// Map entries are well formed exactly when each key and value is.
proof fn lemma_well_formed_entries(e: Seq<(ValueModel, ValueModel)>)
    ensures
        well_formed_entries(e) <==> forall|i: int|
            0 <= i < e.len() ==> well_formed((#[trigger] e[i]).0) && well_formed(e[i].1),
    decreases e.len(),
{
    if e.len() > 0 {
        lemma_well_formed_entries(e.drop_last());
        if well_formed_entries(e) {
            assert forall|i: int| 0 <= i < e.len() implies well_formed((#[trigger] e[i]).0)
                && well_formed(e[i].1) by {
                if i < e.len() - 1 {
                    assert(e.drop_last()[i] == e[i]);
                }
            }
        }
        if forall|i: int| 0 <= i < e.len() ==> well_formed((#[trigger] e[i]).0) && well_formed(
            e[i].1,
        ) {
            assert forall|i: int| 0 <= i < e.drop_last().len() implies well_formed(
                (#[trigger] e.drop_last()[i]).0,
            ) && well_formed(e.drop_last()[i].1) by {
                assert(e.drop_last()[i] == e[i]);
            }
            assert(well_formed(e[e.len() - 1].0));
        }
    }
}

/// Map entries fit exactly when each key and value does.
proof fn lemma_fits_entries(e: Seq<(ValueModel, ValueModel)>)
    ensures
        first_oversize_entries(e) is None <==> forall|i: int|
            0 <= i < e.len() ==> first_oversize((#[trigger] e[i]).0) is None && first_oversize(
                e[i].1,
            ) is None,
    decreases e.len(),
{
    if e.len() > 0 {
        lemma_fits_entries(e.drop_last());
        if first_oversize_entries(e) is None {
            assert forall|i: int| 0 <= i < e.len() implies first_oversize((#[trigger] e[i]).0)
                is None && first_oversize(e[i].1) is None by {
                if i < e.len() - 1 {
                    assert(e.drop_last()[i] == e[i]);
                }
            }
        }
        if forall|i: int|
            0 <= i < e.len() ==> first_oversize((#[trigger] e[i]).0) is None && first_oversize(
                e[i].1,
            ) is None {
            assert forall|i: int| 0 <= i < e.drop_last().len() implies first_oversize(
                (#[trigger] e.drop_last()[i]).0,
            ) is None && first_oversize(e.drop_last()[i].1) is None by {
                assert(e.drop_last()[i] == e[i]);
            }
            assert(first_oversize(e[e.len() - 1].0) is None);
        }
    }
}

/// What is said of each entry of a map of decoded values: both parts are well formed
/// and fit.
pub open spec fn decoded_entries(e: Seq<(ValueModel, ValueModel)>) -> bool {
    &&& keys_distinct(e)
    &&& forall|i: int|
        0 <= i < e.len() ==> well_formed((#[trigger] e[i]).0) && well_formed(e[i].1)
            && first_oversize(e[i].0) is None && first_oversize(e[i].1) is None
}

/// Inserting a well-formed, fitting entry keeps a map of decoded values one, and adds at
/// most one entry.
proof fn lemma_insert_decoded(e: Seq<(ValueModel, ValueModel)>, k: ValueModel, v: ValueModel)
    requires
        decoded_entries(e),
        well_formed(k),
        well_formed(v),
        first_oversize(k) is None,
        first_oversize(v) is None,
    ensures
        decoded_entries(map_insert(e, k, v)),
        map_insert(e, k, v).len() <= e.len() + 1,
{
    let after = map_insert(e, k, v);
    match find_key(e, k, 0) {
        Some(f) => {
            lemma_find_key_found(e, k, 0, f);
            assert(after == e.update(f, (k, v)));
            assert forall|a: int, b: int| 0 <= a < b < after.len() implies #[trigger] after[a].0
                != #[trigger] after[b].0 by {
                assert(after[a].0 == e[a].0);
                assert(after[b].0 == e[b].0);
            }
        },
        None => {
            lemma_find_key_absent_all(e, k, 0);
            assert(after == e.push((k, v)));
            assert forall|a: int, b: int| 0 <= a < b < after.len() implies #[trigger] after[a].0
                != #[trigger] after[b].0 by {
                if b < e.len() {
                    assert(after[a] == e[a] && after[b] == e[b]);
                } else {
                    assert(after[a] == e[a]);
                }
            }
            assert forall|i: int| 0 <= i < after.len() implies well_formed((#[trigger] after[i]).0)
                && well_formed(after[i].1) && first_oversize(after[i].0) is None
                && first_oversize(after[i].1) is None by {
                if i < e.len() {
                    assert(after[i] == e[i]);
                }
            }
        },
    }
}

/// Where `k` is found, it is held there.
proof fn lemma_find_key_found(entries: Seq<(ValueModel, ValueModel)>, k: ValueModel, i: int, f: int)
    requires
        0 <= i,
        find_key(entries, k, i) == Some(f),
    ensures
        i <= f < entries.len(),
        entries[f].0 == k,
    decreases entries.len() - i,
{
    if i < entries.len() && entries[i].0 != k {
        lemma_find_key_found(entries, k, i + 1, f);
    }
}

/// Where `k` is not found from `i` on, no entry from `i` on holds it.
proof fn lemma_find_key_absent_all(entries: Seq<(ValueModel, ValueModel)>, k: ValueModel, i: int)
    requires
        0 <= i,
        find_key(entries, k, i) is None,
    ensures
        forall|j: int| i <= j < entries.len() ==> #[trigger] entries[j].0 != k,
    decreases entries.len() - i,
{
    if i < entries.len() {
        lemma_find_key_absent_all(entries, k, i + 1);
    }
}

/// A decoded value is well formed and fits.
proof fn lemma_decoded_value(s: Seq<u8>, pos: int)
    ensures
        parse_value(s, pos) matches Ok((v, _)) ==> well_formed(v) && first_oversize(v) is None,
    decreases s.len() - pos, 0int, 0int,
{
    if 0 <= pos < s.len() {
        let m = s[pos];
        if in_family(m, MARKER_TINY_STRING, MARKER_SMALL_STRING, true) {
            match parse_size(s, pos, m, MARKER_TINY_STRING, MARKER_SMALL_STRING) {
                Ok((n, start)) => {
                    if start + n <= s.len() {
                        let bytes = s.subrange(start, start + n);
                        if valid_utf8(bytes) {
                            decode_utf8_encode_utf8(bytes);
                        }
                    }
                },
                Err(_) => {},
            }
        } else if in_family(m, MARKER_TINY_LIST, MARKER_SMALL_LIST, true) {
            match parse_size(s, pos, m, MARKER_TINY_LIST, MARKER_SMALL_LIST) {
                Ok((n, start)) => {
                    if pos < start <= s.len() {
                        lemma_decoded_values(s, start, n);
                        match parse_values(s, start, n) {
                            Ok((items, _)) => {
                                lemma_well_formed_seq(items);
                                lemma_fits_seq(items);
                            },
                            Err(_) => {},
                        }
                    }
                },
                Err(_) => {},
            }
        } else if in_family(m, MARKER_TINY_MAP, MARKER_SMALL_MAP, true) {
            match parse_size(s, pos, m, MARKER_TINY_MAP, MARKER_SMALL_MAP) {
                Ok((n, start)) => {
                    if pos < start <= s.len() {
                        lemma_decoded_entries(s, start, n);
                        match parse_entries(s, start, n) {
                            Ok((entries, _)) => {
                                lemma_well_formed_entries(entries);
                                lemma_fits_entries(entries);
                            },
                            Err(_) => {},
                        }
                    }
                },
                Err(_) => {},
            }
        } else if in_family(m, MARKER_TINY_STRUCT, MARKER_SMALL_STRUCT, false) {
            match parse_size(s, pos, m, MARKER_TINY_STRUCT, MARKER_SMALL_STRUCT) {
                Ok((_, start)) => {
                    if pos < start < s.len() {
                        let sig = s[start];
                        if field_count(sig) > 0 {
                            lemma_decoded_values(s, start + 1, field_count(sig));
                            match parse_values(s, start + 1, field_count(sig)) {
                                Ok((fields, _)) => {
                                    lemma_well_formed_seq(fields);
                                    lemma_fits_seq(fields);
                                },
                                Err(_) => {},
                            }
                        }
                    }
                },
                Err(_) => {},
            }
        }
    }
}

/// Values decoded one after the other are as many as asked for, and each is well
/// formed and fits.
proof fn lemma_decoded_values(s: Seq<u8>, pos: int, n: nat)
    ensures
        parse_values(s, pos, n) matches Ok((items, _)) ==> {
            &&& items.len() == n
            &&& forall|i: int|
                0 <= i < items.len() ==> well_formed(#[trigger] items[i]) && first_oversize(
                    items[i],
                ) is None
        },
    decreases s.len() - pos, 1int, n,
{
    if n > 0 {
        lemma_decoded_values(s, pos, (n - 1) as nat);
        match parse_values(s, pos, (n - 1) as nat) {
            Ok((items, q)) => {
                if pos <= q <= s.len() {
                    lemma_decoded_value(s, q);
                    match parse_value(s, q) {
                        Ok((v, _)) => {
                            assert forall|i: int| 0 <= i < items.push(v).len() implies well_formed(
                                #[trigger] items.push(v)[i],
                            ) && first_oversize(items.push(v)[i]) is None by {
                                if i < items.len() {
                                    assert(items.push(v)[i] == items[i]);
                                }
                            }
                        },
                        Err(_) => {},
                    }
                }
            },
            Err(_) => {},
        }
    }
}

/// Map entries decoded one after the other, each inserted in turn, are at most as many
/// as were read, with distinct keys, and each key and value is well formed and fits.
proof fn lemma_decoded_entries(s: Seq<u8>, pos: int, n: nat)
    ensures
        parse_entries(s, pos, n) matches Ok((entries, _)) ==> {
            &&& entries.len() <= n
            &&& decoded_entries(entries)
        },
    decreases s.len() - pos, 1int, n,
{
    if n > 0 {
        lemma_decoded_entries(s, pos, (n - 1) as nat);
        match parse_entries(s, pos, (n - 1) as nat) {
            Ok((entries, q)) => {
                if pos <= q <= s.len() {
                    lemma_decoded_value(s, q);
                    match parse_value(s, q) {
                        Ok((k, q1)) => {
                            if q <= q1 <= s.len() {
                                lemma_decoded_value(s, q1);
                                match parse_value(s, q1) {
                                    Ok((v, _)) => {
                                        lemma_insert_decoded(entries, k, v);
                                    },
                                    Err(_) => {},
                                }
                            }
                        },
                        Err(_) => {},
                    }
                }
            },
            Err(_) => {},
        }
    }
}

/// Whatever a value decodes to, the library can encode it, and decoding that encoding
/// gives the same value back, whatever bytes follow it.
pub proof fn law_decoded_value_round_trip(s: Seq<u8>, rest: Seq<u8>)
    ensures
        parse_value(s, 0) matches Ok((v, _)) ==> {
            &&& well_formed(v)
            &&& first_oversize(v) is None
            &&& parse_value(ser(v) + rest, 0) == Ok::<(ValueModel, int), DecodeError>(
                (v, ser(v).len() as int),
            )
        },
{
    lemma_decoded_value(s, 0);
    match parse_value(s, 0) {
        Ok((v, _)) => {
            law_decode_after_encode(v, rest);
        },
        Err(_) => {},
    }
}

/// The fields that a message was made from are the fields it encodes, under its
/// signature.
proof fn lemma_fields_of_decoded(sig: u8, f: Seq<ValueModel>)
    requires
        message_shape(sig, f.len()) == Ok::<nat, DecodeError>(f.len()),
        forall|i: int| 0 <= i < f.len() ==> well_formed(#[trigger] f[i]),
    ensures
        message_from_fields(sig, f) matches Ok(m) ==> {
            &&& signature_of(m) == sig
            &&& fields_of(m) == f
            &&& message_well_formed(m)
        },
{
    match message_from_fields(sig, f) {
        Ok(m) => {
            lemma_entries_of(f);
            match m {
                MessageModel::Record(items) => {
                    assert(fields_of(m) =~= f);
                },
                MessageModel::Route(ctx, b, db) => {
                    let items = f[1]->List_0;
                    assert(b == items.map_values(|x: ValueModel| x->String_0));
                    assert(strings_value(b)->List_0 =~= items);
                    assert(fields_of(m) =~= f);
                },
                MessageModel::RouteWithMetadata(ctx, b, md) => {
                    let items = f[1]->List_0;
                    assert(b == items.map_values(|x: ValueModel| x->String_0));
                    assert(strings_value(b)->List_0 =~= items);
                    assert(fields_of(m) =~= f);
                },
                _ => {
                    assert(fields_of(m) =~= f);
                },
            }
        },
        Err(_) => {},
    }
}

/// Each field that reads as a map holds well-formed entries with string keys.
proof fn lemma_entries_of(f: Seq<ValueModel>)
    requires
        forall|i: int| 0 <= i < f.len() ==> well_formed(#[trigger] f[i]),
    ensures
        forall|i: int|
            0 <= i < f.len() ==> ((#[trigger] as_entries(f[i])) matches Ok(e)
                ==> entries_well_formed(e)),
{
}

/// Whatever a message decodes to, the library can encode it, and decoding that encoding
/// gives the same message back, whatever bytes follow it.
pub proof fn law_decoded_message_round_trip(s: Seq<u8>, rest: Seq<u8>)
    ensures
        parse_message(s) matches Ok((m, _)) ==> {
            &&& message_well_formed(m)
            &&& first_oversize_seq(fields_of(m)) is None
            &&& parse_message(ser_message(m) + rest) == Ok::<(MessageModel, int), DecodeError>(
                (m, ser_message(m).len() as int),
            )
        },
{
    if s.len() > 0 {
        let m0 = s[0];
        if in_family(m0, MARKER_TINY_STRUCT, MARKER_SMALL_STRUCT, false) {
            match parse_size(s, 0, m0, MARKER_TINY_STRUCT, MARKER_SMALL_STRUCT) {
                Ok((size, start)) => {
                    if start < s.len() {
                        let sig = s[start];
                        match message_shape(sig, size) {
                            Ok(k) => {
                                lemma_decoded_values(s, start + 1, k);
                                match parse_values(s, start + 1, k) {
                                    Ok((fields, _)) => {
                                        lemma_fits_seq(fields);
                                        lemma_fields_of_decoded(sig, fields);
                                        match message_from_fields(sig, fields) {
                                            Ok(m) => {
                                                law_message_decode_after_encode(m, rest);
                                            },
                                            Err(_) => {},
                                        }
                                    },
                                    Err(_) => {},
                                }
                            },
                            Err(_) => {},
                        }
                    }
                },
                Err(_) => {},
            }
        }
    }
}

} // verus!
