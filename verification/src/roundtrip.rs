//! Decoding what was encoded gives back the value.
use vstd::prelude::*;
use vstd::utf8::*;

use crate::packstream::{
    be16, be16_at, be32, be32_at, be64, be64_at, field_count, first_oversize,
    first_oversize_entries, first_oversize_seq, find_key, keys_distinct, map_insert, max_size,
    parse_entries, parse_size, parse_value, parse_values, ser, ser_entries, ser_integer, ser_seq,
    sized_header, well_formed, well_formed_entries, well_formed_seq, DecodeError,
    MARKER_SMALL_STRUCT, MARKER_TINY_STRUCT,
};
use crate::value::ValueModel;

verus! {

/// `b` stands in `s` from `pos` on.
pub open spec fn bytes_at(s: Seq<u8>, pos: int, b: Seq<u8>) -> bool {
    &&& 0 <= pos
    &&& pos + b.len() <= s.len()
    &&& s.subrange(pos, pos + b.len()) == b
}

/// Bytes that stand at a position stand there one by one.
pub proof fn lemma_bytes_at_index(s: Seq<u8>, pos: int, b: Seq<u8>)
    requires
        bytes_at(s, pos, b),
    ensures
        forall|i: int| 0 <= i < b.len() ==> s[pos + i] == #[trigger] b[i],
{
    assert forall|i: int| 0 <= i < b.len() implies s[pos + i] == #[trigger] b[i] by {
        assert(s.subrange(pos, pos + b.len())[i] == s[pos + i]);
    }
}

/// A concatenation stands at a position when its two parts stand one after the other.
pub proof fn lemma_bytes_at_split(s: Seq<u8>, pos: int, a: Seq<u8>, b: Seq<u8>)
    requires
        bytes_at(s, pos, a + b),
    ensures
        bytes_at(s, pos, a),
        bytes_at(s, pos + a.len(), b),
{
    lemma_bytes_at_index(s, pos, a + b);
    assert(s.subrange(pos, pos + a.len()) =~= a) by {
        assert forall|i: int| 0 <= i < a.len() implies s.subrange(pos, pos + a.len())[i] == a[i] by {
            assert((a + b)[i] == a[i]);
        }
    }
    assert(s.subrange(pos + a.len(), pos + a.len() + b.len()) =~= b) by {
        assert forall|i: int| 0 <= i < b.len() implies s.subrange(
            pos + a.len(),
            pos + a.len() + b.len(),
        )[i] == b[i] by {
            assert((a + b)[a.len() + i] == b[i]);
        }
    }
}

/// Two big-endian bytes read back as the number they were written from.
pub proof fn lemma_be16(s: Seq<u8>, p: int, x: u16)
    requires
        bytes_at(s, p, be16(x)),
    ensures
        be16_at(s, p) == x,
{
    lemma_bytes_at_index(s, p, be16(x));
    assert(s[p] == be16(x)[0] && s[p + 1] == be16(x)[1]);
    let b0 = s[p];
    let b1 = s[p + 1];
    assert(b0 == (x >> 8u16) as u8 && b1 == x as u8 ==> (b0 as u16) << 8u16 | b1 as u16 == x)
        by (bit_vector);
}

/// Four big-endian bytes read back as the number they were written from.
pub proof fn lemma_be32(s: Seq<u8>, p: int, x: u32)
    requires
        bytes_at(s, p, be32(x)),
    ensures
        be32_at(s, p) == x,
{
    lemma_bytes_at_index(s, p, be32(x));
    assert(s[p] == be32(x)[0] && s[p + 1] == be32(x)[1] && s[p + 2] == be32(x)[2] && s[p + 3]
        == be32(x)[3]);
    let b0 = s[p];
    let b1 = s[p + 1];
    let b2 = s[p + 2];
    let b3 = s[p + 3];
    assert(b0 == (x >> 24u32) as u8 && b1 == (x >> 16u32) as u8 && b2 == (x >> 8u32) as u8 && b3
        == x as u8 ==> (b0 as u32) << 24u32 | (b1 as u32) << 16u32 | (b2 as u32) << 8u32 | b3 as u32
        == x) by (bit_vector);
}

/// Eight big-endian bytes read back as the number they were written from.
pub proof fn lemma_be64(s: Seq<u8>, p: int, x: u64)
    requires
        bytes_at(s, p, be64(x)),
    ensures
        be64_at(s, p) == x,
{
    lemma_bytes_at_index(s, p, be64(x));
    assert(s[p] == be64(x)[0] && s[p + 1] == be64(x)[1] && s[p + 2] == be64(x)[2] && s[p + 3]
        == be64(x)[3]);
    assert(s[p + 4] == be64(x)[4] && s[p + 5] == be64(x)[5] && s[p + 6] == be64(x)[6] && s[p
        + 7] == be64(x)[7]);
    let b0 = s[p];
    let b1 = s[p + 1];
    let b2 = s[p + 2];
    let b3 = s[p + 3];
    let b4 = s[p + 4];
    let b5 = s[p + 5];
    let b6 = s[p + 6];
    let b7 = s[p + 7];
    assert(b0 == (x >> 56u64) as u8 && b1 == (x >> 48u64) as u8 && b2 == (x >> 40u64) as u8 && b3
        == (x >> 32u64) as u8 && b4 == (x >> 24u64) as u8 && b5 == (x >> 16u64) as u8 && b6 == (x
        >> 8u64) as u8 && b7 == x as u8 ==> (b0 as u64) << 56u64 | (b1 as u64) << 48u64 | (b2 as u64)
        << 40u64 | (b3 as u64) << 32u64 | (b4 as u64) << 24u64 | (b5 as u64) << 16u64 | (b6 as u64)
        << 8u64 | b7 as u64 == x) by (bit_vector);
}

/// An encoded integer decodes to itself.
pub proof fn lemma_integer(i: i64, s: Seq<u8>, pos: int)
    requires
        bytes_at(s, pos, ser_integer(i)),
    ensures
        parse_value(s, pos) == Ok::<(ValueModel, int), DecodeError>(
            (ValueModel::Integer(i), pos + ser_integer(i).len()),
        ),
{
    lemma_bytes_at_index(s, pos, ser_integer(i));
    let m = s[pos];
    assert(s[pos + 0] == ser_integer(i)[0]);
    if -16 <= i < 128 {
        assert(ser_integer(i)[0] == i as u8);
        assert(s[pos + 0] == ser_integer(i)[0]);
        assert(-16 <= i < 128 ==> ((i as u8) < 0x80 || (i as u8) >= 0xF0) && ((i as u8) as i8)
            as i64 == i) by (bit_vector);
    } else if -128 <= i < -16 {
        assert(ser_integer(i)[0] == 0xC8u8 && ser_integer(i)[1] == i as u8);
        assert(s[pos + 0] == ser_integer(i)[0] && s[pos + 1] == ser_integer(i)[1]);
        assert(-128 <= i < -16 ==> ((i as u8) as i8) as i64 == i) by (bit_vector);
    } else if -32768 <= i < 32768 {
        lemma_bytes_at_split(s, pos, seq![0xC9u8], be16(i as u16));
        lemma_be16(s, pos + 1, i as u16);
        assert(-32768 <= i < 32768 ==> ((i as u16) as i16) as i64 == i) by (bit_vector);
    } else if -2147483648 <= i < 2147483648 {
        lemma_bytes_at_split(s, pos, seq![0xCAu8], be32(i as u32));
        lemma_be32(s, pos + 1, i as u32);
        assert(-2147483648 <= i < 2147483648 ==> ((i as u32) as i32) as i64 == i) by (bit_vector);
    } else {
        lemma_bytes_at_split(s, pos, seq![0xCBu8], be64(i as u64));
        lemma_be64(s, pos + 1, i as u64);
        assert((i as u64) as i64 == i) by (bit_vector);
    }
}

/// A sized header reads back as its size, and its marker names the size form.
pub proof fn lemma_sized_header(s: Seq<u8>, pos: int, tiny: u8, small: u8, n: nat)
    requires
        bytes_at(s, pos, sized_header(tiny, small, n)),
        n <= max_size(),
        tiny + 16 <= small,
        small + 2 <= 0xFF,
    ensures
        s[pos] == sized_header(tiny, small, n)[0],
        n < 16 ==> s[pos] == tiny + n,
        16 <= n < 256 ==> s[pos] == small,
        256 <= n < 65536 ==> s[pos] == small + 1,
        65536 <= n ==> s[pos] == small + 2,
        parse_size(s, pos, s[pos], tiny, small) == Ok::<(nat, int), DecodeError>(
            (n, pos + sized_header(tiny, small, n).len()),
        ),
{
    let h = sized_header(tiny, small, n);
    lemma_bytes_at_index(s, pos, h);
    assert(s[pos + 0] == h[0]);
    if n < 16 {
    } else if n < 256 {
        assert(s[pos + 1] == h[1]);
        assert(h[1] == n as u8);
    } else if n < 65536 {
        lemma_bytes_at_split(s, pos, seq![(small + 1) as u8], be16(n as u16));
        lemma_be16(s, pos + 1, n as u16);
    } else {
        lemma_bytes_at_split(s, pos, seq![(small + 2) as u8], be32(n as u32));
        lemma_be32(s, pos + 1, n as u32);
    }
}

/// An encoded well-formed value whose sizes all fit decodes to itself, and the decoder
/// stops right after it.
pub proof fn lemma_parse_ser(v: ValueModel, s: Seq<u8>, pos: int)
    requires
        well_formed(v),
        first_oversize(v) is None,
        bytes_at(s, pos, ser(v)),
    ensures
        parse_value(s, pos) == Ok::<(ValueModel, int), DecodeError>((v, pos + ser(v).len())),
    decreases v,
{
    lemma_bytes_at_index(s, pos, ser(v));
    assert(s[pos + 0] == ser(v)[0]);
    match v {
        ValueModel::Null => {},
        ValueModel::Boolean(_) => {},
        ValueModel::Integer(i) => {
            lemma_integer(i, s, pos);
        },
        ValueModel::Float(bits) => {
            lemma_bytes_at_split(s, pos, seq![0xC1u8], be64(bits));
            lemma_be64(s, pos + 1, bits);
        },
        ValueModel::String(chars) => {
            let b = encode_utf8(chars);
            let h = sized_header(0x80, 0xD0, b.len());
            lemma_bytes_at_split(s, pos, h, b);
            lemma_sized_header(s, pos, 0x80, 0xD0, b.len());
            encode_utf8_valid_utf8(chars);
            encode_utf8_decode_utf8(chars);
        },
        ValueModel::List(items) => {
            let h = sized_header(0x90, 0xD4, items.len());
            lemma_bytes_at_split(s, pos, h, ser_seq(items));
            lemma_sized_header(s, pos, 0x90, 0xD4, items.len());
            lemma_parse_ser_seq(items, s, pos + h.len());
        },
        ValueModel::Dictionary(entries) => {
            let h = sized_header(0xA0, 0xD8, entries.len());
            lemma_bytes_at_split(s, pos, h, ser_entries(entries));
            lemma_sized_header(s, pos, 0xA0, 0xD8, entries.len());
            lemma_parse_ser_entries(entries, s, pos + h.len());
        },
        ValueModel::Structure(sig, fields) => {
            let h = sized_header(0xB0, 0xDC, fields.len());
            assert(ser(v) == (h + seq![sig]) + ser_seq(fields));
            lemma_bytes_at_split(s, pos, h + seq![sig], ser_seq(fields));
            lemma_bytes_at_split(s, pos, h, seq![sig]);
            lemma_sized_header(s, pos, 0xB0, 0xDC, fields.len());
            lemma_bytes_at_index(s, pos + h.len(), seq![sig]);
            assert(s[pos + h.len() + 0] == seq![sig][0]);
            lemma_parse_ser_seq(fields, s, pos + h.len() + 1);
        },
    }
}

/// Encoded well-formed values, one after the other, decode to themselves.
pub proof fn lemma_parse_ser_seq(items: Seq<ValueModel>, s: Seq<u8>, pos: int)
    requires
        well_formed_seq(items),
        first_oversize_seq(items) is None,
        bytes_at(s, pos, ser_seq(items)),
    ensures
        parse_values(s, pos, items.len()) == Ok::<(Seq<ValueModel>, int), DecodeError>(
            (items, pos + ser_seq(items).len()),
        ),
    decreases items,
{
    if items.len() == 0 {
        assert(items =~= Seq::<ValueModel>::empty());
    } else {
        let init = items.drop_last();
        assert((items.len() - 1) as nat == init.len());
        lemma_bytes_at_split(s, pos, ser_seq(init), ser(items.last()));
        lemma_parse_ser_seq(init, s, pos);
        lemma_parse_ser(items.last(), s, pos + ser_seq(init).len());
        assert(init.push(items.last()) =~= items);
    }
}

/// Encoded map entries with distinct keys decode to themselves.
pub proof fn lemma_parse_ser_entries(entries: Seq<(ValueModel, ValueModel)>, s: Seq<u8>, pos: int)
    requires
        keys_distinct(entries),
        well_formed_entries(entries),
        first_oversize_entries(entries) is None,
        bytes_at(s, pos, ser_entries(entries)),
    ensures
        parse_entries(s, pos, entries.len()) == Ok::<
            (Seq<(ValueModel, ValueModel)>, int),
            DecodeError,
        >((entries, pos + ser_entries(entries).len())),
    decreases entries,
{
    if entries.len() == 0 {
        assert(entries =~= Seq::<(ValueModel, ValueModel)>::empty());
    } else {
        let init = entries.drop_last();
        let last = entries.last();
        assert((entries.len() - 1) as nat == init.len());
        assert(keys_distinct(init)) by {
            assert forall|i: int, j: int| 0 <= i < j < init.len() implies #[trigger] init[i].0
                != #[trigger] init[j].0 by {
                assert(init[i] == entries[i] && init[j] == entries[j]);
            }
        }
        assert forall|j: int| 0 <= j < init.len() implies #[trigger] init[j].0 != last.0 by {
            assert(init[j] == entries[j]);
            assert(entries[j].0 != entries[entries.len() - 1].0);
        }
        lemma_find_key_absent(init, last.0, 0);
        lemma_bytes_at_split(s, pos, ser_entries(init) + ser(last.0), ser(last.1));
        lemma_bytes_at_split(s, pos, ser_entries(init), ser(last.0));
        lemma_parse_ser_entries(init, s, pos);
        lemma_parse_ser(last.0, s, pos + ser_entries(init).len());
        lemma_parse_ser(last.1, s, pos + ser_entries(init).len() + ser(last.0).len());
        assert(init.push(last) =~= entries);
        assert(map_insert(init, last.0, last.1) == init.push(last));
    }
}

/// A key that no entry from `i` on holds is not found from `i` on.
pub proof fn lemma_find_key_absent(entries: Seq<(ValueModel, ValueModel)>, k: ValueModel, i: int)
    requires
        0 <= i,
        forall|j: int| i <= j < entries.len() ==> #[trigger] entries[j].0 != k,
    ensures
        find_key(entries, k, i) is None,
    decreases entries.len() - i,
{
    if i < entries.len() {
        lemma_find_key_absent(entries, k, i + 1);
    }
}

/// Entries before `i` that do not hold `k` do not change where `k` is first found.
pub proof fn lemma_find_key_skip(entries: Seq<(ValueModel, ValueModel)>, k: ValueModel, i: int)
    requires
        0 <= i <= entries.len(),
        forall|j: int| 0 <= j < i ==> #[trigger] entries[j].0 != k,
    ensures
        find_key(entries, k, 0) == find_key(entries, k, i),
    decreases i,
{
    if i > 0 {
        lemma_find_key_skip(entries, k, i - 1);
    }
}

/// Decoding the encoding of a well-formed value whose sizes all fit gives the value
/// back, whatever bytes follow it, and stops right after the encoding.
pub proof fn law_decode_after_encode(v: ValueModel, rest: Seq<u8>)
    requires
        well_formed(v),
        first_oversize(v) is None,
    ensures
        parse_value(ser(v) + rest, 0) == Ok::<(ValueModel, int), DecodeError>((v, ser(v).len() as int)),
{
    let s = ser(v) + rest;
    assert(s.subrange(0, ser(v).len() as int) =~= ser(v));
    lemma_parse_ser(v, s, 0);
}


/// A structure of any signature and up to 65535 well-formed, fitting fields is encoded
/// as its header (the marker with the field count for up to fifteen fields, else the
/// one- or two-byte count after its marker), its signature, then its fields; and the
/// bytes of the fields decode to the fields, whatever follows them, stopping right
/// after them.
pub proof fn law_structure_fields_round_trip(sig: u8, fields: Seq<ValueModel>, tail: Seq<u8>)
    requires
        fields.len() < 65536,
        well_formed_seq(fields),
        first_oversize_seq(fields) is None,
    ensures
        ser(ValueModel::Structure(sig, fields)) == sized_header(
            MARKER_TINY_STRUCT,
            MARKER_SMALL_STRUCT,
            fields.len(),
        ) + seq![sig] + ser_seq(fields),
        parse_values(ser_seq(fields) + tail, 0, fields.len()) == Ok::<
            (Seq<ValueModel>, int),
            DecodeError,
        >((fields, ser_seq(fields).len() as int)),
{
    let s = ser_seq(fields) + tail;
    assert(s.subrange(0, ser_seq(fields).len() as int) =~= ser_seq(fields));
    lemma_parse_ser_seq(fields, s, 0);
}
} // verus!
