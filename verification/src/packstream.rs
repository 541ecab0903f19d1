//! The PackStream encoding of values, as specification.
//!
//! Every value starts with a marker byte that names its type and, for the sized
//! types, either holds the size itself (the "tiny" forms) or announces a big-endian
//! size of one, two or four bytes that follows it. Integers take the shortest of their
//! encodings; floats are eight big-endian bytes of IEEE 754 binary64; strings are
//! UTF-8; lists, maps and structures are followed by their items.
use vstd::prelude::*;
use vstd::utf8::*;

use crate::value::{
    ValueModel, SIGNATURE_NODE, SIGNATURE_PATH, SIGNATURE_RELATIONSHIP,
    SIGNATURE_UNBOUND_RELATIONSHIP,
};

verus! {

pub const MARKER_NULL: u8 = 0xC0;
pub const MARKER_FLOAT: u8 = 0xC1;
pub const MARKER_FALSE: u8 = 0xC2;
pub const MARKER_TRUE: u8 = 0xC3;
pub const MARKER_INT_8: u8 = 0xC8;
pub const MARKER_INT_16: u8 = 0xC9;
pub const MARKER_INT_32: u8 = 0xCA;
pub const MARKER_INT_64: u8 = 0xCB;
pub const MARKER_TINY_STRING: u8 = 0x80;
pub const MARKER_SMALL_STRING: u8 = 0xD0;
pub const MARKER_MEDIUM_STRING: u8 = 0xD1;
pub const MARKER_LARGE_STRING: u8 = 0xD2;
pub const MARKER_TINY_LIST: u8 = 0x90;
pub const MARKER_SMALL_LIST: u8 = 0xD4;
pub const MARKER_MEDIUM_LIST: u8 = 0xD5;
pub const MARKER_LARGE_LIST: u8 = 0xD6;
pub const MARKER_TINY_MAP: u8 = 0xA0;
pub const MARKER_SMALL_MAP: u8 = 0xD8;
pub const MARKER_MEDIUM_MAP: u8 = 0xD9;
pub const MARKER_LARGE_MAP: u8 = 0xDA;
pub const MARKER_TINY_STRUCT: u8 = 0xB0;
pub const MARKER_SMALL_STRUCT: u8 = 0xDC;
pub const MARKER_MEDIUM_STRUCT: u8 = 0xDD;

/// Why bytes could not be decoded.
pub enum DecodeError {
    /// The bytes ended before the value did.
    Truncated,
    InvalidMarkerByte(u8),
    InvalidSignatureByte(u8),
    InvalidSize(usize, u8),
    /// The bytes of a string are not UTF-8; they are given.
    InvalidUtf8(Seq<u8>),
    /// A field held a value of the wrong kind.
    ConversionFromValue(ValueModel),
    /// A message was not of the asked kind; its signature byte.
    ConversionFromMessage(u8),
}

/// Two big-endian bytes.
pub open spec fn be16(x: u16) -> Seq<u8> {
    seq![(x >> 8u16) as u8, x as u8]
}

/// Four big-endian bytes.
pub open spec fn be32(x: u32) -> Seq<u8> {
    seq![(x >> 24u32) as u8, (x >> 16u32) as u8, (x >> 8u32) as u8, x as u8]
}

/// Eight big-endian bytes.
pub open spec fn be64(x: u64) -> Seq<u8> {
    seq![
        (x >> 56u64) as u8,
        (x >> 48u64) as u8,
        (x >> 40u64) as u8,
        (x >> 32u64) as u8,
        (x >> 24u64) as u8,
        (x >> 16u64) as u8,
        (x >> 8u64) as u8,
        x as u8,
    ]
}

/// The big-endian `u16` at `p`.
pub open spec fn be16_at(s: Seq<u8>, p: int) -> u16 {
    (s[p] as u16) << 8u16 | s[p + 1] as u16
}

/// The big-endian `u32` at `p`.
pub open spec fn be32_at(s: Seq<u8>, p: int) -> u32 {
    (s[p] as u32) << 24u32 | (s[p + 1] as u32) << 16u32 | (s[p + 2] as u32) << 8u32 | s[p
        + 3] as u32
}

/// The big-endian `u64` at `p`.
pub open spec fn be64_at(s: Seq<u8>, p: int) -> u64 {
    (s[p] as u64) << 56u64 | (s[p + 1] as u64) << 48u64 | (s[p + 2] as u64) << 40u64 | (s[p
        + 3] as u64) << 32u64 | (s[p + 4] as u64) << 24u64 | (s[p + 5] as u64) << 16u64 | (s[p
        + 6] as u64) << 8u64 | s[p + 7] as u64
}

/// The marker and size bytes of a sized value of `n` items, in the family whose tiny
/// marker is `tiny` and whose one-byte-size marker is `small` (the two- and four-byte
/// markers follow it).
pub open spec fn sized_header(tiny: u8, small: u8, n: nat) -> Seq<u8> {
    if n < 16 {
        seq![(tiny + n) as u8]
    } else if n < 256 {
        seq![small, n as u8]
    } else if n < 65536 {
        seq![(small + 1) as u8] + be16(n as u16)
    } else {
        seq![(small + 2) as u8] + be32(n as u32)
    }
}

/// The encoding of an integer: the shortest of the tiny, 8-, 16-, 32- and 64-bit forms.
pub open spec fn ser_integer(i: i64) -> Seq<u8> {
    if -16 <= i < 128 {
        seq![i as u8]
    } else if -128 <= i < -16 {
        seq![MARKER_INT_8, i as u8]
    } else if -32768 <= i < 32768 {
        seq![MARKER_INT_16] + be16(i as u16)
    } else if -2147483648 <= i < 2147483648 {
        seq![MARKER_INT_32] + be32(i as u32)
    } else {
        seq![MARKER_INT_64] + be64(i as u64)
    }
}

/// The encoding of a value.
pub open spec fn ser(v: ValueModel) -> Seq<u8>
    decreases v,
{
    match v {
        ValueModel::Null => seq![MARKER_NULL],
        ValueModel::Boolean(b) => seq![
            if b {
                MARKER_TRUE
            } else {
                MARKER_FALSE
            },
        ],
        ValueModel::Integer(i) => ser_integer(i),
        ValueModel::Float(bits) => seq![MARKER_FLOAT] + be64(bits),
        ValueModel::String(s) => sized_header(
            MARKER_TINY_STRING,
            MARKER_SMALL_STRING,
            encode_utf8(s).len(),
        ) + encode_utf8(s),
        ValueModel::List(items) => sized_header(MARKER_TINY_LIST, MARKER_SMALL_LIST, items.len())
            + ser_seq(items),
        ValueModel::Dictionary(entries) => sized_header(
            MARKER_TINY_MAP,
            MARKER_SMALL_MAP,
            entries.len(),
        ) + ser_entries(entries),
        ValueModel::Structure(sig, fields) => sized_header(
            MARKER_TINY_STRUCT,
            MARKER_SMALL_STRUCT,
            fields.len(),
        ) + seq![sig] + ser_seq(fields),
    }
}

/// The encodings of a sequence of values, one after the other.
pub open spec fn ser_seq(items: Seq<ValueModel>) -> Seq<u8>
    decreases items,
{
    if items.len() == 0 {
        Seq::empty()
    } else {
        ser_seq(items.drop_last()) + ser(items.last())
    }
}

/// The encodings of map entries, each key followed by its value.
pub open spec fn ser_entries(entries: Seq<(ValueModel, ValueModel)>) -> Seq<u8>
    decreases entries,
{
    if entries.len() == 0 {
        Seq::empty()
    } else {
        ser_entries(entries.drop_last()) + ser(entries.last().0) + ser(entries.last().1)
    }
}

/// The largest size that a header can announce.
pub open spec fn max_size() -> nat {
    0xFFFF_FFFF
}

/// The first size, in the order of the encoding, that is too large to announce: the
/// byte length of a string, the length of a list or map, or the field count of a
/// structure.
pub open spec fn first_oversize(v: ValueModel) -> Option<nat>
    decreases v,
{
    match v {
        ValueModel::String(s) => if encode_utf8(s).len() > max_size() {
            Some(encode_utf8(s).len())
        } else {
            None
        },
        ValueModel::List(items) => if items.len() > max_size() {
            Some(items.len())
        } else {
            first_oversize_seq(items)
        },
        ValueModel::Dictionary(entries) => if entries.len() > max_size() {
            Some(entries.len())
        } else {
            first_oversize_entries(entries)
        },
        ValueModel::Structure(_, fields) => if fields.len() >= 65536 {
            Some(fields.len())
        } else {
            first_oversize_seq(fields)
        },
        _ => None,
    }
}

/// The first oversize in a sequence of values.
pub open spec fn first_oversize_seq(items: Seq<ValueModel>) -> Option<nat>
    decreases items,
{
    if items.len() == 0 {
        None
    } else {
        match first_oversize_seq(items.drop_last()) {
            Some(n) => Some(n),
            None => first_oversize(items.last()),
        }
    }
}

/// The first oversize in a sequence of map entries.
pub open spec fn first_oversize_entries(entries: Seq<(ValueModel, ValueModel)>) -> Option<nat>
    decreases entries,
{
    if entries.len() == 0 {
        None
    } else {
        match first_oversize_entries(entries.drop_last()) {
            Some(n) => Some(n),
            None => match first_oversize(entries.last().0) {
                Some(n) => Some(n),
                None => first_oversize(entries.last().1),
            },
        }
    }
}

/// The number of fields of the structures that values can hold, by signature; zero for
/// signatures that are not known.
pub open spec fn field_count(sig: u8) -> nat {
    if sig == SIGNATURE_NODE {
        3
    } else if sig == SIGNATURE_RELATIONSHIP {
        5
    } else if sig == SIGNATURE_PATH {
        3
    } else if sig == SIGNATURE_UNBOUND_RELATIONSHIP {
        3
    } else {
        0
    }
}

/// No two entries have equal keys.
pub open spec fn keys_distinct(entries: Seq<(ValueModel, ValueModel)>) -> bool {
    forall|i: int, j: int|
        0 <= i < j < entries.len() ==> #[trigger] entries[i].0 != #[trigger] entries[j].0
}

/// The index of the first entry at or after `i` whose key is `k`.
pub open spec fn find_key(entries: Seq<(ValueModel, ValueModel)>, k: ValueModel, i: int) -> Option<
    int,
>
    decreases entries.len() - i,
{
    if i < 0 || i >= entries.len() {
        None
    } else if entries[i].0 == k {
        Some(i)
    } else {
        find_key(entries, k, i + 1)
    }
}

/// Inserting into a map: the value of the first entry with an equal key is replaced
/// in place; a new key is appended.
pub open spec fn map_insert(
    entries: Seq<(ValueModel, ValueModel)>,
    k: ValueModel,
    v: ValueModel,
) -> Seq<(ValueModel, ValueModel)> {
    match find_key(entries, k, 0) {
        Some(i) => entries.update(i, (k, v)),
        None => entries.push((k, v)),
    }
}

/// A value that this library can produce: maps hold distinct keys and structures are
/// nodes, relationships, paths or unbound relationships with their number of fields.
pub open spec fn well_formed(v: ValueModel) -> bool
    decreases v,
{
    match v {
        ValueModel::List(items) => well_formed_seq(items),
        ValueModel::Dictionary(entries) => keys_distinct(entries) && well_formed_entries(entries),
        ValueModel::Structure(sig, fields) => field_count(sig) > 0 && fields.len() == field_count(
            sig,
        ) && well_formed_seq(fields),
        _ => true,
    }
}

/// Every value of the sequence is well formed.
pub open spec fn well_formed_seq(items: Seq<ValueModel>) -> bool
    decreases items,
{
    if items.len() == 0 {
        true
    } else {
        well_formed_seq(items.drop_last()) && well_formed(items.last())
    }
}

/// Every key and value of the entries is well formed.
pub open spec fn well_formed_entries(entries: Seq<(ValueModel, ValueModel)>) -> bool
    decreases entries,
{
    if entries.len() == 0 {
        true
    } else {
        well_formed_entries(entries.drop_last()) && well_formed(entries.last().0) && well_formed(
            entries.last().1,
        )
    }
}

/// The size announced by a sized header whose marker `m` at `pos` belongs to the
/// family of `tiny` and `small`, and the position after the header.
pub open spec fn parse_size(s: Seq<u8>, pos: int, m: u8, tiny: u8, small: u8) -> Result<
    (nat, int),
    DecodeError,
> {
    if tiny <= m < tiny + 16 {
        Ok(((m - tiny) as nat, pos + 1))
    } else if m == small {
        if pos + 2 <= s.len() {
            Ok((s[pos + 1] as nat, pos + 2))
        } else {
            Err(DecodeError::Truncated)
        }
    } else if m == small + 1 {
        if pos + 3 <= s.len() {
            Ok((be16_at(s, pos + 1) as nat, pos + 3))
        } else {
            Err(DecodeError::Truncated)
        }
    } else if pos + 5 <= s.len() {
        Ok((be32_at(s, pos + 1) as nat, pos + 5))
    } else {
        Err(DecodeError::Truncated)
    }
}

/// Whether `m` is a marker of the family of `tiny` and `small`; `large` tells whether
/// the family has a four-byte size.
pub open spec fn in_family(m: u8, tiny: u8, small: u8, large: bool) -> bool {
    ||| tiny <= m < tiny + 16
    ||| m == small
    ||| m == small + 1
    ||| (large && m == small + 2)
}

/// Decoding the value that starts at `pos`: the value and the position after it.
pub open spec fn parse_value(s: Seq<u8>, pos: int) -> Result<(ValueModel, int), DecodeError>
    decreases s.len() - pos, 0int, 0int,
{
    if pos < 0 || pos >= s.len() {
        Err(DecodeError::Truncated)
    } else {
        let m = s[pos];
        if m == MARKER_NULL {
            Ok((ValueModel::Null, pos + 1))
        } else if m == MARKER_FALSE {
            Ok((ValueModel::Boolean(false), pos + 1))
        } else if m == MARKER_TRUE {
            Ok((ValueModel::Boolean(true), pos + 1))
        } else if m < 0x80 || m >= 0xF0 {
            Ok((ValueModel::Integer((m as i8) as i64), pos + 1))
        } else if m == MARKER_INT_8 {
            if pos + 2 <= s.len() {
                Ok((ValueModel::Integer((s[pos + 1] as i8) as i64), pos + 2))
            } else {
                Err(DecodeError::Truncated)
            }
        } else if m == MARKER_INT_16 {
            if pos + 3 <= s.len() {
                Ok((ValueModel::Integer((be16_at(s, pos + 1) as i16) as i64), pos + 3))
            } else {
                Err(DecodeError::Truncated)
            }
        } else if m == MARKER_INT_32 {
            if pos + 5 <= s.len() {
                Ok((ValueModel::Integer((be32_at(s, pos + 1) as i32) as i64), pos + 5))
            } else {
                Err(DecodeError::Truncated)
            }
        } else if m == MARKER_INT_64 {
            if pos + 9 <= s.len() {
                Ok((ValueModel::Integer(be64_at(s, pos + 1) as i64), pos + 9))
            } else {
                Err(DecodeError::Truncated)
            }
        } else if m == MARKER_FLOAT {
            if pos + 9 <= s.len() {
                Ok((ValueModel::Float(be64_at(s, pos + 1)), pos + 9))
            } else {
                Err(DecodeError::Truncated)
            }
        } else if in_family(m, MARKER_TINY_STRING, MARKER_SMALL_STRING, true) {
            match parse_size(s, pos, m, MARKER_TINY_STRING, MARKER_SMALL_STRING) {
                Err(e) => Err(e),
                Ok((n, start)) => if start + n <= s.len() {
                    let bytes = s.subrange(start, start + n);
                    if valid_utf8(bytes) {
                        Ok((ValueModel::String(decode_utf8(bytes)), start + n))
                    } else {
                        Err(DecodeError::InvalidUtf8(bytes))
                    }
                } else {
                    Err(DecodeError::Truncated)
                },
            }
        } else if in_family(m, MARKER_TINY_LIST, MARKER_SMALL_LIST, true) {
            match parse_size(s, pos, m, MARKER_TINY_LIST, MARKER_SMALL_LIST) {
                Err(e) => Err(e),
                Ok((n, start)) => if pos < start <= s.len() {
                    match parse_values(s, start, n) {
                        Err(e) => Err(e),
                        Ok((items, end)) => Ok((ValueModel::List(items), end)),
                    }
                } else {
                    Err(DecodeError::Truncated)
                },
            }
        } else if in_family(m, MARKER_TINY_MAP, MARKER_SMALL_MAP, true) {
            match parse_size(s, pos, m, MARKER_TINY_MAP, MARKER_SMALL_MAP) {
                Err(e) => Err(e),
                Ok((n, start)) => if pos < start <= s.len() {
                    match parse_entries(s, start, n) {
                        Err(e) => Err(e),
                        Ok((entries, end)) => Ok((ValueModel::Dictionary(entries), end)),
                    }
                } else {
                    Err(DecodeError::Truncated)
                },
            }
        } else if in_family(m, MARKER_TINY_STRUCT, MARKER_SMALL_STRUCT, false) {
            match parse_size(s, pos, m, MARKER_TINY_STRUCT, MARKER_SMALL_STRUCT) {
                Err(e) => Err(e),
                Ok((_, start)) => if pos < start < s.len() {
                    let sig = s[start];
                    if field_count(sig) == 0 {
                        Err(DecodeError::InvalidSignatureByte(sig))
                    } else {
                        match parse_values(s, start + 1, field_count(sig)) {
                            Err(e) => Err(e),
                            Ok((fields, end)) => Ok((ValueModel::Structure(sig, fields), end)),
                        }
                    }
                } else {
                    Err(DecodeError::Truncated)
                },
            }
        } else {
            Err(DecodeError::InvalidMarkerByte(m))
        }
    }
}

/// Decoding `n` values one after the other from `pos`.
pub open spec fn parse_values(s: Seq<u8>, pos: int, n: nat) -> Result<
    (Seq<ValueModel>, int),
    DecodeError,
>
    decreases s.len() - pos, 1int, n,
{
    if n == 0 {
        if pos <= s.len() {
            Ok((Seq::empty(), pos))
        } else {
            Err(DecodeError::Truncated)
        }
    } else {
        match parse_values(s, pos, (n - 1) as nat) {
            Err(e) => Err(e),
            Ok((items, q)) => if pos <= q <= s.len() {
                match parse_value(s, q) {
                    Err(e) => Err(e),
                    Ok((v, end)) => Ok((items.push(v), end)),
                }
            } else {
                Err(DecodeError::Truncated)
            },
        }
    }
}

/// Decoding `n` map entries from `pos`, each inserted into the map in turn.
pub open spec fn parse_entries(s: Seq<u8>, pos: int, n: nat) -> Result<
    (Seq<(ValueModel, ValueModel)>, int),
    DecodeError,
>
    decreases s.len() - pos, 1int, n,
{
    if n == 0 {
        if pos <= s.len() {
            Ok((Seq::empty(), pos))
        } else {
            Err(DecodeError::Truncated)
        }
    } else {
        match parse_entries(s, pos, (n - 1) as nat) {
            Err(e) => Err(e),
            Ok((entries, q)) => if pos <= q <= s.len() {
                match parse_value(s, q) {
                    Err(e) => Err(e),
                    Ok((k, q1)) => if q <= q1 <= s.len() {
                        match parse_value(s, q1) {
                            Err(e) => Err(e),
                            Ok((v, end)) => Ok((map_insert(entries, k, v), end)),
                        }
                    } else {
                        Err(DecodeError::Truncated)
                    },
                }
            } else {
                Err(DecodeError::Truncated)
            },
        }
    }
}

/// Null, booleans and floats: a single marker byte, followed for a float by the eight
/// big-endian bytes of its bits.
pub proof fn law_scalar_encoding(b: bool, bits: u64)
    ensures
        ser(ValueModel::Null) == seq![0xC0u8],
        ser(ValueModel::Boolean(true)) == seq![0xC3u8],
        ser(ValueModel::Boolean(false)) == seq![0xC2u8],
        ser(ValueModel::Float(bits)) == seq![0xC1u8] + be64(bits),
        ser(ValueModel::Float(bits)).len() == 9,
{
}

/// An integer takes the shortest form that holds it: one byte from -16 to 127, then a
/// marker followed by one, two, four or eight big-endian bytes of two's complement.
pub proof fn law_integer_encoding(i: i64)
    ensures
        -16 <= i < 128 ==> ser(ValueModel::Integer(i)) == seq![i as u8],
        -128 <= i < -16 ==> ser(ValueModel::Integer(i)) == seq![0xC8u8, i as u8],
        (-32768 <= i < -128 || 128 <= i < 32768) ==> ser(ValueModel::Integer(i)) == seq![0xC9u8]
            + be16(i as u16),
        (-2147483648 <= i < -32768 || 32768 <= i < 2147483648) ==> ser(ValueModel::Integer(i))
            == seq![0xCAu8] + be32(i as u32),
        (i < -2147483648 || 2147483648 <= i) ==> ser(ValueModel::Integer(i)) == seq![0xCBu8]
            + be64(i as u64),
{
}

/// The header of a value of `n` items in a family whose tiny marker is `tiny` and whose
/// sized markers start at `small`: the tiny marker plus `n` below 16, then the one-,
/// two- or four-byte size behind its marker.
pub open spec fn header_of(tiny: u8, small: u8, n: nat) -> Seq<u8> {
    if n < 16 {
        seq![(tiny + n) as u8]
    } else if n < 256 {
        seq![small, n as u8]
    } else if n < 65536 {
        seq![(small + 1) as u8, (n / 256) as u8, (n % 256) as u8]
    } else {
        seq![(small + 2) as u8, (n / 16777216) as u8, ((n / 65536) % 256) as u8, ((n / 256) % 256) as u8, (n % 256) as u8]
    }
}

/// Strings, lists, maps and structures start with a header that gives their size: the
/// number of UTF-8 bytes of a string, of items of a list, of entries of a map and of
/// fields of a structure, whose signature byte follows the header. Strings use the
/// markers 0x80 and 0xD0 to 0xD2, lists 0x90 and 0xD4 to 0xD6, maps 0xA0 and 0xD8 to
/// 0xDA, structures 0xB0, 0xDC and 0xDD.
pub proof fn law_sized_encoding(
    s: Seq<char>,
    items: Seq<ValueModel>,
    entries: Seq<(ValueModel, ValueModel)>,
    sig: u8,
)
    requires
        encode_utf8(s).len() <= 0xFFFF_FFFF,
        items.len() <= 0xFFFF_FFFF,
        entries.len() <= 0xFFFF_FFFF,
    ensures
        ser(ValueModel::String(s)) == header_of(0x80, 0xD0, encode_utf8(s).len()) + encode_utf8(s),
        ser(ValueModel::List(items)) == header_of(0x90, 0xD4, items.len()) + ser_seq(items),
        ser(ValueModel::Dictionary(entries)) == header_of(0xA0, 0xD8, entries.len()) + ser_entries(
            entries,
        ),
        items.len() < 65536 ==> ser(ValueModel::Structure(sig, items)) == header_of(
            0xB0,
            0xDC,
            items.len(),
        ) + seq![sig] + ser_seq(items),
{
    lemma_header_of(0x80, 0xD0, encode_utf8(s).len());
    lemma_header_of(0x90, 0xD4, items.len());
    lemma_header_of(0xA0, 0xD8, entries.len());
    lemma_header_of(0xB0, 0xDC, items.len());
}

/// `header_of` spells out `sized_header` byte by byte.
proof fn lemma_header_of(tiny: u8, small: u8, n: nat)
    requires
        n <= 0xFFFF_FFFF,
        small <= 0xFD,
    ensures
        sized_header(tiny, small, n) == header_of(tiny, small, n),
{
    if 256 <= n < 65536 {
        let x = n as u16;
        assert((x >> 8u16) as u8 == (x / 256) as u8 && x as u8 == (x % 256) as u8) by (bit_vector);
        assert(sized_header(tiny, small, n) =~= header_of(tiny, small, n));
    } else if n >= 65536 {
        let x = n as u32;
        assert((x >> 24u32) as u8 == (x / 16777216) as u8 && (x >> 16u32) as u8 == ((x / 65536)
            % 256) as u8 && (x >> 8u32) as u8 == ((x / 256) % 256) as u8 && x as u8 == (x % 256)
            as u8) by (bit_vector);
        assert(sized_header(tiny, small, n) =~= header_of(tiny, small, n));
    }
}

/// The items of a list or a structure are encoded in their order, and each entry of a
/// map as its key followed by its value, the entries in their order.
pub proof fn law_item_order(
    a: ValueModel,
    items: Seq<ValueModel>,
    k: ValueModel,
    v: ValueModel,
    entries: Seq<(ValueModel, ValueModel)>,
)
    ensures
        ser_seq(seq![a] + items) == ser(a) + ser_seq(items),
        ser_seq(items.push(a)) == ser_seq(items) + ser(a),
        ser_entries(seq![(k, v)] + entries) == ser(k) + ser(v) + ser_entries(entries),
        ser_entries(entries.push((k, v))) == ser_entries(entries) + ser(k) + ser(v),
    decreases items.len() + entries.len(),
{
    assert(items.push(a).drop_last() =~= items);
    assert(entries.push((k, v)).drop_last() =~= entries);
    if items.len() > 0 {
        assert((seq![a] + items).drop_last() =~= seq![a] + items.drop_last());
        law_item_order(a, items.drop_last(), k, v, entries);
        assert((seq![a] + items).last() == items.last());
        assert(ser_seq(seq![a] + items) == ser_seq(seq![a] + items.drop_last()) + ser(items.last()));
        assert(ser(a) + ser_seq(items) =~= ser(a) + (ser_seq(items.drop_last()) + ser(items.last())));
    } else {
        assert(seq![a] + items =~= seq![a]);
        assert(seq![a].drop_last() =~= Seq::<ValueModel>::empty());
        assert(ser_seq(items) =~= Seq::<u8>::empty());
        assert(ser(a) + ser_seq(items) =~= ser(a));
        assert(ser_seq(Seq::<ValueModel>::empty()) =~= Seq::<u8>::empty());
        assert(seq![a].last() == a);
        assert(ser_seq(seq![a]) =~= Seq::<u8>::empty() + ser(a));
    }
    if entries.len() > 0 {
        assert((seq![(k, v)] + entries).drop_last() =~= seq![(k, v)] + entries.drop_last());
        law_item_order(a, items, k, v, entries.drop_last());
        assert((seq![(k, v)] + entries).last() == entries.last());
        assert(ser(k) + ser(v) + ser_entries(entries) =~= ser(k) + ser(v) + ser_entries(
            entries.drop_last(),
        ) + ser(entries.last().0) + ser(entries.last().1));
    } else {
        assert(seq![(k, v)] + entries =~= seq![(k, v)]);
        assert(seq![(k, v)].drop_last() =~= Seq::<(ValueModel, ValueModel)>::empty());
        assert(ser_entries(entries) =~= Seq::<u8>::empty());
        assert(ser_entries(Seq::<(ValueModel, ValueModel)>::empty()) =~= Seq::<u8>::empty());
        assert(seq![(k, v)].last() == (k, v));
        assert(ser_entries(seq![(k, v)]) =~= Seq::<u8>::empty() + ser(k) + ser(v));
        assert(ser(k) + ser(v) + ser_entries(entries) =~= ser(k) + ser(v));
    }
}

} // verus!
