//! Encoding values into bytes.
use vstd::prelude::*;

use bytes::Bytes;

use crate::buffers::{bytes_from_vec, bytes_view};
use vstd::utf8::*;

use crate::error::SerializationError;
use crate::packstream::{
    be16, be32, be64, first_oversize, first_oversize_entries, first_oversize_seq, max_size, ser,
    ser_entries, ser_integer, ser_seq, sized_header, MARKER_FALSE, MARKER_FLOAT, MARKER_INT_16,
    MARKER_INT_32, MARKER_INT_64, MARKER_INT_8, MARKER_NULL, MARKER_SMALL_LIST, MARKER_SMALL_MAP,
    MARKER_SMALL_STRING, MARKER_SMALL_STRUCT, MARKER_TINY_LIST, MARKER_TINY_MAP,
    MARKER_TINY_STRING, MARKER_TINY_STRUCT, MARKER_TRUE,
};
use crate::value::{
    entry_models, lemma_entry_models, lemma_seq_models, model_of, seq_models, BoltMap, BoltValue, List, Node, Path, Relationship, UnboundRelationship,
    ValueModel, SIGNATURE_NODE, SIGNATURE_PATH, SIGNATURE_RELATIONSHIP,
    SIGNATURE_UNBOUND_RELATIONSHIP,
};

verus! {

broadcast use vstd::std_specs::vec::group_vec_axioms;

/// Appending to a sequence of values appends its encoding, and its first oversize is
/// that of the prefix, else that of the new value.
pub proof fn lemma_ser_seq_push(items: Seq<ValueModel>, x: ValueModel)
    ensures
        ser_seq(items.push(x)) == ser_seq(items) + ser(x),
        first_oversize_seq(items.push(x)) == (match first_oversize_seq(items) {
            Some(n) => Some(n),
            None => first_oversize(x),
        }),
{
    assert(items.push(x).drop_last() =~= items);
}

/// Appending an entry appends the encodings of its key and value.
pub proof fn lemma_ser_entries_push(
    entries: Seq<(ValueModel, ValueModel)>,
    k: ValueModel,
    v: ValueModel,
)
    ensures
        ser_entries(entries.push((k, v))) == ser_entries(entries) + ser(k) + ser(v),
        first_oversize_entries(entries.push((k, v))) == (match first_oversize_entries(entries) {
            Some(n) => Some(n),
            None => match first_oversize(k) {
                Some(n) => Some(n),
                None => first_oversize(v),
            },
        }),
{
    assert(entries.push((k, v)).drop_last() =~= entries);
}

/// An oversize found in a prefix is the first oversize of the whole sequence.
pub proof fn lemma_first_oversize_seq_prefix(items: Seq<ValueModel>, k: int)
    requires
        0 <= k <= items.len(),
        first_oversize_seq(items.take(k)) is Some,
    ensures
        first_oversize_seq(items) == first_oversize_seq(items.take(k)),
    decreases items.len(),
{
    if k == items.len() {
        assert(items.take(k) =~= items);
    } else {
        assert(items.drop_last().take(k) =~= items.take(k));
        lemma_first_oversize_seq_prefix(items.drop_last(), k);
    }
}

/// An oversize found in a prefix of entries is the first oversize of all of them.
pub proof fn lemma_first_oversize_entries_prefix(entries: Seq<(ValueModel, ValueModel)>, k: int)
    requires
        0 <= k <= entries.len(),
        first_oversize_entries(entries.take(k)) is Some,
    ensures
        first_oversize_entries(entries) == first_oversize_entries(entries.take(k)),
    decreases entries.len(),
{
    if k == entries.len() {
        assert(entries.take(k) =~= entries);
    } else {
        assert(entries.drop_last().take(k) =~= entries.take(k));
        lemma_first_oversize_entries_prefix(entries.drop_last(), k);
    }
}

/// Appends the bytes of a slice.
fn push_bytes(out: &mut Vec<u8>, b: &[u8])
    ensures
        final(out)@ == old(out)@ + b@,
{
    let ghost start = out@;
    let mut i: usize = 0;
    while i < b.len()
        invariant
            i <= b.len(),
            out@ == start + b@.take(i as int),
        decreases b.len() - i,
    {
        out.push(b[i]);
        i = i + 1;
        assert(start + b@.take(i as int) =~= (start + b@.take(i - 1)).push(b@[i - 1]));
    }
    assert(b@.take(b.len() as int) =~= b@);
}

/// Appends a `u16` in big-endian order.
fn push_be16(out: &mut Vec<u8>, x: u16)
    ensures
        final(out)@ == old(out)@ + be16(x),
{
    out.push((x >> 8u16) as u8);
    out.push(x as u8);
    assert(final(out)@ =~= old(out)@ + be16(x));
}

/// Appends a `u32` in big-endian order.
fn push_be32(out: &mut Vec<u8>, x: u32)
    ensures
        final(out)@ == old(out)@ + be32(x),
{
    out.push((x >> 24u32) as u8);
    out.push((x >> 16u32) as u8);
    out.push((x >> 8u32) as u8);
    out.push(x as u8);
    assert(final(out)@ =~= old(out)@ + be32(x));
}

/// Appends a `u64` in big-endian order.
fn push_be64(out: &mut Vec<u8>, x: u64)
    ensures
        final(out)@ == old(out)@ + be64(x),
{
    out.push((x >> 56u64) as u8);
    out.push((x >> 48u64) as u8);
    out.push((x >> 40u64) as u8);
    out.push((x >> 32u64) as u8);
    out.push((x >> 24u64) as u8);
    out.push((x >> 16u64) as u8);
    out.push((x >> 8u64) as u8);
    out.push(x as u8);
    assert(final(out)@ =~= old(out)@ + be64(x));
}

/// Appends the header of a sized value of `n` items.
pub(crate) fn push_sized_header(out: &mut Vec<u8>, tiny: u8, small: u8, n: usize)
    requires
        n <= max_size(),
        tiny <= 0xF0,
        small <= 0xFD,
    ensures
        final(out)@ == old(out)@ + sized_header(tiny, small, n as nat),
{
    if n < 16 {
        out.push(tiny + (n as u8));
    } else if n < 256 {
        out.push(small);
        out.push(n as u8);
    } else if n < 65536 {
        out.push(small + 1);
        push_be16(out, n as u16);
    } else {
        out.push(small + 2);
        push_be32(out, n as u32);
    }
    assert(final(out)@ =~= old(out)@ + sized_header(tiny, small, n as nat));
}

/// Appends the encoding of an integer.
fn push_integer(out: &mut Vec<u8>, i: i64)
    ensures
        final(out)@ == old(out)@ + ser_integer(i),
{
    if -16 <= i && i < 128 {
        out.push(i as u8);
    } else if -128 <= i && i < -16 {
        out.push(MARKER_INT_8);
        out.push(i as u8);
    } else if -32768 <= i && i < 32768 {
        out.push(MARKER_INT_16);
        push_be16(out, i as u16);
    } else if -2147483648 <= i && i < 2147483648 {
        out.push(MARKER_INT_32);
        push_be32(out, i as u32);
    } else {
        out.push(MARKER_INT_64);
        push_be64(out, i as u64);
    }
    assert(final(out)@ =~= old(out)@ + ser_integer(i));
}

/// Appends the encoding of the next value of the sequence `all`, whose values before it,
/// `prefix`, were appended already.
pub(crate) fn push_item(
    out: &mut Vec<u8>,
    v: &BoltValue,
    Ghost(base): Ghost<Seq<u8>>,
    Ghost(prefix): Ghost<Seq<ValueModel>>,
    Ghost(all): Ghost<Seq<ValueModel>>,
) -> (res: Result<(), SerializationError>)
    requires
        old(out)@ == base + ser_seq(prefix),
        first_oversize_seq(prefix) is None,
        prefix.len() < all.len(),
        all.take(prefix.len() + 1int) == prefix.push(v@),
    ensures
        match res {
            Ok(()) => {
                &&& final(out)@ == base + ser_seq(prefix.push(v@))
                &&& first_oversize_seq(prefix.push(v@)) is None
            },
            Err(SerializationError::ValueTooLarge(n)) => first_oversize_seq(all) == Some(
                n as nat,
            ),
        },
    decreases *v, 1nat,
{
    let r = serialize_into(v, out);
    proof {
        lemma_ser_seq_push(prefix, v@);
        assert(base + ser_seq(prefix) + ser(v@) =~= base + (ser_seq(prefix) + ser(v@)));
        if r is Err {
            lemma_first_oversize_seq_prefix(all, prefix.len() + 1int);
        }
    }
    r
}

/// Appends the encoding of a value, or reports the first size that is too large to
/// be announced.
pub fn serialize_into(v: &BoltValue, out: &mut Vec<u8>) -> (res: Result<(), SerializationError>)
    ensures
        match res {
            Ok(()) => {
                &&& first_oversize(v@) is None
                &&& final(out)@ == old(out)@ + ser(v@)
            },
            Err(SerializationError::ValueTooLarge(n)) => first_oversize(v@) == Some(n as nat),
        },
    decreases *v, 0nat,
{
    match v {
        BoltValue::Null => {
            out.push(MARKER_NULL);
            assert(final(out)@ =~= old(out)@ + ser(v@));
            Ok(())
        },
        BoltValue::Boolean(b) => {
            if *b {
                out.push(MARKER_TRUE);
            } else {
                out.push(MARKER_FALSE);
            }
            assert(final(out)@ =~= old(out)@ + ser(v@));
            Ok(())
        },
        BoltValue::Integer(i) => {
            push_integer(out, *i);
            Ok(())
        },
        BoltValue::Float(bits) => {
            out.push(MARKER_FLOAT);
            push_be64(out, *bits);
            assert(final(out)@ =~= old(out)@ + ser(v@));
            Ok(())
        },
        BoltValue::String(s) => {
            let bytes = s.as_str().as_bytes();
            let n = bytes.len();
            if n as u64 > 0xFFFF_FFFFu64 {
                return Err(SerializationError::ValueTooLarge(n));
            }
            push_sized_header(out, MARKER_TINY_STRING, MARKER_SMALL_STRING, n);
            push_bytes(out, bytes);
            assert(final(out)@ =~= old(out)@ + ser(v@));
            Ok(())
        },
        BoltValue::List(l) => {
            assert(decreases_to!(*v => *l));
            serialize_list(l, out)
        },
        BoltValue::Dictionary(m) => {
            assert(decreases_to!(*v => *m));
            serialize_map(m, out)
        },
        BoltValue::Node(node) => {
            assert(decreases_to!(*v => *node));
            serialize_node(node, out)
        },
        BoltValue::Relationship(r) => {
            assert(decreases_to!(*v => *r));
            serialize_relationship(r, out)
        },
        BoltValue::Path(p) => {
            assert(decreases_to!(*v => *p));
            serialize_path(p, out)
        },
        BoltValue::UnboundRelationship(u) => {
            assert(decreases_to!(*v => *u));
            serialize_unbound_relationship(u, out)
        },
    }
}

/// Appends the encoding of a list.
fn serialize_list(l: &List, out: &mut Vec<u8>) -> (res: Result<(), SerializationError>)
    ensures
        match res {
            Ok(()) => {
                &&& first_oversize(ValueModel::List(seq_models(l.value@))) is None
                &&& final(out)@ == old(out)@ + ser(ValueModel::List(seq_models(l.value@)))
            },
            Err(SerializationError::ValueTooLarge(n)) => first_oversize(
                ValueModel::List(seq_models(l.value@)),
            ) == Some(n as nat),
        },
    decreases *l, 0nat,
{
        let n = l.value.len();
        proof {
            lemma_seq_models(l.value@);
        }
        if n as u64 > 0xFFFF_FFFFu64 {
            return Err(SerializationError::ValueTooLarge(n));
        }
        push_sized_header(out, MARKER_TINY_LIST, MARKER_SMALL_LIST, n);
        let ghost base = out@;
        let ghost items = seq_models(l.value@);
        let mut i: usize = 0;
        assert(items.take(0) =~= Seq::<ValueModel>::empty());
        while i < n
            invariant
                n == l.value.len(),
                n <= max_size(),
                items == seq_models(l.value@),
                items.len() == n,
                forall|j: int| 0 <= j < n ==> #[trigger] items[j] == model_of(l.value@[j]),
                i <= n,
                out@ == base + ser_seq(items.take(i as int)),
                first_oversize_seq(items.take(i as int)) is None,
            decreases n - i,
        {
            assert(items.take(i as int).push(l.value@[i as int]@) =~= items.take(i + 1));
            assert(decreases_to!(l.value => l.value[i as int]));
            push_item(out, &l.value[i], Ghost(base), Ghost(items.take(i as int)), Ghost(items))?;
            i = i + 1;
        }
        assert(items.take(n as int) =~= items);
        assert(final(out)@ =~= old(out)@ + ser(ValueModel::List(seq_models(l.value@))));
        Ok(())
}

/// Appends the encoding of a map.
fn serialize_map(m: &BoltMap, out: &mut Vec<u8>) -> (res: Result<(), SerializationError>)
    ensures
        match res {
            Ok(()) => {
                &&& first_oversize(ValueModel::Dictionary(entry_models(m.value@))) is None
                &&& final(out)@ == old(out)@ + ser(ValueModel::Dictionary(entry_models(m.value@)))
            },
            Err(SerializationError::ValueTooLarge(n)) => first_oversize(
                ValueModel::Dictionary(entry_models(m.value@)),
            ) == Some(n as nat),
        },
    decreases *m, 0nat,
{
        let n = m.value.len();
        proof {
            lemma_entry_models(m.value@);
        }
        if n as u64 > 0xFFFF_FFFFu64 {
            return Err(SerializationError::ValueTooLarge(n));
        }
        push_sized_header(out, MARKER_TINY_MAP, MARKER_SMALL_MAP, n);
        let ghost base = out@;
        let ghost entries = entry_models(m.value@);
        let mut i: usize = 0;
        assert(entries.take(0) =~= Seq::<(ValueModel, ValueModel)>::empty());
        while i < n
            invariant
                n == m.value.len(),
                n <= max_size(),
                entries == entry_models(m.value@),
                entries.len() == n,
                forall|j: int|
                    0 <= j < n ==> #[trigger] entries[j] == (
                    model_of(m.value@[j].0),
                    model_of(m.value@[j].1),
                ),
                i <= n,
                out@ == base + ser_entries(entries.take(i as int)),
                first_oversize_entries(entries.take(i as int)) is None,
            decreases n - i,
        {
            let ghost prefix = entries.take(i as int);
            assert(decreases_to!(m.value => m.value[i as int]));
            let rk = serialize_into(&m.value[i].0, out);
            proof {
                lemma_ser_entries_push(prefix, m.value@[i as int].0@, m.value@[i as int].1@);
                assert(prefix.push(entries[i as int]) =~= entries.take(i + 1));
            }
            match rk {
                Ok(()) => {},
                Err(SerializationError::ValueTooLarge(k)) => {
                    proof {
                        lemma_first_oversize_entries_prefix(entries, i + 1);
                    }
                    return Err(SerializationError::ValueTooLarge(k));
                },
            }
            let rv = serialize_into(&m.value[i].1, out);
            match rv {
                Ok(()) => {},
                Err(SerializationError::ValueTooLarge(k)) => {
                    proof {
                        lemma_first_oversize_entries_prefix(entries, i + 1);
                    }
                    return Err(SerializationError::ValueTooLarge(k));
                },
            }
            assert(out@ =~= base + ser_entries(entries.take(i + 1)));
            i = i + 1;
        }
        assert(entries.take(n as int) =~= entries);
        assert(final(out)@ =~= old(out)@ + ser(ValueModel::Dictionary(entry_models(m.value@))));
        Ok(())
}

/// Appends the encoding of a structure value.
fn serialize_node(node: &Node, out: &mut Vec<u8>) -> (res: Result<(), SerializationError>)
    ensures
        match res {
            Ok(()) => {
                &&& first_oversize(model_of(BoltValue::Node(*node))) is None
                &&& final(out)@ == old(out)@ + ser(model_of(BoltValue::Node(*node)))
            },
            Err(SerializationError::ValueTooLarge(n)) => first_oversize(
                model_of(BoltValue::Node(*node)),
            ) == Some(n as nat),
        },
    decreases *node, 0nat,
{
        out.push(MARKER_TINY_STRUCT + 3);
        out.push(SIGNATURE_NODE);
        let ghost base = out@;
        let ghost e = Seq::<ValueModel>::empty();
        let ghost all = seq![node.node_identity@, node.labels@, node.properties@];
        assert(base == base + ser_seq(e));
        proof {
            reveal_with_fuel(first_oversize_seq, 5);
        }
        assert(all.take(1) =~= e.push(node.node_identity@));
        push_item(out, &node.node_identity, Ghost(base), Ghost(e), Ghost(all))?;
        assert(all.take(2) =~= e.push(node.node_identity@).push(node.labels@));
        push_item(out, &node.labels, Ghost(base), Ghost(e.push(node.node_identity@)), Ghost(all))?;
        assert(all.take(3) =~= e.push(node.node_identity@).push(node.labels@).push(node.properties@));
        push_item(out, &node.properties, Ghost(base), Ghost(e.push(node.node_identity@).push(node.labels@)), Ghost(all))?;
        assert(all =~= e.push(node.node_identity@).push(node.labels@).push(node.properties@));
        assert(final(out)@ =~= old(out)@ + ser(model_of(BoltValue::Node(*node))));
        Ok(())
}

/// Appends the encoding of a structure value.
fn serialize_relationship(r: &Relationship, out: &mut Vec<u8>) -> (res: Result<(), SerializationError>)
    ensures
        match res {
            Ok(()) => {
                &&& first_oversize(model_of(BoltValue::Relationship(*r))) is None
                &&& final(out)@ == old(out)@ + ser(model_of(BoltValue::Relationship(*r)))
            },
            Err(SerializationError::ValueTooLarge(n)) => first_oversize(
                model_of(BoltValue::Relationship(*r)),
            ) == Some(n as nat),
        },
    decreases *r, 0nat,
{
        out.push(MARKER_TINY_STRUCT + 5);
        out.push(SIGNATURE_RELATIONSHIP);
        let ghost base = out@;
        let ghost e = Seq::<ValueModel>::empty();
        let ghost all = seq![r.rel_identity@, r.start_node_identity@, r.end_node_identity@, r.rel_type@, r.properties@];
        assert(base == base + ser_seq(e));
        proof {
            reveal_with_fuel(first_oversize_seq, 7);
        }
        assert(all.take(1) =~= e.push(r.rel_identity@));
        push_item(out, &r.rel_identity, Ghost(base), Ghost(e), Ghost(all))?;
        assert(all.take(2) =~= e.push(r.rel_identity@).push(r.start_node_identity@));
        push_item(out, &r.start_node_identity, Ghost(base), Ghost(e.push(r.rel_identity@)), Ghost(all))?;
        assert(all.take(3) =~= e.push(r.rel_identity@).push(r.start_node_identity@).push(r.end_node_identity@));
        push_item(out, &r.end_node_identity, Ghost(base), Ghost(e.push(r.rel_identity@).push(r.start_node_identity@)), Ghost(all))?;
        assert(all.take(4) =~= e.push(r.rel_identity@).push(r.start_node_identity@).push(r.end_node_identity@).push(r.rel_type@));
        push_item(out, &r.rel_type, Ghost(base), Ghost(e.push(r.rel_identity@).push(r.start_node_identity@).push(r.end_node_identity@)), Ghost(all))?;
        assert(all.take(5) =~= e.push(r.rel_identity@).push(r.start_node_identity@).push(r.end_node_identity@).push(r.rel_type@).push(r.properties@));
        push_item(out, &r.properties, Ghost(base), Ghost(e.push(r.rel_identity@).push(r.start_node_identity@).push(r.end_node_identity@).push(r.rel_type@)), Ghost(all))?;
        assert(all =~= e.push(r.rel_identity@).push(r.start_node_identity@).push(r.end_node_identity@).push(r.rel_type@).push(r.properties@));
        assert(final(out)@ =~= old(out)@ + ser(model_of(BoltValue::Relationship(*r))));
        Ok(())
}

/// Appends the encoding of a structure value.
fn serialize_path(p: &Path, out: &mut Vec<u8>) -> (res: Result<(), SerializationError>)
    ensures
        match res {
            Ok(()) => {
                &&& first_oversize(model_of(BoltValue::Path(*p))) is None
                &&& final(out)@ == old(out)@ + ser(model_of(BoltValue::Path(*p)))
            },
            Err(SerializationError::ValueTooLarge(n)) => first_oversize(
                model_of(BoltValue::Path(*p)),
            ) == Some(n as nat),
        },
    decreases *p, 0nat,
{
        out.push(MARKER_TINY_STRUCT + 3);
        out.push(SIGNATURE_PATH);
        let ghost base = out@;
        let ghost e = Seq::<ValueModel>::empty();
        let ghost all = seq![p.nodes@, p.relationships@, p.sequence@];
        assert(base == base + ser_seq(e));
        proof {
            reveal_with_fuel(first_oversize_seq, 5);
        }
        assert(all.take(1) =~= e.push(p.nodes@));
        push_item(out, &p.nodes, Ghost(base), Ghost(e), Ghost(all))?;
        assert(all.take(2) =~= e.push(p.nodes@).push(p.relationships@));
        push_item(out, &p.relationships, Ghost(base), Ghost(e.push(p.nodes@)), Ghost(all))?;
        assert(all.take(3) =~= e.push(p.nodes@).push(p.relationships@).push(p.sequence@));
        push_item(out, &p.sequence, Ghost(base), Ghost(e.push(p.nodes@).push(p.relationships@)), Ghost(all))?;
        assert(all =~= e.push(p.nodes@).push(p.relationships@).push(p.sequence@));
        assert(final(out)@ =~= old(out)@ + ser(model_of(BoltValue::Path(*p))));
        Ok(())
}

/// Appends the encoding of a structure value.
fn serialize_unbound_relationship(u: &UnboundRelationship, out: &mut Vec<u8>) -> (res: Result<(), SerializationError>)
    ensures
        match res {
            Ok(()) => {
                &&& first_oversize(model_of(BoltValue::UnboundRelationship(*u))) is None
                &&& final(out)@ == old(out)@ + ser(model_of(BoltValue::UnboundRelationship(*u)))
            },
            Err(SerializationError::ValueTooLarge(n)) => first_oversize(
                model_of(BoltValue::UnboundRelationship(*u)),
            ) == Some(n as nat),
        },
    decreases *u, 0nat,
{
        out.push(MARKER_TINY_STRUCT + 3);
        out.push(SIGNATURE_UNBOUND_RELATIONSHIP);
        let ghost base = out@;
        let ghost e = Seq::<ValueModel>::empty();
        let ghost all = seq![u.rel_identity@, u.rel_type@, u.properties@];
        assert(base == base + ser_seq(e));
        proof {
            reveal_with_fuel(first_oversize_seq, 5);
        }
        assert(all.take(1) =~= e.push(u.rel_identity@));
        push_item(out, &u.rel_identity, Ghost(base), Ghost(e), Ghost(all))?;
        assert(all.take(2) =~= e.push(u.rel_identity@).push(u.rel_type@));
        push_item(out, &u.rel_type, Ghost(base), Ghost(e.push(u.rel_identity@)), Ghost(all))?;
        assert(all.take(3) =~= e.push(u.rel_identity@).push(u.rel_type@).push(u.properties@));
        push_item(out, &u.properties, Ghost(base), Ghost(e.push(u.rel_identity@).push(u.rel_type@)), Ghost(all))?;
        assert(all =~= e.push(u.rel_identity@).push(u.rel_type@).push(u.properties@));
        assert(final(out)@ =~= old(out)@ + ser(model_of(BoltValue::UnboundRelationship(*u))));
        Ok(())
}

/// The size of the value itself, when it is too large to be announced; unlike
/// `first_oversize` it does not look into the items.
pub open spec fn own_oversize(v: ValueModel) -> Option<nat> {
    match v {
        ValueModel::String(s) => if encode_utf8(s).len() > max_size() {
            Some(encode_utf8(s).len())
        } else {
            None
        },
        ValueModel::List(items) => if items.len() > max_size() {
            Some(items.len())
        } else {
            None
        },
        ValueModel::Dictionary(entries) => if entries.len() > max_size() {
            Some(entries.len())
        } else {
            None
        },
        _ => None,
    }
}

impl BoltValue {
    /// The marker byte that starts the encoding of this value, or the error for a
    /// string, list or map too large to be announced.
    pub fn get_marker(&self) -> (res: Result<u8, SerializationError>)
        ensures
            match res {
                Ok(m) => {
                    &&& own_oversize(self@) is None
                    &&& m == ser(self@)[0]
                },
                Err(SerializationError::ValueTooLarge(n)) => own_oversize(self@) == Some(n as nat),
            },
    {
        let mut out: Vec<u8> = Vec::new();
        let n: usize = match self {
            BoltValue::Null => return Ok(MARKER_NULL),
            BoltValue::Boolean(b) => return Ok(if *b { MARKER_TRUE } else { MARKER_FALSE }),
            BoltValue::Integer(i) => {
                push_integer(&mut out, *i);
                return Ok(out[0]);
            },
            BoltValue::Float(_) => return Ok(MARKER_FLOAT),
            BoltValue::String(s) => s.as_str().as_bytes().len(),
            BoltValue::List(l) => l.value.len(),
            BoltValue::Dictionary(m) => m.value.len(),
            BoltValue::Node(_) => return Ok(MARKER_TINY_STRUCT + 3),
            BoltValue::Relationship(_) => return Ok(MARKER_TINY_STRUCT + 5),
            BoltValue::Path(_) => return Ok(MARKER_TINY_STRUCT + 3),
            BoltValue::UnboundRelationship(_) => return Ok(MARKER_TINY_STRUCT + 3),
        };
        proof {
            match self {
                BoltValue::List(l) => lemma_seq_models(l.value@),
                BoltValue::Dictionary(m) => lemma_entry_models(m.value@),
                _ => {},
            }
        }
        if n as u64 > 0xFFFF_FFFFu64 {
            return Err(SerializationError::ValueTooLarge(n));
        }
        let (tiny, small) = match self {
            BoltValue::String(_) => (MARKER_TINY_STRING, MARKER_SMALL_STRING),
            BoltValue::List(_) => (MARKER_TINY_LIST, MARKER_SMALL_LIST),
            _ => (MARKER_TINY_MAP, MARKER_SMALL_MAP),
        };
        push_sized_header(&mut out, tiny, small, n);
        Ok(out[0])
    }

    /// The encoding of this value, or the error for the first string, list or map, in
    /// the order of the encoding, that is too large to be announced.
    pub fn try_into_bytes(&self) -> (res: Result<Bytes, SerializationError>)
        ensures
            match res {
                Ok(bytes) => {
                    &&& first_oversize(self@) is None
                    &&& bytes_view(bytes) == ser(self@)
                },
                Err(SerializationError::ValueTooLarge(n)) => first_oversize(self@) == Some(
                    n as nat,
                ),
            },
    {
        let mut out: Vec<u8> = Vec::new();
        match serialize_into(self, &mut out) {
            Ok(()) => {
                assert(out@ =~= ser(self@));
                Ok(bytes_from_vec(out))
            },
            Err(e) => Err(e),
        }
    }
}


impl List {
    /// The marker byte that starts the encoding of this list, or the error when it has
    /// too many items to be announced.
    pub fn get_marker(&self) -> (res: Result<u8, SerializationError>)
        ensures
            match res {
                Ok(m) => {
                    &&& self.value@.len() <= max_size()
                    &&& m == ser(ValueModel::List(seq_models(self.value@)))[0]
                },
                Err(SerializationError::ValueTooLarge(n)) => self.value@.len() > max_size() && n
                    == self.value@.len(),
            },
    {
        let n = self.value.len();
        proof {
            lemma_seq_models(self.value@);
        }
        if n as u64 > 0xFFFF_FFFFu64 {
            return Err(SerializationError::ValueTooLarge(n));
        }
        let mut out: Vec<u8> = Vec::new();
        push_sized_header(&mut out, MARKER_TINY_LIST, MARKER_SMALL_LIST, n);
        Ok(out[0])
    }

    /// The encoding of this list, or the error for the first string, list or map, in the
    /// order of the encoding, that is too large to be announced.
    pub fn try_into_bytes(&self) -> (res: Result<Bytes, SerializationError>)
        ensures
            match res {
                Ok(bytes) => {
                    &&& first_oversize(ValueModel::List(seq_models(self.value@))) is None
                    &&& bytes_view(bytes) == ser(ValueModel::List(seq_models(self.value@)))
                },
                Err(SerializationError::ValueTooLarge(n)) => first_oversize(
                    ValueModel::List(seq_models(self.value@)),
                ) == Some(n as nat),
            },
    {
        let mut out: Vec<u8> = Vec::new();
        serialize_list(self, &mut out)?;
        assert(out@ =~= ser(ValueModel::List(seq_models(self.value@))));
        Ok(bytes_from_vec(out))
    }
}

impl BoltMap {
    /// The marker byte that starts the encoding of this map, or the error when it has
    /// too many entries to be announced.
    pub fn get_marker(&self) -> (res: Result<u8, SerializationError>)
        ensures
            match res {
                Ok(m) => {
                    &&& self.value@.len() <= max_size()
                    &&& m == ser(ValueModel::Dictionary(entry_models(self.value@)))[0]
                },
                Err(SerializationError::ValueTooLarge(n)) => self.value@.len() > max_size() && n
                    == self.value@.len(),
            },
    {
        let n = self.value.len();
        proof {
            lemma_entry_models(self.value@);
        }
        if n as u64 > 0xFFFF_FFFFu64 {
            return Err(SerializationError::ValueTooLarge(n));
        }
        let mut out: Vec<u8> = Vec::new();
        push_sized_header(&mut out, MARKER_TINY_MAP, MARKER_SMALL_MAP, n);
        Ok(out[0])
    }

    /// The encoding of this map, or the error for the first string, list or map, in the
    /// order of the encoding, that is too large to be announced.
    pub fn try_into_bytes(&self) -> (res: Result<Bytes, SerializationError>)
        ensures
            match res {
                Ok(bytes) => {
                    &&& first_oversize(ValueModel::Dictionary(entry_models(self.value@))) is None
                    &&& bytes_view(bytes) == ser(ValueModel::Dictionary(entry_models(self.value@)))
                },
                Err(SerializationError::ValueTooLarge(n)) => first_oversize(
                    ValueModel::Dictionary(entry_models(self.value@)),
                ) == Some(n as nat),
            },
    {
        let mut out: Vec<u8> = Vec::new();
        serialize_map(self, &mut out)?;
        assert(out@ =~= ser(ValueModel::Dictionary(entry_models(self.value@))));
        Ok(bytes_from_vec(out))
    }
}
} // verus!
