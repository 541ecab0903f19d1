//! The chunked framing of messages on the wire.
//!
//! An encoded message is sent as a sequence of chunks, each a big-endian `u16` length
//! followed by that many bytes, and ends with an empty chunk: the two bytes `00 00`.
//! A reader skips empty chunks that come before a message (they keep a connection
//! alive), then joins the chunks of the message until the empty one.
use vstd::prelude::*;

use bytes::{Bytes, BytesMut};

use crate::buffers::{
    bytes_as_slice, bytes_from_vec, bytes_mut_as_slice, bytes_mut_extend, bytes_mut_freeze,
    bytes_mut_len, bytes_mut_new, bytes_mut_split_to, bytes_mut_view, bytes_view,
};
use crate::error::SerializationError;
use crate::message::{
    fields_of, law_message_decode_after_encode, message_well_formed, parse_message, ser_message,
    Message, MessageModel,
};
use crate::packstream::{be16, be16_at, first_oversize_seq, DecodeError};
use crate::roundtrip::{bytes_at, lemma_be16, lemma_bytes_at_index, lemma_bytes_at_split};

verus! {

/// The largest number of message bytes in one chunk: the default maximum chunk size of
/// the official Neo4j drivers, less the two bytes of the chunk's header.
pub const CHUNK_SIZE: usize = 16383 - 2;

/// The chunks that frame `data`: full chunks of `CHUNK_SIZE` bytes, then the rest, each
/// with its length in front, then the empty chunk that ends the message.
pub open spec fn chunks_of(data: Seq<u8>) -> Seq<Seq<u8>>
    decreases data.len(),
{
    if data.len() == 0 {
        seq![seq![0u8, 0u8]]
    } else {
        let k: int = if data.len() < CHUNK_SIZE {
            data.len() as int
        } else {
            CHUNK_SIZE as int
        };
        seq![be16(k as u16) + data.take(k)] + chunks_of(data.skip(k))
    }
}

/// Reading the chunks of a message from `pos` up to and including the empty chunk:
/// their joined bytes and the position after the empty chunk.
pub open spec fn read_chunks(s: Seq<u8>, pos: int) -> Option<(Seq<u8>, int)>
    decreases s.len() - pos,
{
    if pos < 0 || pos + 2 > s.len() {
        None
    } else {
        let n = be16_at(s, pos) as int;
        if n == 0 {
            Some((Seq::empty(), pos + 2))
        } else if pos + 2 + n > s.len() {
            None
        } else {
            match read_chunks(s, pos + 2 + n) {
                Some((rest, end)) => Some((s.subrange(pos + 2, pos + 2 + n) + rest, end)),
                None => None,
            }
        }
    }
}

/// Reading a message from `pos`: empty chunks before it are skipped.
pub open spec fn skip_noops(s: Seq<u8>, pos: int) -> Option<(Seq<u8>, int)>
    decreases s.len() - pos,
{
    if pos < 0 || pos + 2 > s.len() {
        None
    } else if be16_at(s, pos) == 0 {
        skip_noops(s, pos + 2)
    } else {
        read_chunks(s, pos)
    }
}

/// Reading the message framed at the start of `s`: its bytes and the number of bytes
/// of framing read, or `None` where `s` ends before the message does.
pub open spec fn dechunk(s: Seq<u8>) -> Option<(Seq<u8>, int)> {
    skip_noops(s, 0)
}

/// The two bytes of the empty chunk read as length zero.
proof fn lemma_zero_header(s: Seq<u8>, pos: int)
    requires
        bytes_at(s, pos, seq![0u8, 0u8]),
    ensures
        be16_at(s, pos) == 0,
{
    lemma_bytes_at_index(s, pos, seq![0u8, 0u8]);
    assert(seq![0u8, 0u8][0] == 0u8 && seq![0u8, 0u8][1] == 0u8);
    let a = s[pos];
    let b = s[pos + 1];
    assert(a == 0 && b == 0 ==> ((a as u16) << 8u16 | b as u16) == 0) by (bit_vector);
}

/// Reading the chunks that frame `data`, wherever they stand, gives `data` back and
/// stops right after them.
proof fn lemma_read_chunks(data: Seq<u8>, s: Seq<u8>, pos: int)
    requires
        bytes_at(s, pos, chunks_of(data).flatten()),
    ensures
        read_chunks(s, pos) == Some((data, pos + chunks_of(data).flatten().len())),
    decreases data.len(),
{
    let c = chunks_of(data);
    if data.len() == 0 {
        assert(c.drop_first() =~= Seq::<Seq<u8>>::empty());
        assert(c.drop_first().flatten() =~= Seq::<u8>::empty());
        assert(c.first() == seq![0u8, 0u8]);
        assert(c.flatten() =~= seq![0u8, 0u8]);
        lemma_zero_header(s, pos);
        assert(data =~= Seq::<u8>::empty());
    } else {
        let k: int = if data.len() < CHUNK_SIZE {
            data.len() as int
        } else {
            CHUNK_SIZE as int
        };
        let head = be16(k as u16) + data.take(k);
        let tail = chunks_of(data.skip(k));
        assert(c =~= seq![head] + tail);
        assert(c.drop_first() =~= tail);
        assert(c.flatten() == head + tail.flatten());
        assert(head + tail.flatten() =~= be16(k as u16) + (data.take(k) + tail.flatten()));
        lemma_bytes_at_split(s, pos, be16(k as u16), data.take(k) + tail.flatten());
        lemma_bytes_at_split(s, pos + 2, data.take(k), tail.flatten());
        lemma_be16(s, pos, k as u16);
        assert(be16_at(s, pos) as int == k);
        lemma_read_chunks(data.skip(k), s, pos + 2 + k);
        assert(s.subrange(pos + 2, pos + 2 + k) == data.take(k));
        assert(data.take(k) + data.skip(k) =~= data);
    }
}

/// Every chunk but the last carries between one and `CHUNK_SIZE` bytes after its
/// two-byte header; the last is the empty chunk.
pub proof fn law_chunk_sizes(data: Seq<u8>)
    ensures
        chunks_of(data).last() == seq![0u8, 0u8],
        forall|i: int|
            0 <= i < chunks_of(data).len() - 1 ==> 2 < (#[trigger] chunks_of(data)[i]).len()
                <= CHUNK_SIZE + 2,
    decreases data.len(),
{
    if data.len() > 0 {
        let k: int = if data.len() < CHUNK_SIZE {
            data.len() as int
        } else {
            CHUNK_SIZE as int
        };
        let head = be16(k as u16) + data.take(k);
        let tail = chunks_of(data.skip(k));
        law_chunk_sizes(data.skip(k));
        assert(chunks_of(data) =~= seq![head] + tail);
        assert forall|i: int| 0 <= i < chunks_of(data).len() - 1 implies 2 < (
        #[trigger] chunks_of(data)[i]).len() <= CHUNK_SIZE + 2 by {
            if i > 0 {
                assert(chunks_of(data)[i] == tail[i - 1]);
            }
        }
    }
}

/// The bytes are cut into as few chunks as possible: every chunk before the last one
/// carrying bytes is full, with `CHUNK_SIZE` bytes; each chunk starts with the number of
/// bytes it carries; and there is one chunk per started `CHUNK_SIZE` bytes, plus the
/// empty chunk.
pub proof fn law_full_chunks(data: Seq<u8>)
    ensures
        chunks_of(data).len() == (data.len() + CHUNK_SIZE - 1) / (CHUNK_SIZE as int) + 1,
        forall|i: int|
            0 <= i < chunks_of(data).len() - 2 ==> (#[trigger] chunks_of(data)[i]).len()
                == CHUNK_SIZE + 2,
        forall|i: int|
            0 <= i < chunks_of(data).len() ==> (#[trigger] chunks_of(data)[i]).len() >= 2
                && chunks_of(data)[i].subrange(0, 2) == be16((chunks_of(data)[i].len() - 2) as u16),
    decreases data.len(),
{
    if data.len() == 0 {
        assert(chunks_of(data)[0].subrange(0, 2) =~= seq![0u8, 0u8]);
        assert(be16(0u16) =~= seq![0u8, 0u8]) by {
            assert((0u16 >> 8u16) as u8 == 0u8 && 0u16 as u8 == 0u8) by (bit_vector);
        }
    } else {
        let k: int = if data.len() < CHUNK_SIZE {
            data.len() as int
        } else {
            CHUNK_SIZE as int
        };
        let head = be16(k as u16) + data.take(k);
        let tail = chunks_of(data.skip(k));
        law_full_chunks(data.skip(k));
        assert(chunks_of(data) =~= seq![head] + tail);
        assert(head.subrange(0, 2) =~= be16(k as u16));
        if data.len() < CHUNK_SIZE {
            assert(data.skip(k).len() == 0);
            assert(tail.len() == 1);
        }
        assert forall|i: int| 0 <= i < chunks_of(data).len() - 2 implies (
        #[trigger] chunks_of(data)[i]).len() == CHUNK_SIZE + 2 by {
            if i > 0 {
                assert(chunks_of(data)[i] == tail[i - 1]);
            }
        }
        assert forall|i: int| 0 <= i < chunks_of(data).len() implies (
        #[trigger] chunks_of(data)[i]).len() >= 2 && chunks_of(data)[i].subrange(0, 2) == be16(
            (chunks_of(data)[i].len() - 2) as u16,
        ) by {
            if i > 0 {
                assert(chunks_of(data)[i] == tail[i - 1]);
            }
        }
    }
}

/// Bytes framed as a single chunk and the empty chunk read back as themselves, when a
/// header can announce their number.
pub proof fn law_single_chunk_framing(data: Seq<u8>, rest: Seq<u8>)
    requires
        0 < data.len() <= u16::MAX,
    ensures
        dechunk(be16(data.len() as u16) + data + seq![0u8, 0u8] + rest) == Some(
            (data, data.len() + 4int),
        ),
{
    let n = data.len() as u16;
    let framed = be16(n) + data + seq![0u8, 0u8];
    let s = framed + rest;
    assert(s.subrange(0, framed.len() as int) =~= framed);
    assert(framed =~= be16(n) + (data + seq![0u8, 0u8]));
    lemma_bytes_at_split(s, 0, be16(n), data + seq![0u8, 0u8]);
    lemma_bytes_at_split(s, 2, data, seq![0u8, 0u8]);
    lemma_be16(s, 0, n);
    let len = data.len() as int;
    lemma_zero_header(s, 2 + len);
    assert(s.subrange(2, 2 + len) == data);
    assert(read_chunks(s, 2 + len) == Some((Seq::<u8>::empty(), 4 + len)));
    assert(data + Seq::<u8>::empty() =~= data);
}

/// Reading back a framed message gives its bytes, whatever follows the framing, and
/// takes exactly the framing.
pub proof fn law_dechunk_after_chunk(data: Seq<u8>, rest: Seq<u8>)
    requires
        data.len() > 0,
    ensures
        dechunk(chunks_of(data).flatten() + rest) == Some(
            (data, chunks_of(data).flatten().len() as int),
        ),
{
    let flat = chunks_of(data).flatten();
    let s = flat + rest;
    assert(s.subrange(0, flat.len() as int) =~= flat);
    lemma_read_chunks(data, s, 0);
    let k: int = if data.len() < CHUNK_SIZE {
        data.len() as int
    } else {
        CHUNK_SIZE as int
    };
    let head = be16(k as u16) + data.take(k);
    let tail = chunks_of(data.skip(k));
    assert(chunks_of(data) =~= seq![head] + tail);
    assert(chunks_of(data).drop_first() =~= tail);
    assert(flat == head + tail.flatten());
    assert(head + tail.flatten() =~= be16(k as u16) + (data.take(k) + tail.flatten()));
    lemma_bytes_at_split(s, 0, be16(k as u16), data.take(k) + tail.flatten());
    lemma_be16(s, 0, k as u16);
}


/// The contents of a sequence of buffers, buffer by buffer.
pub open spec fn buffers_view(v: Seq<Bytes>) -> Seq<Seq<u8>> {
    v.map_values(|b: Bytes| bytes_view(b))
}

/// The two bytes of a chunk header announcing `n` bytes.
fn header_bytes(n: u16) -> (v: Vec<u8>)
    ensures
        v@ == be16(n),
{
    let mut v: Vec<u8> = Vec::new();
    v.push((n >> 8u16) as u8);
    v.push(n as u8);
    assert(v@ =~= be16(n));
    v
}

/// One chunk: a header announcing the slice's length, then the slice.
fn frame_slice(slice: &[u8]) -> (chunk: Bytes)
    requires
        slice@.len() <= CHUNK_SIZE,
    ensures
        bytes_view(chunk) == be16(slice@.len() as u16) + slice@,
{
    let mut chunk = bytes_mut_new();
    let header = header_bytes(slice.len() as u16);
    bytes_mut_extend(&mut chunk, header.as_slice());
    bytes_mut_extend(&mut chunk, slice);
    bytes_mut_freeze(chunk)
}

impl Message {
    /// The chunks that carry this message: its encoding cut into chunks of at most
    /// `CHUNK_SIZE` bytes, each with its length in front, then the empty chunk.
    pub fn into_chunks(self) -> (res: Result<Vec<Bytes>, SerializationError>)
        ensures
            match res {
                Ok(chunks) => {
                    &&& first_oversize_seq(fields_of(self@)) is None
                    &&& buffers_view(chunks@) == chunks_of(ser_message(self@))
                },
                Err(SerializationError::ValueTooLarge(n)) => first_oversize_seq(
                    fields_of(self@),
                ) == Some(n as nat),
            },
    {
        let bytes = self.serialize()?;
        let s = bytes_as_slice(&bytes);
        let ghost data = s@;
        let mut result: Vec<Bytes> = Vec::new();
        let mut pos: usize = 0;
        assert(data.skip(0) =~= data);
        while pos < s.len()
            invariant
                s@ == data,
                pos <= s.len(),
                buffers_view(result@) + chunks_of(data.skip(pos as int)) == chunks_of(data),
            decreases s.len() - pos,
        {
            let k: usize = if s.len() - pos < CHUNK_SIZE {
                s.len() - pos
            } else {
                CHUNK_SIZE
            };
            let piece = vstd::slice::slice_subrange(s, pos, pos + k);
            let chunk = frame_slice(piece);
            let ghost rest = data.skip(pos as int);
            proof {
                assert(rest.take(k as int) =~= piece@);
                assert(rest.skip(k as int) =~= data.skip(pos + k));
                assert(chunks_of(rest) =~= seq![bytes_view(chunk)] + chunks_of(
                    data.skip(pos + k),
                ));
                assert(buffers_view(result@.push(chunk)) =~= buffers_view(result@).push(
                    bytes_view(chunk),
                ));
            }
            result.push(chunk);
            pos = pos + k;
        }
        let end = bytes_from_vec(header_bytes(0));
        proof {
            assert(data.skip(pos as int) =~= Seq::<u8>::empty());
            assert(be16(0) =~= seq![0u8, 0u8]) by {
                assert((0u16 >> 8u16) as u8 == 0u8 && 0u16 as u8 == 0u8) by (bit_vector);
            }
            assert(buffers_view(result@.push(end)) =~= buffers_view(result@).push(
                bytes_view(end),
            ));
        }
        result.push(end);
        Ok(result)
    }
}

/// A chunk of a message: at most `u16::MAX` bytes, with their number.
#[derive(Debug)]
pub struct Chunk {
    size: u16,
    data: Bytes,
}

impl Chunk {
    #[verifier::type_invariant]
    spec fn size_matches(self) -> bool {
        self.size as int == bytes_view(self.data).len()
    }

    /// The bytes of this chunk.
    pub closed spec fn data_view(self) -> Seq<u8> {
        bytes_view(self.data)
    }

    /// A chunk of the given bytes, or the error giving their number where a header
    /// cannot announce it.
    pub fn try_from_bytes(bytes: Bytes) -> (res: Result<Chunk, SerializationError>)
        ensures
            match res {
                Ok(chunk) => bytes_view(bytes).len() <= u16::MAX && chunk.data_view()
                    == bytes_view(bytes),
                Err(SerializationError::ValueTooLarge(n)) => bytes_view(bytes).len() > u16::MAX
                    && n == bytes_view(bytes).len(),
            },
    {
        let n = bytes_as_slice(&bytes).len();
        if n > 0xFFFF {
            Err(SerializationError::ValueTooLarge(n))
        } else {
            Ok(Chunk { size: n as u16, data: bytes })
        }
    }

    /// The chunk on the wire: its length, then its bytes.
    pub fn into_bytes(self) -> (res: Bytes)
        ensures
            bytes_view(res) == be16(self.data_view().len() as u16) + self.data_view(),
    {
        proof {
            use_type_invariant(&self);
        }
        let mut out = bytes_mut_new();
        let header = header_bytes(self.size);
        bytes_mut_extend(&mut out, header.as_slice());
        bytes_mut_extend(&mut out, bytes_as_slice(&self.data));
        bytes_mut_freeze(out)
    }
}

/// The bytes of one message, joined from its chunks.
#[derive(Debug)]
pub struct MessageBytes {
    bytes: BytesMut,
}

impl View for MessageBytes {
    type V = Seq<u8>;

    closed spec fn view(&self) -> Seq<u8> {
        bytes_mut_view(self.bytes)
    }
}

impl MessageBytes {
    pub fn new() -> (m: MessageBytes)
        ensures
            m@ == Seq::<u8>::empty(),
    {
        MessageBytes { bytes: bytes_mut_new() }
    }

    pub fn len(&self) -> (n: usize)
        ensures
            n == self@.len(),
    {
        bytes_mut_len(&self.bytes)
    }

    /// The joined bytes.
    pub fn bytes(&self) -> (s: &[u8])
        ensures
            s@ == self@,
    {
        bytes_mut_as_slice(&self.bytes)
    }

    /// Takes the first `at` bytes out.
    pub fn split_to(&mut self, at: usize) -> (front: Bytes)
        requires
            at <= old(self)@.len(),
        ensures
            bytes_view(front) == old(self)@.take(at as int),
            final(self)@ == old(self)@.skip(at as int),
    {
        bytes_mut_freeze(bytes_mut_split_to(&mut self.bytes, at))
    }

    /// Appends the bytes of a chunk.
    pub fn add_chunk(&mut self, chunk: Chunk)
        requires
            old(self)@.len() + chunk.data_view().len() <= isize::MAX,
        ensures
            final(self)@ == old(self)@ + chunk.data_view(),
    {
        bytes_mut_extend(&mut self.bytes, bytes_as_slice(&chunk.data));
    }

    /// The bytes framed as a single chunk followed by the empty chunk, or the error
    /// when there are more bytes than a chunk header can announce.
    pub fn try_into_bytes(self) -> (res: Result<Bytes, SerializationError>)
        requires
            self@.len() + 4 <= isize::MAX,
        ensures
            self@.len() <= 0xFFFF ==> (res matches Ok(b) && bytes_view(b) == be16(
                self@.len() as u16,
            ) + self@ + seq![0u8, 0u8]),
            self@.len() > 0xFFFF ==> res == Err::<Bytes, SerializationError>(
                SerializationError::ValueTooLarge(self@.len() as usize),
            ),
    {
        let n = bytes_mut_len(&self.bytes);
        if n > 0xFFFF {
            return Err(SerializationError::ValueTooLarge(n));
        }
        let mut out = bytes_mut_new();
        let header = header_bytes(n as u16);
        bytes_mut_extend(&mut out, header.as_slice());
        bytes_mut_extend(&mut out, bytes_mut_as_slice(&self.bytes));
        let end = header_bytes(0);
        assert(be16(0) =~= seq![0u8, 0u8]) by {
            assert((0u16 >> 8u16) as u8 == 0u8 && 0u16 as u8 == 0u8) by (bit_vector);
        }
        bytes_mut_extend(&mut out, end.as_slice());
        Ok(bytes_mut_freeze(out))
    }
}

/// The big-endian `u16` at `p`.
fn read_header(s: &[u8], p: usize) -> (x: u16)
    requires
        p + 2 <= s.len(),
    ensures
        x == be16_at(s@, p as int),
{
    (s[p] as u16) << 8u16 | s[p + 1] as u16
}

/// Reads the message framed at the start of `s`: its joined bytes and the number of
/// bytes of framing read, or `None` where `s` ends before the empty chunk that ends
/// the message. Empty chunks before the message are skipped.
pub fn dechunk_bytes(s: &[u8]) -> (res: Option<(Vec<u8>, usize)>)
    ensures
        match dechunk(s@) {
            Some((data, end)) => res matches Some((v, n)) && v@ == data && n == end,
            None => res is None,
        },
{
    let mut pos: usize = 0;
    loop
        invariant
            pos <= s.len(),
            skip_noops(s@, 0) == skip_noops(s@, pos as int),
        ensures
            pos + 2 <= s.len(),
            be16_at(s@, pos as int) != 0,
            skip_noops(s@, 0) == skip_noops(s@, pos as int),
        decreases s.len() - pos,
    {
        if s.len() - pos < 2 {
            return None;
        }
        if read_header(s, pos) != 0 {
            break;
        }
        pos = pos + 2;
    }
    let start = pos;
    let mut acc: Vec<u8> = Vec::new();
    proof {
        match read_chunks(s@, pos as int) {
            Some((rest, end)) => {
                assert(acc@ + rest =~= rest);
            },
            None => {},
        }
    }
    loop
        invariant
            start <= pos <= s.len(),
            skip_noops(s@, 0) == read_chunks(s@, start as int),
            read_chunks(s@, start as int) == match read_chunks(s@, pos as int) {
                Some((rest, end)) => Some((acc@ + rest, end)),
                None => None,
            },
        decreases s.len() - pos,
    {
        if s.len() - pos < 2 {
            return None;
        }
        let n = read_header(s, pos) as usize;
        if n == 0 {
            assert(acc@ + Seq::<u8>::empty() =~= acc@);
            return Some((acc, pos + 2));
        }
        if s.len() - pos - 2 < n {
            return None;
        }
        let piece = vstd::slice::slice_subrange(s, pos + 2, pos + 2 + n);
        let ghost before = acc@;
        acc.extend_from_slice(piece);
        proof {
            assert(acc@ =~= before + s@.subrange(pos + 2, pos + 2 + n));
            match read_chunks(s@, pos + 2 + n) {
                Some((rest, end)) => {
                    assert(before + (s@.subrange(pos + 2, pos + 2 + n) + rest) =~= acc@ + rest);
                },
                None => {},
            }
        }
        pos = pos + 2 + n;
    }
}

/// How far a reader of framed bytes has got: the number of further bytes it needs
/// before it can go on, or the length of the framing of the complete message.
#[derive(Debug, Clone, Copy, PartialEq, Eq, Structural)]
pub enum FrameNeed {
    More(usize),
    Complete(usize),
}

/// The need of a reader inside a message, at the chunk header at `pos`.
pub open spec fn need_chunks(s: Seq<u8>, pos: int) -> (bool, int)
    decreases s.len() - pos,
{
    if pos < 0 {
        (false, 0)
    } else if pos + 2 > s.len() {
        (false, pos + 2 - s.len())
    } else {
        let n = be16_at(s, pos) as int;
        if n == 0 {
            (true, pos + 2)
        } else if pos + 2 + n > s.len() {
            (false, pos + 2 + n - s.len())
        } else {
            need_chunks(s, pos + 2 + n)
        }
    }
}

/// The need of a reader before a message, at the chunk header at `pos`: empty chunks
/// are skipped.
pub open spec fn need_skip(s: Seq<u8>, pos: int) -> (bool, int)
    decreases s.len() - pos,
{
    if pos < 0 {
        (false, 0)
    } else if pos + 2 > s.len() {
        (false, pos + 2 - s.len())
    } else if be16_at(s, pos) == 0 {
        need_skip(s, pos + 2)
    } else {
        need_chunks(s, pos)
    }
}

/// Whether `need` says what `need_skip` says of `s`.
pub open spec fn need_matches(need: FrameNeed, s: Seq<u8>) -> bool {
    match need {
        FrameNeed::More(k) => !need_skip(s, 0).0 && need_skip(s, 0).1 == k as int,
        FrameNeed::Complete(e) => need_skip(s, 0).0 && need_skip(s, 0).1 == e as int,
    }
}

/// How many more bytes a reader of the framed message at the start of `s` needs, or,
/// once `s` holds the whole framing, its length.
pub fn frame_need(s: &[u8]) -> (need: FrameNeed)
    ensures
        need_matches(need, s@),
{
    let mut pos: usize = 0;
    loop
        invariant
            pos <= s.len(),
            need_skip(s@, 0) == need_skip(s@, pos as int),
        ensures
            pos + 2 <= s.len(),
            be16_at(s@, pos as int) != 0,
            need_skip(s@, 0) == need_skip(s@, pos as int),
        decreases s.len() - pos,
    {
        if s.len() - pos < 2 {
            return FrameNeed::More(2 - (s.len() - pos));
        }
        if read_header(s, pos) != 0 {
            break;
        }
        pos = pos + 2;
    }
    loop
        invariant
            pos <= s.len(),
            need_skip(s@, 0) == need_chunks(s@, pos as int),
        decreases s.len() - pos,
    {
        if s.len() - pos < 2 {
            return FrameNeed::More(2 - (s.len() - pos));
        }
        let n = read_header(s, pos) as usize;
        if n == 0 {
            return FrameNeed::Complete(pos + 2);
        }
        if s.len() - pos - 2 < n {
            return FrameNeed::More(n - (s.len() - pos - 2));
        }
        pos = pos + 2 + n;
    }
}

/// Inside a message, the reader's need is complete exactly where the chunks of the
/// message can be read, and at the same place.
proof fn lemma_need_chunks(s: Seq<u8>, pos: int)
    requires
        0 <= pos,
    ensures
        need_chunks(s, pos).0 <==> read_chunks(s, pos) is Some,
        read_chunks(s, pos) matches Some((_, end)) ==> need_chunks(s, pos).1 == end,
        !need_chunks(s, pos).0 ==> need_chunks(s, pos).1 > 0,
    decreases s.len() - pos,
{
    if pos + 2 <= s.len() {
        let n = be16_at(s, pos) as int;
        if n != 0 && pos + 2 + n <= s.len() {
            lemma_need_chunks(s, pos + 2 + n);
        }
    }
}

/// Before a message, likewise.
proof fn lemma_need_skip(s: Seq<u8>, pos: int)
    requires
        0 <= pos,
    ensures
        need_skip(s, pos).0 <==> skip_noops(s, pos) is Some,
        skip_noops(s, pos) matches Some((_, end)) ==> need_skip(s, pos).1 == end,
        !need_skip(s, pos).0 ==> need_skip(s, pos).1 > 0,
    decreases s.len() - pos,
{
    if pos + 2 <= s.len() {
        if be16_at(s, pos) == 0 {
            lemma_need_skip(s, pos + 2);
        } else {
            lemma_need_chunks(s, pos);
        }
    }
}

/// A reader's need is complete exactly when the bytes hold a whole framed message, and
/// then it gives the length of the framing; otherwise at least one more byte is
/// needed.
pub proof fn law_frame_need(s: Seq<u8>, need: FrameNeed)
    requires
        need_matches(need, s),
    ensures
        need is Complete <==> dechunk(s) is Some,
        dechunk(s) matches Some((_, end)) ==> need == FrameNeed::Complete(end as usize),
        need matches FrameNeed::More(k) ==> k > 0,
{
    lemma_need_skip(s, 0);
    match dechunk(s) {
        Some((_, end)) => {
            assert(need_skip(s, 0).1 == end);
        },
        None => {},
    }
}

/// A framed message read back and decoded gives the message, whatever follows the
/// framing.
pub proof fn law_framed_message_round_trip(m: MessageModel, rest: Seq<u8>)
    requires
        message_well_formed(m),
        first_oversize_seq(fields_of(m)) is None,
    ensures
        dechunk(chunks_of(ser_message(m)).flatten() + rest) matches Some((data, _))
            && parse_message(data) == Ok::<(MessageModel, int), DecodeError>(
            (m, data.len() as int),
        ),
{
    let data = ser_message(m);
    law_message_decode_after_encode(m, Seq::empty());
    assert(data + Seq::<u8>::empty() =~= data);
    assert(data.len() > 0);
    law_dechunk_after_chunk(data, rest);
}

} // verus!
