use vstd::prelude::*;
use vstd::utf8::{decode_utf8, valid_utf8};

use crate::chunk_type::{valid_type_bytes, ChunkType};
use crate::crc::{crc32, crc_update, lemma_crc32_one_byte, lemma_crc_fold_append};
use crate::endian::{be_u32, lemma_be_u32_of_u32_be, push_u32_be, read_u32_be, u32_be};
use crate::error::Error;
use crate::text::utf8_text;

verus! {

/// What a chunk holds: its type, its payload and its stored checksum.
pub ghost struct ChunkView {
    pub kind: Seq<u8>,
    pub data: Seq<u8>,
    pub crc: u32,
}

/// A well-formed chunk: a legal type, a payload whose length fits in 32 bits,
/// and the CRC-32 of type and payload as its checksum.
pub open spec fn valid_chunk(c: ChunkView) -> bool {
    &&& valid_type_bytes(c.kind)
    &&& c.data.len() <= u32::MAX
    &&& c.crc == crc32(c.kind + c.data)
}

/// The encoding of a chunk: length, type, payload, checksum.
pub open spec fn chunk_bytes(c: ChunkView) -> Seq<u8> {
    u32_be(c.data.len() as u32) + c.kind + c.data + u32_be(c.crc)
}

/// The number of bytes that the chunk at the start of `b` declares it spans.
pub open spec fn declared_span(b: Seq<u8>) -> int
    recommends
        b.len() >= 4,
{
    be_u32(b.subrange(0, 4)) as int + 12
}

/// Reading the fields of a chunk whose declared span lies within `b`: a
/// legal type and a matching checksum are required.
#[verifier::opaque]
pub open spec fn chunk_fields(b: Seq<u8>) -> Result<ChunkView, Error>
    recommends
        b.len() >= 4,
        b.len() >= declared_span(b),
{
    let n = declared_span(b) - 12;
    let kind = b.subrange(4, 8);
    let data = b.subrange(8, 8 + n);
    let crc = be_u32(b.subrange(8 + n, 12 + n));
    if !valid_type_bytes(kind) {
        Err(Error::InvalidChunkType)
    } else if crc != crc32(kind + data) {
        Err(Error::CrcMismatch)
    } else {
        Ok(ChunkView { kind, data, crc })
    }
}

/// Reading one chunk from the start of `b`; bytes after it are left alone.
/// Input that ends before the declared span is truncated.
pub open spec fn parse_chunk(b: Seq<u8>) -> Result<ChunkView, Error> {
    if b.len() < 4 || b.len() < declared_span(b) {
        Err(Error::UnexpectedEof)
    } else {
        chunk_fields(b)
    }
}

/// The chunk of this type and payload, with its checksum.
pub open spec fn new_chunk(kind: Seq<u8>, data: Seq<u8>) -> ChunkView {
    ChunkView { kind, data, crc: crc32(kind + data) }
}

/// Whatever parsing yields is well formed and spans what it declares.
pub proof fn lemma_parsed_chunk_valid(b: Seq<u8>)
    ensures
        parse_chunk(b) matches Ok(c) ==> valid_chunk(c) && declared_span(b) == c.data.len() + 12
            && declared_span(b) <= b.len(),
{
    reveal(chunk_fields);
}

/// A well-formed chunk is read back from its encoding, whatever follows it.
pub proof fn lemma_parse_chunk_bytes(c: ChunkView, rest: Seq<u8>)
    requires
        valid_chunk(c),
    ensures
        parse_chunk(chunk_bytes(c) + rest) == Ok::<ChunkView, Error>(c),
        declared_span(chunk_bytes(c) + rest) == c.data.len() + 12,
{
    reveal(chunk_fields);
    let n = c.data.len() as u32;
    let b = chunk_bytes(c) + rest;
    assert(b.subrange(0, 4) =~= u32_be(n));
    lemma_be_u32_of_u32_be(n);
    assert(declared_span(b) == n + 12);
    assert(b.subrange(4, 8) =~= c.kind);
    assert(b.subrange(8, 8 + n) =~= c.data);
    assert(b.subrange(8 + n, 12 + n) =~= u32_be(c.crc));
    lemma_be_u32_of_u32_be(c.crc);
}

/// Round trip: parsing the encoding of a well-formed chunk gives the chunk.
pub proof fn lemma_chunk_round_trip(c: ChunkView)
    requires
        valid_chunk(c),
    ensures
        parse_chunk(chunk_bytes(c)) == Ok::<ChunkView, Error>(c),
{
    lemma_parse_chunk_bytes(c, Seq::empty());
    assert(chunk_bytes(c) + Seq::<u8>::empty() =~= chunk_bytes(c));
}

/// Flipping any one bit of a well-formed chunk's payload in its encoding
/// makes parsing fail with a checksum mismatch.
pub proof fn lemma_payload_bit_flip_detected(c: ChunkView, i: int, bit: u8)
    requires
        valid_chunk(c),
        0 <= i < c.data.len(),
        bit < 8,
    ensures
        ({
            let b = chunk_bytes(c);
            let flipped = b.update(8 + i, b[8 + i] ^ (1u8 << bit));
            parse_chunk(flipped) == Err::<ChunkView, Error>(Error::CrcMismatch)
        }),
{
    reveal(chunk_fields);
    let b = chunk_bytes(c);
    let x = b[8 + i];
    let y = x ^ (1u8 << bit);
    assert(y != x) by (bit_vector)
        requires
            y == x ^ (1u8 << bit),
            bit < 8,
    ;
    let flipped = b.update(8 + i, y);
    let n = c.data.len() as u32;
    let data2 = c.data.update(i, y);
    assert(flipped =~= u32_be(n) + c.kind + data2 + u32_be(c.crc));
    assert(flipped.subrange(0, 4) =~= u32_be(n));
    lemma_be_u32_of_u32_be(n);
    assert(flipped.subrange(4, 8) =~= c.kind);
    assert(flipped.subrange(8, 8 + n) =~= data2);
    assert(flipped.subrange(8 + n, 12 + n) =~= u32_be(c.crc));
    lemma_be_u32_of_u32_be(c.crc);
    let s1 = c.kind + c.data;
    let s2 = c.kind + data2;
    assert forall|k: int| 0 <= k < s1.len() && k != 4 + i implies s1[k] == s2[k] by {
        if k >= 4 {
            assert(s1[k] == c.data[k - 4]);
            assert(s2[k] == data2[k - 4]);
        }
    }
    assert(s1[4 + i] == c.data[i] && s2[4 + i] == y);
    lemma_crc32_one_byte(s1, s2, 4 + i);
}

/// A chunk whose declared length needs more bytes than there are is
/// refused as truncated, whatever else the bytes hold.
pub proof fn lemma_truncated_chunk(b: Seq<u8>)
    requires
        b.len() >= 4,
        be_u32(b.subrange(0, 4)) as int + 12 > b.len(),
    ensures
        parse_chunk(b) == Err::<ChunkView, Error>(Error::UnexpectedEof),
{
}

/// One record of a PNG file. Its length and checksum always agree with its
/// type and payload.
pub struct Chunk {
    chunk_type: ChunkType,
    data: Vec<u8>,
    crc: u32,
}

impl View for Chunk {
    type V = ChunkView;

    closed spec fn view(&self) -> ChunkView {
        ChunkView { kind: self.chunk_type@, data: self.data@, crc: self.crc }
    }
}

/// The CRC-32 of a chunk type followed by a payload.
fn checksum(chunk_type: &ChunkType, data: &[u8]) -> (r: u32)
    ensures
        r == crc32(chunk_type@ + data@),
{
    let kind = chunk_type.bytes();
    let c = crc_update(0xFFFF_FFFF, kind.as_slice());
    let c = crc_update(c, data);
    proof {
        lemma_crc_fold_append(0xFFFF_FFFF, chunk_type@, data@);
    }
    c ^ 0xFFFF_FFFF
}

impl Chunk {
    /// Length, type and checksum agree.
    pub open spec fn wf(&self) -> bool {
        valid_chunk(self@)
    }

    /// A chunk of this type with this payload; its checksum is computed.
    pub fn new(chunk_type: ChunkType, data: Vec<u8>) -> (r: Chunk)
        requires
            chunk_type.wf(),
            data@.len() <= u32::MAX,
        ensures
            r@ == new_chunk(chunk_type@, data@),
            r.wf(),
    {
        let crc = checksum(&chunk_type, data.as_slice());
        Chunk { chunk_type, data, crc }
    }

    /// The payload's length in bytes.
    pub fn length(&self) -> (r: u32)
        requires
            self.wf(),
        ensures
            r == self@.data.len(),
    {
        self.data.len() as u32
    }

    /// The chunk's type.
    pub fn chunk_type(&self) -> (r: ChunkType)
        ensures
            r@ == self@.kind,
    {
        self.chunk_type
    }

    /// The payload.
    pub fn data(&self) -> (r: &[u8])
        ensures
            r@ == self@.data,
    {
        self.data.as_slice()
    }

    /// The stored checksum.
    pub fn crc(&self) -> (r: u32)
        ensures
            r == self@.crc,
    {
        self.crc
    }

    /// The payload read as UTF-8 text.
    pub fn data_as_string(&self) -> (r: Result<String, Error>)
        ensures
            r is Ok <==> valid_utf8(self@.data),
            r matches Ok(s) ==> s@ == decode_utf8(self@.data),
            r matches Err(e) ==> e == Error::InvalidUtf8,
    {
        match utf8_text(self.data.as_slice()) {
            Some(s) => Ok(s),
            None => Err(Error::InvalidUtf8),
        }
    }

    /// Reads one chunk from `bytes`, starting at `start`.
    pub(crate) fn parse_at(bytes: &[u8], start: usize) -> (r: Result<Chunk, Error>)
        requires
            start <= bytes@.len(),
        ensures
            match r {
                Ok(c) => parse_chunk(bytes@.skip(start as int)) == Ok::<ChunkView, Error>(c@)
                    && c.wf() && declared_span(bytes@.skip(start as int)) == c@.data.len() + 12,
                Err(e) => parse_chunk(bytes@.skip(start as int)) == Err::<ChunkView, Error>(e),
            },
    {
        let ghost b = bytes@.skip(start as int);
        let total = bytes.len();
        let rest = total - start;
        if rest < 4 {
            return Err(Error::UnexpectedEof);
        }
        let n = read_u32_be(bytes, start);
        proof {
            assert(b.subrange(0, 4) =~= bytes@.subrange(start as int, start + 4));
        }
        if rest < 12 || rest - 12 < n as usize {
            return Err(Error::UnexpectedEof);
        }
        let len = n as usize;
        let kind: [u8; 4] = [bytes[start + 4], bytes[start + 5], bytes[start + 6], bytes[start + 7]];
        proof {
            broadcast use vstd::array::group_array_axioms;
            assert(kind@ =~= b.subrange(4, 8));
        }
        let chunk_type = match ChunkType::from_bytes(kind) {
            Ok(t) => t,
            Err(e) => {
                proof {
                    reveal(chunk_fields);
                }
                return Err(e);
            },
        };
        let mut data: Vec<u8> = Vec::new();
        let mut i: usize = 0;
        while i < len
            invariant
                i <= len,
                total == bytes@.len(),
                start + 12 + len <= total,
                b == bytes@.skip(start as int),
                data@ == b.subrange(8, 8 + i),
            decreases len - i,
        {
            data.push(bytes[start + 8 + i]);
            i = i + 1;
            proof {
                assert(data@ =~= b.subrange(8, 8 + i));
            }
        }
        let crc = read_u32_be(bytes, start + 8 + len);
        proof {
            assert(b.subrange(8 + len, 12 + len) =~= bytes@.subrange(
                start + 8 + len,
                start + 12 + len,
            ));
        }
        let matches = crc == checksum(&chunk_type, data.as_slice());
        proof {
            reveal(chunk_fields);
        }
        if !matches {
            return Err(Error::CrcMismatch);
        }
        Ok(Chunk { chunk_type, data, crc })
    }

    /// Reads one chunk from the start of `bytes`: a big-endian length, the
    /// type, that many payload bytes and a big-endian checksum. Bytes after
    /// the chunk are ignored.
    pub fn parse(bytes: &[u8]) -> (r: Result<Chunk, Error>)
        ensures
            match r {
                Ok(c) => parse_chunk(bytes@) == Ok::<ChunkView, Error>(c@) && c.wf(),
                Err(e) => parse_chunk(bytes@) == Err::<ChunkView, Error>(e),
            },
    {
        proof {
            assert(bytes@.skip(0) =~= bytes@);
        }
        Chunk::parse_at(bytes, 0)
    }

    /// Appends the chunk's encoding to `out`.
    pub fn write_to(&self, out: &mut Vec<u8>)
        requires
            self.wf(),
        ensures
            final(out)@ == old(out)@ + chunk_bytes(self@),
    {
        push_u32_be(out, self.data.len() as u32);
        let kind = self.chunk_type.bytes();
        out.push(kind[0]);
        out.push(kind[1]);
        out.push(kind[2]);
        out.push(kind[3]);
        let ghost mid = out@;
        let mut i: usize = 0;
        while i < self.data.len()
            invariant
                i <= self.data@.len(),
                out@ == mid + self.data@.subrange(0, i as int),
            decreases self.data@.len() - i,
        {
            out.push(self.data[i]);
            i = i + 1;
            proof {
                assert(out@ =~= mid + self.data@.subrange(0, i as int));
            }
        }
        push_u32_be(out, self.crc);
        proof {
            broadcast use vstd::array::group_array_axioms;
            assert(self.data@.subrange(0, self.data@.len() as int) =~= self.data@);
            assert(final(out)@ =~= old(out)@ + chunk_bytes(self@));
        }
    }

    /// The chunk's encoding: length, type, payload and checksum.
    pub fn as_bytes(&self) -> (r: Vec<u8>)
        requires
            self.wf(),
        ensures
            r@ == chunk_bytes(self@),
    {
        let mut out: Vec<u8> = Vec::new();
        self.write_to(&mut out);
        proof {
            assert(out@ =~= chunk_bytes(self@));
        }
        out
    }
}

} // verus!
