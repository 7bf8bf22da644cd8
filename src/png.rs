use vstd::prelude::*;

use crate::chunk::{chunk_bytes, declared_span, lemma_parse_chunk_bytes, parse_chunk, valid_chunk, Chunk, ChunkView};
use crate::chunk_type::ChunkType;
use crate::error::Error;

verus! {

/// Why a byte buffer could not be read as a PNG file: the kind of failure,
/// and for a failure inside a chunk, that chunk's position (counting from 0).
#[derive(Debug, Clone, Copy, PartialEq, Eq, Structural)]
pub struct PngError {
    pub error: Error,
    pub chunk_index: Option<usize>,
}

/// The eight bytes every PNG file starts with.
pub open spec fn signature() -> Seq<u8> {
    seq![137u8, 80, 78, 71, 13, 10, 26, 10]
}

/// The encodings of the chunks, one after another.
pub open spec fn chunks_bytes(s: Seq<ChunkView>) -> Seq<u8>
    decreases s.len(),
{
    if s.len() == 0 {
        Seq::empty()
    } else {
        chunk_bytes(s[0]) + chunks_bytes(s.skip(1))
    }
}

/// The encoding of a file holding these chunks.
pub open spec fn png_bytes(s: Seq<ChunkView>) -> Seq<u8> {
    signature() + chunks_bytes(s)
}

/// Every chunk of the sequence is well formed.
pub open spec fn all_valid(s: Seq<ChunkView>) -> bool {
    forall|i: int| 0 <= i < s.len() ==> #[trigger] valid_chunk(s[i])
}

/// `prefix` put before the chunks of a successful read; a failure as it is.
pub open spec fn prepend(prefix: Seq<ChunkView>, r: Result<Seq<ChunkView>, PngError>) -> Result<
    Seq<ChunkView>,
    PngError,
> {
    match r {
        Ok(rest) => Ok(prefix + rest),
        Err(e) => Err(e),
    }
}

/// Reading chunks one after another until `b` is used up; `index` is the
/// position of the first of them in the file.
pub open spec fn parse_chunks(b: Seq<u8>, index: nat) -> Result<Seq<ChunkView>, PngError>
    decreases b.len(),
{
    if b.len() == 0 {
        Ok(Seq::empty())
    } else {
        match parse_chunk(b) {
            Err(e) => Err(PngError { error: e, chunk_index: Some(index as usize) }),
            Ok(c) => prepend(seq![c], parse_chunks(b.skip(declared_span(b)), index + 1)),
        }
    }
}

/// Reading a whole file: the signature, then chunks to the end.
pub open spec fn parse_png(b: Seq<u8>) -> Result<Seq<ChunkView>, PngError> {
    if b.len() < 8 || b.subrange(0, 8) != signature() {
        Err(PngError { error: Error::BadSignature, chunk_index: None })
    } else {
        parse_chunks(b.skip(8), 0)
    }
}

/// The chunk at `i` is the first one of type `k`.
pub open spec fn is_first_of_kind(s: Seq<ChunkView>, k: Seq<u8>, i: int) -> bool {
    &&& 0 <= i < s.len()
    &&& s[i].kind == k
    &&& forall|j: int| 0 <= j < i ==> s[j].kind != k
}

/// Some chunk has type `k`.
pub open spec fn has_kind(s: Seq<ChunkView>, k: Seq<u8>) -> bool {
    exists|i: int| 0 <= i < s.len() && s[i].kind == k
}

/// The position of the first chunk of type `k`.
pub open spec fn first_of_kind(s: Seq<ChunkView>, k: Seq<u8>) -> int
    recommends
        has_kind(s, k),
{
    choose|i: int| is_first_of_kind(s, k, i)
}

/// Only one position holds the first chunk of a type.
pub proof fn lemma_first_of_kind_unique(s: Seq<ChunkView>, k: Seq<u8>, i: int)
    requires
        is_first_of_kind(s, k, i),
    ensures
        first_of_kind(s, k) == i,
{
    let j = first_of_kind(s, k);
    assert(is_first_of_kind(s, k, j));
    if j < i {
        assert(s[j].kind != k);
    } else if i < j {
        assert(s[i].kind != k);
    }
}

/// Whatever reading chunks yields is well formed.
pub proof fn lemma_parsed_chunks_valid(b: Seq<u8>, index: nat)
    ensures
        parse_chunks(b, index) matches Ok(v) ==> all_valid(v),
    decreases b.len(),
{
    if b.len() > 0 {
        crate::chunk::lemma_parsed_chunk_valid(b);
        if let Ok(c) = parse_chunk(b) {
            lemma_parsed_chunks_valid(b.skip(declared_span(b)), index + 1);
            if let Ok(rest) = parse_chunks(b.skip(declared_span(b)), index + 1) {
                let v = seq![c] + rest;
                assert forall|i: int| 0 <= i < v.len() implies #[trigger] valid_chunk(v[i]) by {
                    if i > 0 {
                        assert(v[i] == rest[i - 1]);
                    }
                }
            }
        }
    }
}

/// Whatever reading a file yields is well formed.
pub proof fn lemma_parsed_png_valid(b: Seq<u8>)
    ensures
        parse_png(b) matches Ok(v) ==> all_valid(v),
{
    lemma_parsed_chunks_valid(b.skip(8), 0);
}

/// Appending a chunk of a type that no chunk has, then removing the first
/// chunk of that type, gives back the chunks that were there before (and so
/// the same file encoding).
pub proof fn lemma_append_then_remove(v: Seq<ChunkView>, c: ChunkView)
    requires
        !has_kind(v, c.kind),
    ensures
        has_kind(v.push(c), c.kind),
        first_of_kind(v.push(c), c.kind) == v.len(),
        forall|i: int| #[trigger] is_first_of_kind(v.push(c), c.kind, i) ==> i == v.len(),
        v.push(c).remove(v.len() as int) == v,
        png_bytes(v.push(c).remove(v.len() as int)) == png_bytes(v),
{
    let w = v.push(c);
    assert(w[v.len() as int] == c);
    assert forall|j: int| 0 <= j < v.len() implies w[j].kind != c.kind by {
        assert(w[j] == v[j]);
    }
    assert(is_first_of_kind(w, c.kind, v.len() as int));
    lemma_first_of_kind_unique(w, c.kind, v.len() as int);
    assert forall|i: int| #[trigger] is_first_of_kind(w, c.kind, i) implies i == v.len() by {
        if i < v.len() {
            assert(w[i] == v[i]);
        }
    }
    assert(w.remove(v.len() as int) =~= v);
}

/// Encoding a sequence with one more chunk appends that chunk's encoding.
pub proof fn lemma_chunks_bytes_push(s: Seq<ChunkView>, c: ChunkView)
    ensures
        chunks_bytes(s.push(c)) == chunks_bytes(s) + chunk_bytes(c),
    decreases s.len(),
{
    if s.len() == 0 {
        assert(s.push(c).skip(1) =~= Seq::<ChunkView>::empty());
        assert(chunks_bytes(Seq::<ChunkView>::empty()) == Seq::<u8>::empty());
        assert(s.push(c)[0] == c);
        assert(chunks_bytes(s) == Seq::<u8>::empty());
        assert(chunks_bytes(s.push(c)) =~= chunk_bytes(c));
    } else {
        assert(s.push(c).skip(1) =~= s.skip(1).push(c));
        lemma_chunks_bytes_push(s.skip(1), c);
        assert(chunks_bytes(s.push(c)) =~= chunks_bytes(s) + chunk_bytes(c));
    }
}

/// Reading bytes that start with the encoding of a well-formed chunk: that
/// chunk, then what the bytes after it read as.
proof fn lemma_parse_chunks_first(c: ChunkView, rest: Seq<u8>, index: nat)
    requires
        valid_chunk(c),
    ensures
        parse_chunks(chunk_bytes(c) + rest, index) == prepend(
            seq![c],
            parse_chunks(rest, index + 1),
        ),
{
    let b = chunk_bytes(c) + rest;
    lemma_parse_chunk_bytes(c, rest);
    lemma_parse_chunks_step(b, index, c);
    assert(b.skip(c.data.len() as int + 12) =~= rest);
}

/// Well-formed chunks are read back from their encodings.
pub proof fn lemma_parse_chunks_bytes(s: Seq<ChunkView>, index: nat)
    requires
        all_valid(s),
    ensures
        parse_chunks(chunks_bytes(s), index) == Ok::<Seq<ChunkView>, PngError>(s),
    decreases s.len(),
{
    if s.len() > 0 {
        let tail = s.skip(1);
        assert(valid_chunk(s[0]));
        assert(chunks_bytes(s) == chunk_bytes(s[0]) + chunks_bytes(tail));
        lemma_parse_chunks_first(s[0], chunks_bytes(tail), index);
        assert(all_valid(tail)) by {
            assert forall|i: int| 0 <= i < tail.len() implies #[trigger] valid_chunk(tail[i]) by {
                assert(tail[i] == s[i + 1]);
            }
        }
        lemma_parse_chunks_bytes(tail, index + 1);
        assert(seq![s[0]] + tail =~= s);
    } else {
        assert(chunks_bytes(s) =~= Seq::<u8>::empty());
        assert(s =~= Seq::<ChunkView>::empty());
    }
}

/// Round trip: reading the encoding of a file whose chunks are well formed
/// gives back those chunks, in order.
pub proof fn lemma_png_round_trip(s: Seq<ChunkView>)
    requires
        all_valid(s),
    ensures
        parse_png(png_bytes(s)) == Ok::<Seq<ChunkView>, PngError>(s),
{
    let b = png_bytes(s);
    assert(b.subrange(0, 8) =~= signature());
    assert(b.skip(8) =~= chunks_bytes(s));
    lemma_parse_chunks_bytes(s, 0);
}

/// Reading chunks from bytes that start with a good chunk: that chunk, then
/// the chunks after it.
proof fn lemma_parse_chunks_step(b: Seq<u8>, index: nat, c: ChunkView)
    requires
        b.len() > 0,
        parse_chunk(b) == Ok::<ChunkView, Error>(c),
    ensures
        parse_chunks(b, index) == prepend(seq![c], parse_chunks(b.skip(declared_span(b)), index + 1)),
{
}

/// Chunks that are each well formed have well-formed views.
proof fn lemma_views_valid(chunks: Seq<Chunk>)
    requires
        forall|i: int| 0 <= i < chunks.len() ==> #[trigger] chunks[i].wf(),
    ensures
        all_valid(chunks.map_values(|c: Chunk| c@)),
{
    let v = chunks.map_values(|c: Chunk| c@);
    assert forall|i: int| 0 <= i < v.len() implies #[trigger] valid_chunk(v[i]) by {
        assert(chunks[i].wf());
    }
}

/// A PNG file: the chunks that follow its signature, in file order.
pub struct Png {
    chunks: Vec<Chunk>,
}

impl View for Png {
    type V = Seq<ChunkView>;

    closed spec fn view(&self) -> Seq<ChunkView> {
        self.chunks@.map_values(|c: Chunk| c@)
    }
}

/// The PNG signature.
pub const STANDARD_HEADER: [u8; 8] = [137, 80, 78, 71, 13, 10, 26, 10];

/// Whether `bytes` starts with the PNG signature.
fn has_signature(bytes: &[u8]) -> (r: bool)
    ensures
        r == (bytes@.len() >= 8 && bytes@.subrange(0, 8) == signature()),
{
    if bytes.len() < 8 {
        return false;
    }
    let ok = bytes[0] == 137 && bytes[1] == 80 && bytes[2] == 78 && bytes[3] == 71 && bytes[4]
        == 13 && bytes[5] == 10 && bytes[6] == 26 && bytes[7] == 10;
    proof {
        if ok {
            assert(bytes@.subrange(0, 8) =~= signature());
        } else if bytes@.subrange(0, 8) == signature() {
            assert(bytes@[0] == bytes@.subrange(0, 8)[0]);
            assert(bytes@[1] == bytes@.subrange(0, 8)[1]);
            assert(bytes@[2] == bytes@.subrange(0, 8)[2]);
            assert(bytes@[3] == bytes@.subrange(0, 8)[3]);
            assert(bytes@[4] == bytes@.subrange(0, 8)[4]);
            assert(bytes@[5] == bytes@.subrange(0, 8)[5]);
            assert(bytes@[6] == bytes@.subrange(0, 8)[6]);
            assert(bytes@[7] == bytes@.subrange(0, 8)[7]);
        }
    }
    ok
}

impl Png {
    /// Every chunk is well formed.
    pub open spec fn wf(&self) -> bool {
        all_valid(self@)
    }

    /// A file holding these chunks, in this order.
    pub fn from_chunks(chunks: Vec<Chunk>) -> (r: Png)
        requires
            forall|i: int| 0 <= i < chunks@.len() ==> #[trigger] chunks@[i].wf(),
        ensures
            r@ == chunks@.map_values(|c: Chunk| c@),
            r.wf(),
    {
        proof {
            lemma_views_valid(chunks@);
        }
        Png { chunks }
    }

    /// Reads a PNG file: the signature, then chunks until the bytes run out.
    pub fn from_bytes(bytes: &[u8]) -> (r: Result<Png, PngError>)
        ensures
            match r {
                Ok(p) => parse_png(bytes@) == Ok::<Seq<ChunkView>, PngError>(p@) && p.wf(),
                Err(e) => parse_png(bytes@) == Err::<Seq<ChunkView>, PngError>(e),
            },
    {
        if !has_signature(bytes) {
            return Err(PngError { error: Error::BadSignature, chunk_index: None });
        }
        let total = bytes.len();
        let mut chunks: Vec<Chunk> = Vec::new();
        let mut pos: usize = 8;
        let mut k: usize = 0;
        while pos < total
            invariant
                8 <= pos <= total,
                total == bytes@.len(),
                k <= pos,
                k == chunks@.len(),
                forall|i: int| 0 <= i < chunks@.len() ==> #[trigger] chunks@[i].wf(),
                parse_png(bytes@) == prepend(
                    chunks@.map_values(|c: Chunk| c@),
                    parse_chunks(bytes@.skip(pos as int), k as nat),
                ),
            decreases total - pos,
        {
            let ghost b = bytes@.skip(pos as int);
            let c = match Chunk::parse_at(bytes, pos) {
                Ok(c) => c,
                Err(e) => {
                    return Err(PngError { error: e, chunk_index: Some(k) });
                },
            };
            let len = c.length() as usize;
            proof {
                lemma_parse_chunks_step(b, k as nat, c@);
                assert(b.skip(declared_span(b)) =~= bytes@.skip(pos + len + 12));
                let before = chunks@.map_values(|c: Chunk| c@);
                assert(before.push(c@) =~= before + seq![c@]);
                assert(chunks@.push(c).map_values(|c: Chunk| c@) =~= before.push(c@));
                let rest = parse_chunks(bytes@.skip(pos + len + 12), (k + 1) as nat);
                if rest is Ok {
                    assert(before + (seq![c@] + rest->Ok_0) =~= before.push(c@) + rest->Ok_0);
                }
            }
            pos = pos + len + 12;
            chunks.push(c);
            k = k + 1;
        }
        proof {
            lemma_views_valid(chunks@);
            assert(bytes@.skip(pos as int) =~= Seq::<u8>::empty());
            assert(chunks@.map_values(|c: Chunk| c@) + Seq::<ChunkView>::empty() =~= chunks@.map_values(
                |c: Chunk| c@,
            ));
        }
        Ok(Png { chunks })
    }

    /// Adds a chunk after the last one.
    pub fn append_chunk(&mut self, chunk: Chunk)
        requires
            old(self).wf(),
            chunk.wf(),
        ensures
            final(self)@ == old(self)@.push(chunk@),
            final(self).wf(),
    {
        let ghost before = self.chunks@;
        self.chunks.push(chunk);
        proof {
            assert(self.chunks@.map_values(|c: Chunk| c@) =~= before.map_values(|c: Chunk| c@).push(
                chunk@,
            ));
            assert forall|i: int| 0 <= i < self.chunks@.len() implies #[trigger] self.chunks@[i].wf() by {
                if i < before.len() {
                    assert(valid_chunk(before.map_values(|c: Chunk| c@)[i]));
                }
            }
            lemma_views_valid(self.chunks@);
        }
    }

    /// The position of the first chunk of type `chunk_type`, if there is one.
    fn position_of(&self, chunk_type: &ChunkType) -> (r: Option<usize>)
        ensures
            match r {
                Some(i) => is_first_of_kind(self@, chunk_type@, i as int),
                None => !has_kind(self@, chunk_type@),
            },
    {
        let mut i: usize = 0;
        while i < self.chunks.len()
            invariant
                i <= self.chunks@.len(),
                forall|j: int| 0 <= j < i ==> #[trigger] self@[j].kind != chunk_type@,
            decreases self.chunks@.len() - i,
        {
            let t = self.chunks[i].chunk_type();
            if t.same_as(chunk_type) {
                return Some(i);
            }
            i = i + 1;
        }
        None
    }

    /// Removes the first chunk of type `chunk_type` and hands it back; the
    /// other chunks keep their order. Without such a chunk the file is left
    /// as it was.
    pub fn remove_chunk(&mut self, chunk_type: ChunkType) -> (r: Result<Chunk, Error>)
        requires
            old(self).wf(),
        ensures
            final(self).wf(),
            r is Ok <==> has_kind(old(self)@, chunk_type@),
            match r {
                Ok(c) => exists|i: int|
                    is_first_of_kind(old(self)@, chunk_type@, i) && c@ == old(self)@[i]
                        && final(self)@ == old(self)@.remove(i) && c.wf(),
                Err(e) => e == Error::ChunkNotFound && final(self)@ == old(self)@,
            },
    {
        match self.position_of(&chunk_type) {
            None => Err(Error::ChunkNotFound),
            Some(i) => {
                let ghost before = self.chunks@;
                let c = self.chunks.remove(i);
                proof {
                    let v = before.map_values(|c: Chunk| c@);
                    assert(self.chunks@.map_values(|c: Chunk| c@) =~= v.remove(i as int));
                    assert(valid_chunk(v[i as int]));
                    assert forall|j: int| 0 <= j < self.chunks@.len() implies #[trigger] self.chunks@[j].wf() by {
                        if j < i {
                            assert(valid_chunk(v[j]));
                        } else {
                            assert(valid_chunk(v[j + 1]));
                        }
                    }
                    lemma_views_valid(self.chunks@);
                    assert(is_first_of_kind(v, chunk_type@, i as int));
                }
                Ok(c)
            },
        }
    }

    /// The first chunk of type `chunk_type`, if there is one.
    pub fn chunk_by_type(&self, chunk_type: &ChunkType) -> (r: Option<&Chunk>)
        ensures
            match r {
                Some(c) => exists|i: int| is_first_of_kind(self@, chunk_type@, i) && c@ == self@[i],
                None => !has_kind(self@, chunk_type@),
            },
    {
        match self.position_of(chunk_type) {
            Some(i) => Some(&self.chunks[i]),
            None => None,
        }
    }

    /// The PNG signature.
    pub fn header(&self) -> (r: [u8; 8])
        ensures
            r@ == signature(),
    {
        let r = STANDARD_HEADER;
        proof {
            broadcast use vstd::array::group_array_axioms;
            assert(r@ =~= signature());
        }
        r
    }

    /// The chunks, in file order.
    pub fn chunks(&self) -> (r: &[Chunk])
        ensures
            r@.map_values(|c: Chunk| c@) == self@,
    {
        self.chunks.as_slice()
    }

    /// The file's encoding: the signature, then each chunk's encoding.
    pub fn as_bytes(&self) -> (r: Vec<u8>)
        requires
            self.wf(),
        ensures
            r@ == png_bytes(self@),
    {
        let mut out: Vec<u8> = Vec::new();
        let header = self.header();
        let mut h: usize = 0;
        while h < 8
            invariant
                h <= 8,
                header@ == signature(),
                out@ == signature().subrange(0, h as int),
            decreases 8 - h,
        {
            out.push(header[h]);
            h = h + 1;
            proof {
                assert(out@ =~= signature().subrange(0, h as int));
            }
        }
        let ghost v = self@;
        let mut i: usize = 0;
        while i < self.chunks.len()
            invariant
                i <= self.chunks@.len(),
                v == self@,
                all_valid(v),
                out@ == signature() + chunks_bytes(v.take(i as int)),
            decreases self.chunks@.len() - i,
        {
            assert(valid_chunk(v[i as int]));
            self.chunks[i].write_to(&mut out);
            proof {
                assert(v.take(i + 1) =~= v.take(i as int).push(v[i as int]));
                lemma_chunks_bytes_push(v.take(i as int), v[i as int]);
            }
            i = i + 1;
        }
        proof {
            assert(signature().subrange(0, 8) =~= signature());
            assert(v.take(i as int) =~= v);
        }
        out
    }
}

} // verus!
