use vstd::prelude::*;
use vstd::string::StringSliceAdditionalSpecFns;
use vstd::utf8::{decode_utf8, encode_utf8, valid_utf8};

use crate::chunk::{new_chunk, valid_chunk, Chunk, ChunkView};
use crate::chunk_type::{is_upper, valid_type_bytes, ChunkType};
use crate::error::Error;
use crate::png::{
    all_valid, first_of_kind, has_kind, is_first_of_kind, lemma_first_of_kind_unique,
    lemma_append_then_remove, lemma_parsed_png_valid, lemma_png_round_trip, parse_png, png_bytes,
    Png, PngError,
};

verus! {

/// The error for a chunk type given as text that is not four ASCII letters.
pub open spec fn bad_type() -> PngError {
    PngError { error: Error::InvalidChunkType, chunk_index: None }
}

/// Hiding `msg` in a file under type `kind`: the new file's bytes, or `None`
/// where the type is critical and the file is left as it is.
pub open spec fn embedded(file: Seq<u8>, kind: Seq<u8>, msg: Seq<u8>) -> Result<
    Option<Seq<u8>>,
    PngError,
> {
    match parse_png(file) {
        Err(e) => Err(e),
        Ok(v) => if !valid_type_bytes(kind) {
            Err(bad_type())
        } else if is_upper(kind[0]) {
            Ok(None)
        } else {
            Ok(Some(png_bytes(v.push(new_chunk(kind, msg)))))
        },
    }
}

/// The text held by the first chunk of type `kind`, or `None` where no chunk
/// has that type.
pub open spec fn extracted(file: Seq<u8>, kind: Seq<u8>) -> Result<Option<Seq<char>>, PngError> {
    match parse_png(file) {
        Err(e) => Err(e),
        Ok(v) => if !valid_type_bytes(kind) {
            Err(bad_type())
        } else if !has_kind(v, kind) {
            Ok(None)
        } else {
            let data = v[first_of_kind(v, kind)].data;
            if valid_utf8(data) {
                Ok(Some(decode_utf8(data)))
            } else {
                Err(PngError { error: Error::InvalidUtf8, chunk_index: None })
            }
        },
    }
}

/// The file without its first chunk of type `kind`, or `None` where no chunk
/// has that type.
pub open spec fn stripped(file: Seq<u8>, kind: Seq<u8>) -> Result<Option<Seq<u8>>, PngError> {
    match parse_png(file) {
        Err(e) => Err(e),
        Ok(v) => if !valid_type_bytes(kind) {
            Err(bad_type())
        } else if !has_kind(v, kind) {
            Ok(None)
        } else {
            Ok(Some(png_bytes(v.remove(first_of_kind(v, kind)))))
        },
    }
}

/// The bytes of the type `IEND`, which conventionally ends a file.
pub open spec fn iend() -> Seq<u8> {
    seq![73u8, 69, 78, 68]
}

/// The position of the last `IEND` chunk, or -1 where there is none.
pub open spec fn last_iend(v: Seq<ChunkView>) -> int
    decreases v.len(),
{
    if v.len() == 0 {
        -1
    } else if v.last().kind == iend() {
        v.len() - 1
    } else {
        last_iend(v.drop_last())
    }
}

/// The types of the chunks after the last `IEND` chunk (of all chunks, where
/// there is none): the places where a message may have been hidden.
pub open spec fn after_last_iend(v: Seq<ChunkView>) -> Seq<Seq<u8>> {
    v.skip(last_iend(v) + 1).map_values(|c: ChunkView| c.kind)
}

/// Text hidden in a file under an ancillary type that the file does not yet
/// use is read back from that type, and a type that the file does not hold
/// still reads as absent.
pub proof fn lemma_embed_then_extract(file: Seq<u8>, kind: Seq<u8>, msg: Seq<char>, other: Seq<u8>)
    requires
        parse_png(file) matches Ok(v) && !has_kind(v, kind) && !has_kind(v, other),
        valid_type_bytes(kind),
        !is_upper(kind[0]),
        valid_type_bytes(other),
        other != kind,
        encode_utf8(msg).len() <= u32::MAX,
    ensures
        embedded(file, kind, encode_utf8(msg)) matches Ok(Some(out)) && extracted(out, kind)
            == Ok::<Option<Seq<char>>, PngError>(Some(msg)) && extracted(out, other) == Ok::<
            Option<Seq<char>>,
            PngError,
        >(None),
{
    let v = parse_png(file)->Ok_0;
    let bytes = encode_utf8(msg);
    let c = new_chunk(kind, bytes);
    let w = v.push(c);
    lemma_parsed_png_valid(file);
    assert(valid_chunk(c));
    assert(all_valid(w)) by {
        assert forall|i: int| 0 <= i < w.len() implies #[trigger] valid_chunk(w[i]) by {
            if i < v.len() {
                assert(w[i] == v[i]);
            }
        }
    }
    lemma_png_round_trip(w);
    lemma_append_then_remove(v, c);
    assert(w[v.len() as int] == c);
    vstd::utf8::encode_utf8_valid_utf8(msg);
    vstd::utf8::encode_utf8_decode_utf8(msg);
    assert(!has_kind(w, other)) by {
        assert forall|i: int| 0 <= i < w.len() implies w[i].kind != other by {
            if i < v.len() {
                assert(w[i] == v[i]);
            }
        }
    }
}

/// A message is never embedded under a critical type: on any readable file
/// the answer is a refusal, and no new bytes are produced.
pub proof fn lemma_critical_type_refused(file: Seq<u8>, kind: Seq<u8>, msg: Seq<u8>)
    requires
        parse_png(file) is Ok,
        valid_type_bytes(kind),
        is_upper(kind[0]),
    ensures
        embedded(file, kind, msg) == Ok::<Option<Seq<u8>>, PngError>(None),
{
}

/// Reads the file and the chunk type, in that order.
fn open_png(file: &[u8], chunk_type: &str) -> (r: Result<(Png, ChunkType), PngError>)
    ensures
        match r {
            Ok((p, t)) => parse_png(file@) == Ok::<Seq<ChunkView>, PngError>(p@) && p.wf()
                && valid_type_bytes(chunk_type.spec_bytes()) && t@ == chunk_type.spec_bytes()
                && t.wf(),
            Err(e) => match parse_png(file@) {
                Ok(_) => !valid_type_bytes(chunk_type.spec_bytes()) && e == bad_type(),
                Err(pe) => e == pe,
            },
        },
{
    let png = match Png::from_bytes(file) {
        Ok(p) => p,
        Err(e) => return Err(e),
    };
    match ChunkType::from_text(chunk_type) {
        Ok(t) => Ok((png, t)),
        Err(e) => Err(PngError { error: e, chunk_index: None }),
    }
}

/// Hides `message` in the PNG file `file` in a new chunk of type
/// `chunk_type`, placed after the others. A critical type is refused
/// (`None`): payloads go only into ancillary chunks.
pub fn embed_message(file: &[u8], chunk_type: &str, message: &str) -> (r: Result<
    Option<Vec<u8>>,
    PngError,
>)
    requires
        message.spec_bytes().len() <= u32::MAX,
    ensures
        match r {
            Ok(Some(out)) => embedded(file@, chunk_type.spec_bytes(), message.spec_bytes()) == Ok::<
                Option<Seq<u8>>,
                PngError,
            >(Some(out@)),
            Ok(None) => embedded(file@, chunk_type.spec_bytes(), message.spec_bytes()) == Ok::<
                Option<Seq<u8>>,
                PngError,
            >(None),
            Err(e) => embedded(file@, chunk_type.spec_bytes(), message.spec_bytes()) == Err::<
                Option<Seq<u8>>,
                PngError,
            >(e),
        },
{
    let (mut png, t) = match open_png(file, chunk_type) {
        Ok(x) => x,
        Err(e) => return Err(e),
    };
    if !t.is_safe_to_write() {
        return Ok(None);
    }
    let bytes = message.as_bytes();
    let mut data: Vec<u8> = Vec::new();
    let mut i: usize = 0;
    while i < bytes.len()
        invariant
            i <= bytes@.len(),
            data@ == bytes@.subrange(0, i as int),
        decreases bytes@.len() - i,
    {
        data.push(bytes[i]);
        i = i + 1;
        proof {
            assert(data@ =~= bytes@.subrange(0, i as int));
        }
    }
    proof {
        assert(data@ =~= bytes@);
    }
    png.append_chunk(Chunk::new(t, data));
    Ok(Some(png.as_bytes()))
}

/// The text hidden in the first chunk of type `chunk_type` of the PNG file
/// `file`, or `None` where no chunk has that type.
pub fn extract_message(file: &[u8], chunk_type: &str) -> (r: Result<Option<String>, PngError>)
    ensures
        match r {
            Ok(Some(s)) => extracted(file@, chunk_type.spec_bytes()) == Ok::<
                Option<Seq<char>>,
                PngError,
            >(Some(s@)),
            Ok(None) => extracted(file@, chunk_type.spec_bytes()) == Ok::<
                Option<Seq<char>>,
                PngError,
            >(None),
            Err(e) => extracted(file@, chunk_type.spec_bytes()) == Err::<
                Option<Seq<char>>,
                PngError,
            >(e),
        },
{
    let (png, t) = match open_png(file, chunk_type) {
        Ok(x) => x,
        Err(e) => return Err(e),
    };
    match png.chunk_by_type(&t) {
        None => Ok(None),
        Some(c) => {
            proof {
                let i = choose|i: int| is_first_of_kind(png@, t@, i) && c@ == png@[i];
                lemma_first_of_kind_unique(png@, t@, i);
            }
            match c.data_as_string() {
                Ok(s) => Ok(Some(s)),
                Err(e) => Err(PngError { error: e, chunk_index: None }),
            }
        },
    }
}

/// The PNG file `file` without its first chunk of type `chunk_type`, or
/// `None` where no chunk has that type.
pub fn strip_message(file: &[u8], chunk_type: &str) -> (r: Result<Option<Vec<u8>>, PngError>)
    ensures
        match r {
            Ok(Some(out)) => stripped(file@, chunk_type.spec_bytes()) == Ok::<
                Option<Seq<u8>>,
                PngError,
            >(Some(out@)),
            Ok(None) => stripped(file@, chunk_type.spec_bytes()) == Ok::<
                Option<Seq<u8>>,
                PngError,
            >(None),
            Err(e) => stripped(file@, chunk_type.spec_bytes()) == Err::<
                Option<Seq<u8>>,
                PngError,
            >(e),
        },
{
    let (mut png, t) = match open_png(file, chunk_type) {
        Ok(x) => x,
        Err(e) => return Err(e),
    };
    let ghost before = png@;
    match png.remove_chunk(t) {
        Err(_) => Ok(None),
        Ok(c) => {
            proof {
                let i = choose|i: int|
                    is_first_of_kind(before, t@, i) && c@ == before[i] && png@ == before.remove(i)
                        && c.wf();
                lemma_first_of_kind_unique(before, t@, i);
            }
            Ok(Some(png.as_bytes()))
        },
    }
}

/// The types of the chunks of the PNG file `file` that follow its last
/// `IEND` chunk (all of them, where there is none), in file order.
pub fn hiding_places(file: &[u8]) -> (r: Result<Vec<ChunkType>, PngError>)
    ensures
        match r {
            Ok(ts) => parse_png(file@) matches Ok(v) && ts@.map_values(|t: ChunkType| t@)
                == after_last_iend(v),
            Err(e) => parse_png(file@) == Err::<Seq<ChunkView>, PngError>(e),
        },
{
    let png = match Png::from_bytes(file) {
        Ok(p) => p,
        Err(e) => return Err(e),
    };
    let chunks = png.chunks();
    let ghost v = png@;
    let end_bytes: [u8; 4] = [73, 69, 78, 68];
    proof {
        broadcast use vstd::array::group_array_axioms;
        assert(end_bytes@ =~= iend());
    }
    let end = match ChunkType::from_bytes(end_bytes) {
        Ok(t) => t,
        Err(_) => {
            proof {
                assert(valid_type_bytes(end_bytes@));
                assert(false);
            }
            return Ok(Vec::new());
        },
    };
    // Find where the segment after the last IEND starts.
    let mut start: usize = chunks.len();
    proof {
        assert(v.subrange(0, start as int) =~= v);
    }
    while start > 0
        invariant
            start <= chunks@.len(),
            chunks@.map_values(|c: Chunk| c@) == v,
            end@ == iend(),
            last_iend(v) == last_iend(v.subrange(0, start as int)),
        ensures
            start == 0 || v[start - 1].kind == iend(),
            last_iend(v) == last_iend(v.subrange(0, start as int)),
        decreases start,
    {
        if chunks[start - 1].chunk_type().same_as(&end) {
            break;
        }
        proof {
            assert(v.subrange(0, start as int).drop_last() =~= v.subrange(0, start - 1));
        }
        start = start - 1;
    }
    proof {
        if start == 0 {
            assert(last_iend(v.subrange(0, 0)) == -1);
        } else {
            assert(v.subrange(0, start as int).last() == v[start - 1]);
        }
    }
    let mut out: Vec<ChunkType> = Vec::new();
    let mut i: usize = start;
    while i < chunks.len()
        invariant
            start <= i <= chunks@.len(),
            chunks@.map_values(|c: Chunk| c@) == v,
            last_iend(v) + 1 == start,
            out@.map_values(|t: ChunkType| t@) == v.subrange(start as int, i as int).map_values(
                |c: ChunkView| c.kind,
            ),
        decreases chunks@.len() - i,
    {
        let ghost before = out@;
        let t = chunks[i].chunk_type();
        out.push(t);
        proof {
            assert(t@ == v[i as int].kind);
            assert(v.subrange(start as int, i + 1) =~= v.subrange(start as int, i as int).push(
                v[i as int],
            ));
            assert(out@ =~= before.push(t));
            assert(out@.map_values(|t: ChunkType| t@) =~= before.map_values(|t: ChunkType| t@).push(
                t@,
            ));
            assert(v.subrange(start as int, i + 1).map_values(|c: ChunkView| c.kind) =~= v.subrange(
                start as int,
                i as int,
            ).map_values(|c: ChunkView| c.kind).push(v[i as int].kind));
            assert(out@.map_values(|t: ChunkType| t@) =~= v.subrange(start as int, i + 1).map_values(
                |c: ChunkView| c.kind,
            ));
        }
        i = i + 1;
    }
    proof {
        assert(v.subrange(start as int, v.len() as int) =~= v.skip(start as int));
    }
    Ok(out)
}

} // verus!
