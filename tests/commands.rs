use pngme::chunk::Chunk;
use pngme::chunk_type::ChunkType;
use pngme::commands::{embed_message, extract_message, hiding_places, strip_message};
use pngme::error::Error;
use pngme::png::{Png, PngError};

fn chunk(t: &str, data: &[u8]) -> Chunk {
    Chunk::new(ChunkType::from_text(t).unwrap(), data.to_vec())
}

fn minimal_png() -> Vec<u8> {
    let ihdr = vec![0, 0, 0, 1, 0, 0, 0, 1, 8, 0, 0, 0, 0];
    Png::from_chunks(vec![
        chunk("IHDR", &ihdr),
        chunk("IDAT", &[120, 156, 99, 0, 1, 0, 0, 5, 0, 1]),
        chunk("IEND", &[]),
    ])
    .as_bytes()
}

fn names(ts: Vec<ChunkType>) -> Vec<String> {
    ts.iter().map(|t| t.to_string()).collect()
}

#[test]
fn embed_then_extract_secret() {
    let file = minimal_png();
    let out = embed_message(&file, "ruSt", "secret").unwrap().unwrap();
    assert_eq!(extract_message(&out, "ruSt").unwrap(), Some("secret".to_string()));
    assert_eq!(extract_message(&out, "abCd").unwrap(), None);
    assert_eq!(extract_message(&file, "ruSt").unwrap(), None);
}

#[test]
fn embed_appends_one_chunk() {
    let file = minimal_png();
    let out = embed_message(&file, "ruSt", "secret").unwrap().unwrap();
    assert_eq!(out.len(), file.len() + 12 + 6);
    assert_eq!(&out[..file.len()], &file[..]);
    assert_eq!(&out[file.len() + 4..file.len() + 8], b"ruSt");
}

#[test]
fn embed_under_critical_type_is_refused() {
    let file = minimal_png();
    assert!(embed_message(&file, "IHDR", "secret").unwrap().is_none());
    assert!(embed_message(&file, "RuSt", "secret").unwrap().is_none());
}

#[test]
fn embed_with_bad_type_text_fails() {
    let file = minimal_png();
    let e = embed_message(&file, "ru1t", "secret").err().unwrap();
    assert_eq!(e, PngError { error: Error::InvalidChunkType, chunk_index: None });
    let e = embed_message(&[1, 2, 3], "ruSt", "secret").err().unwrap();
    assert_eq!(e.error, Error::BadSignature);
}

#[test]
fn extract_non_text_payload_fails() {
    let mut p = Png::from_bytes(&minimal_png()).unwrap();
    p.append_chunk(chunk("ruSt", &[0xC3, 0x28]));
    let e = extract_message(&p.as_bytes(), "ruSt").err().unwrap();
    assert_eq!(e.error, Error::InvalidUtf8);
}

#[test]
fn strip_restores_the_file() {
    let file = minimal_png();
    let out = embed_message(&file, "ruSt", "secret").unwrap().unwrap();
    assert_eq!(strip_message(&out, "ruSt").unwrap(), Some(file.clone()));
    assert_eq!(strip_message(&file, "ruSt").unwrap(), None);
}

#[test]
fn hiding_places_follow_the_last_iend() {
    let file = minimal_png();
    assert!(hiding_places(&file).unwrap().is_empty());
    let out = embed_message(&file, "ruSt", "a").unwrap().unwrap();
    let out = embed_message(&out, "teSt", "b").unwrap().unwrap();
    assert_eq!(names(hiding_places(&out).unwrap()), vec!["ruSt", "teSt"]);
}

#[test]
fn hiding_places_without_iend_lists_all() {
    let p = Png::from_chunks(vec![chunk("IHDR", &[0]), chunk("ruSt", b"x")]);
    assert_eq!(names(hiding_places(&p.as_bytes()).unwrap()), vec!["IHDR", "ruSt"]);
}

#[test]
fn hiding_places_with_two_iends_uses_the_last() {
    let p = Png::from_chunks(vec![
        chunk("IEND", &[]),
        chunk("abCd", b"x"),
        chunk("IEND", &[]),
        chunk("ruSt", b"y"),
    ]);
    assert_eq!(names(hiding_places(&p.as_bytes()).unwrap()), vec!["ruSt"]);
}
