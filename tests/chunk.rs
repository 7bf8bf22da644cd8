use pngme::chunk::Chunk;
use pngme::chunk_type::ChunkType;
use pngme::crc::crc_update;
use pngme::endian::{push_u32_be, read_u32_be};
use pngme::error::Error;

fn kind(s: &str) -> ChunkType {
    ChunkType::from_text(s).unwrap()
}

fn rust_chunk() -> Chunk {
    Chunk::new(
        kind("RuSt"),
        "This is where your secret message will be!".as_bytes().to_vec(),
    )
}

#[test]
fn crc_of_known_inputs() {
    assert_eq!(crc_update(0xFFFF_FFFF, b"123456789") ^ 0xFFFF_FFFF, 0xCBF4_3926);
    assert_eq!(crc_update(0xFFFF_FFFF, b"") ^ 0xFFFF_FFFF, 0);
}

#[test]
fn iend_chunk_checksum() {
    let c = Chunk::new(kind("IEND"), Vec::new());
    assert_eq!(c.crc(), 0xAE42_6082);
    assert_eq!(c.length(), 0);
    assert_eq!(c.as_bytes(), vec![0, 0, 0, 0, 73, 69, 78, 68, 0xAE, 0x42, 0x60, 0x82]);
}

#[test]
fn new_chunk_fields() {
    let c = rust_chunk();
    assert_eq!(c.length(), 42);
    assert_eq!(c.chunk_type().to_string(), "RuSt");
    assert_eq!(c.crc(), 2882656334);
    assert_eq!(c.data(), "This is where your secret message will be!".as_bytes());
    assert_eq!(c.data_as_string().unwrap(), "This is where your secret message will be!");
}

#[test]
fn chunk_encoding_layout() {
    let c = Chunk::new(kind("ruSt"), vec![1, 2, 3]);
    let b = c.as_bytes();
    assert_eq!(b.len(), 15);
    assert_eq!(&b[0..4], &[0, 0, 0, 3]);
    assert_eq!(&b[4..8], b"ruSt");
    assert_eq!(&b[8..11], &[1, 2, 3]);
    assert_eq!(read_u32_be(&b, 11), c.crc());
}

#[test]
fn chunk_round_trip() {
    let c = rust_chunk();
    let b = c.as_bytes();
    let d = Chunk::parse(&b).unwrap();
    assert_eq!(d.chunk_type(), c.chunk_type());
    assert_eq!(d.data(), c.data());
    assert_eq!(d.crc(), c.crc());
    assert_eq!(d.as_bytes(), b);
}

#[test]
fn chunk_parse_ignores_trailing_bytes() {
    let c = rust_chunk();
    let mut b = c.as_bytes();
    b.extend_from_slice(&[9, 9, 9]);
    let d = Chunk::parse(&b).unwrap();
    assert_eq!(d.data(), c.data());
}

#[test]
fn every_payload_bit_flip_is_a_crc_mismatch() {
    let c = Chunk::new(kind("ruSt"), b"hidden message".to_vec());
    let b = c.as_bytes();
    for i in 8..8 + 14 {
        for bit in 0..8 {
            let mut f = b.clone();
            f[i] ^= 1u8 << bit;
            assert_eq!(Chunk::parse(&f).err(), Some(Error::CrcMismatch));
        }
    }
}

#[test]
fn stored_crc_change_is_a_crc_mismatch() {
    let mut b = rust_chunk().as_bytes();
    let last = b.len() - 1;
    b[last] ^= 0x10;
    assert_eq!(Chunk::parse(&b).err(), Some(Error::CrcMismatch));
}

#[test]
fn declared_length_past_end_is_eof() {
    let c = rust_chunk();
    let b = c.as_bytes();
    assert_eq!(Chunk::parse(&b[..b.len() - 1]).err(), Some(Error::UnexpectedEof));
    let mut long = b.clone();
    long[3] = 200;
    assert_eq!(Chunk::parse(&long).err(), Some(Error::UnexpectedEof));
    assert_eq!(Chunk::parse(&[0, 0]).err(), Some(Error::UnexpectedEof));
    assert_eq!(Chunk::parse(&[]).err(), Some(Error::UnexpectedEof));
    assert_eq!(Chunk::parse(&[0, 0, 0, 0, 73, 69, 78, 68]).err(), Some(Error::UnexpectedEof));
}

#[test]
fn bad_type_bytes_are_rejected() {
    let mut b = Chunk::new(kind("ruSt"), vec![5]).as_bytes();
    b[6] = b'1';
    assert_eq!(Chunk::parse(&b).err(), Some(Error::InvalidChunkType));
}

#[test]
fn non_utf8_payload_is_not_text() {
    let c = Chunk::new(kind("ruSt"), vec![0xFF, 0xFE, 0x41]);
    assert_eq!(c.data_as_string(), Err(Error::InvalidUtf8));
    let t = Chunk::new(kind("ruSt"), "héllo".as_bytes().to_vec());
    assert_eq!(t.data_as_string().unwrap(), "héllo");
}

#[test]
fn big_endian_helpers() {
    let mut v = vec![7u8];
    push_u32_be(&mut v, 0x0102_0304);
    assert_eq!(v, vec![7, 1, 2, 3, 4]);
    assert_eq!(read_u32_be(&v, 1), 0x0102_0304);
    assert_eq!(read_u32_be(&[0xFF, 0, 0, 1], 0), 0xFF00_0001);
}
