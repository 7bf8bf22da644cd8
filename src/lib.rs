//! Reading, editing and writing the chunk sequence of PNG files, so that text
//! can be hidden in (and recovered from) ancillary chunks.

pub mod chunk;
pub mod chunk_type;
pub mod commands;
pub mod crc;
pub mod endian;
pub mod error;
pub mod png;
mod text;
