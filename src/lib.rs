//! Chunk-level reading and writing of PNG files: chunk type codes, checksummed
//! chunks, and the signature-prefixed container that holds them.

pub mod args;
pub mod chunk;
pub mod chunk_type;
pub mod file;
pub mod png;
pub mod text;
