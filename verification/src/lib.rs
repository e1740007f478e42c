//! Chunk-level reading and writing of PNG files.
//!
//! A PNG file is an eight-byte signature followed by a sequence of chunks,
//! each one framed as length, type, data and CRC-32. This crate parses that
//! container, lets a caller append, find and remove chunks by their type,
//! and serialises the result again, byte for byte.
pub mod args;
pub mod be32;
pub mod chunk;
pub mod chunk_type;
pub mod crc;
pub mod error;
pub mod png;
pub mod text;
