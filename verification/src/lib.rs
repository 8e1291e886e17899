//! A verified codec for the PNG container format, extended with
//! application-defined message chunks.
//!
//! The library parses a byte stream into an ordered sequence of
//! length-prefixed, CRC-checked chunks, validates chunk type codes against
//! the format's bit-flag naming convention, and serializes chunks back to
//! bytes. All file and console I/O is left to the surrounding program; the
//! library only consumes and produces in-memory byte buffers and structured
//! chunk values.

use vstd::prelude::*;

pub mod chunk;
pub mod chunk_type;
pub mod commands;
pub mod png;
pub mod text;
pub mod wire;

verus! {

/// The closed set of failures the codec reports. Every malformed input is
/// turned into one of these; the library never panics on input data.
#[derive(Debug, Clone, Copy, PartialEq, Eq)]
pub enum PngError {
    /// The buffer does not begin with the fixed 8-byte signature.
    InvalidSignature,
    /// Fewer bytes are present than a chunk's declared length implies.
    TruncatedInput,
    /// A chunk's stored checksum does not match the one recomputed over its
    /// type code and payload.
    CrcMismatch,
    /// A chunk type string is not exactly 4 bytes long.
    InvalidFormat,
    /// A chunk type byte is not an ASCII letter.
    InvalidCharacter,
    /// A payload read as text is not valid UTF-8.
    InvalidEncoding,
    /// No chunk with the requested type code exists.
    ChunkNotFound,
}

} // verus!
