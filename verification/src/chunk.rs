//! A single length-prefixed, type-tagged, checksummed record.
//!
//! On the wire a chunk is `u32 length (BE) | 4-byte type | payload | u32
//! CRC-32 (BE)`; the checksum covers the type bytes followed by the payload.

use vstd::prelude::*;
use vstd::slice::{slice_subrange, slice_to_vec};
use vstd::utf8::{decode_utf8, valid_utf8};
use crate::PngError;
use crate::chunk_type::ChunkType;
use crate::text::utf8_to_string;
use crate::wire::{
    lemma_u32_be_bytes_round_trip,
    push_u32_be,
    spec_u32_from_be_bytes,
    spec_u32_to_be_bytes,
    u32_from_be_slice,
};

verus! {

/// What the CRC-32 checksum with the ISO-HDLC parameterization of a byte
/// sequence is. The checksum is left unspecified here; the library relies on
/// the `crc` crate to compute it and states everything else relative to it.
pub uninterp spec fn crc32_of(data: Seq<u8>) -> u32;

/// Relies on crc::Crc::<u32>::checksum with the CRC_32_ISO_HDLC algorithm:
/// the checksum depends on the input bytes alone.
#[verifier::external_body]
fn compute_crc(data: &[u8]) -> (r: u32)
    ensures
        r == crc32_of(data@),
{
    crc::Crc::<u32>::new(&crc::CRC_32_ISO_HDLC).checksum(data)
}

/// The mathematical content of a chunk: its type code bytes, its payload and
/// its stored checksum. The declared length is not part of the content; a
/// well-formed chunk's length is its payload's length.
#[verifier::ext_equal]
pub struct ChunkView {
    pub type_bytes: Seq<u8>,
    pub data: Seq<u8>,
    pub crc: u32,
}

/// A well-formed chunk content: a 4-byte type code and a checksum that
/// matches the one computed over the type bytes followed by the payload.
pub open spec fn spec_chunk_view_wf(cv: ChunkView) -> bool {
    &&& cv.type_bytes.len() == 4
    &&& cv.data.len() <= u32::MAX
    &&& cv.crc == crc32_of(cv.type_bytes + cv.data)
}

/// The on-wire bytes of a chunk content.
pub open spec fn spec_serialize_chunk(cv: ChunkView) -> Seq<u8> {
    spec_u32_to_be_bytes(cv.data.len() as u32) + cv.type_bytes + cv.data + spec_u32_to_be_bytes(
        cv.crc,
    )
}

/// Parses the chunk at the front of `bytes`: either its content together
/// with the number of bytes it occupies, or the error that stops parsing.
pub open spec fn spec_parse_one(bytes: Seq<u8>) -> Result<(ChunkView, int), PngError> {
    if bytes.len() < 12 {
        Err(PngError::TruncatedInput)
    } else {
        let declared = spec_u32_from_be_bytes(bytes.subrange(0, 4)) as int;
        if bytes.len() < 12 + declared {
            Err(PngError::TruncatedInput)
        } else {
            let type_bytes = bytes.subrange(4, 8);
            let data = bytes.subrange(8, 8 + declared);
            let stored = spec_u32_from_be_bytes(bytes.subrange(8 + declared, 12 + declared));
            if stored != crc32_of(type_bytes + data) {
                Err(PngError::CrcMismatch)
            } else {
                Ok((ChunkView { type_bytes, data, crc: stored }, 12 + declared))
            }
        }
    }
}

/// A chunk: a declared payload length, a type code, the payload bytes and a
/// CRC-32 checksum over type code and payload.
#[derive(Debug)]
pub struct Chunk {
    length: u32,
    chunk_type: ChunkType,
    chunk_data: Vec<u8>,
    crc: u32,
}

impl View for Chunk {
    type V = ChunkView;

    closed spec fn view(&self) -> ChunkView {
        ChunkView { type_bytes: self.chunk_type@, data: self.chunk_data@, crc: self.crc }
    }
}

impl Chunk {
    /// The chunk's invariant: the declared length equals the payload length
    /// and the stored checksum matches the computed one. Construction
    /// establishes it and nothing mutates a chunk afterwards.
    pub closed spec fn wf(&self) -> bool {
        &&& self.length == self.chunk_data@.len()
        &&& spec_chunk_view_wf(self@)
    }

    /// Builds a fresh chunk from a type code and a payload; the length and
    /// the checksum are computed, never supplied.
    pub fn new(chunk_type: ChunkType, data: Vec<u8>) -> (c: Chunk)
        requires
            data@.len() <= u32::MAX,
        ensures
            c@.type_bytes == chunk_type@,
            c@.data == data@,
            c@.crc == crc32_of(chunk_type@ + data@),
            c.wf(),
    {
        let length = data.len() as u32;
        let type_bytes = chunk_type.bytes();
        let mut crc_input: Vec<u8> = Vec::new();
        crc_input.push(type_bytes[0]);
        crc_input.push(type_bytes[1]);
        crc_input.push(type_bytes[2]);
        crc_input.push(type_bytes[3]);
        crc_input.extend_from_slice(data.as_slice());
        proof {
            assert(crc_input@ =~= chunk_type@ + data@);
        }
        let crc = compute_crc(crc_input.as_slice());
        Chunk { length, chunk_type, chunk_data: data, crc }
    }

    /// Parses the chunk stored at `offset`, returning it together with the
    /// offset just past it.
    pub(crate) fn parse_at(value: &[u8], offset: usize) -> (r: Result<(Chunk, usize), PngError>)
        requires
            offset <= value@.len(),
        ensures
            match r {
                Ok(p) => {
                    &&& spec_parse_one(value@.skip(offset as int)) == Ok::<_, PngError>(
                        (p.0@, p.1 - offset),
                    )
                    &&& p.0.wf()
                    &&& offset + 12 <= p.1 <= value@.len()
                },
                Err(e) => spec_parse_one(value@.skip(offset as int)) == Err::<
                    (ChunkView, int),
                    PngError,
                >(e),
            },
    {
        let ghost bytes = value@.skip(offset as int);
        let n = value.len();
        if n - offset < 12 {
            return Err(PngError::TruncatedInput);
        }
        let declared32 = u32_from_be_slice(value, offset);
        let declared = declared32 as usize;
        proof {
            assert(bytes.subrange(0, 4) =~= value@.subrange(offset as int, offset as int + 4));
        }
        if n - offset - 12 < declared {
            return Err(PngError::TruncatedInput);
        }
        let type_and_data = slice_to_vec(slice_subrange(value, offset + 4, offset + 8 + declared));
        let ghost type_bytes = bytes.subrange(4, 8);
        let ghost data_bytes = bytes.subrange(8, 8 + declared as int);
        proof {
            assert(type_bytes =~= value@.subrange(offset as int + 4, offset as int + 8));
            assert(data_bytes =~= value@.subrange(offset as int + 8, offset as int + 8
                + declared as int));
            assert(type_and_data@ =~= type_bytes + data_bytes);
        }
        let computed = compute_crc(type_and_data.as_slice());
        let stored = u32_from_be_slice(value, offset + 8 + declared);
        proof {
            assert(bytes.subrange(8 + declared as int, 12 + declared as int) =~= value@.subrange(
                offset as int + 8 + declared as int,
                offset as int + 12 + declared as int,
            ));
        }
        if stored != computed {
            return Err(PngError::CrcMismatch);
        }
        let chunk_type = ChunkType { val: u32_from_be_slice(value, offset + 4) };
        proof {
            lemma_u32_be_bytes_round_trip(type_bytes);
        }
        let data = slice_to_vec(slice_subrange(value, offset + 8, offset + 8 + declared));
        let c = Chunk { length: declared32, chunk_type, chunk_data: data, crc: stored };
        proof {
            assert(c@ =~= ChunkView { type_bytes, data: data_bytes, crc: stored });
        }
        Ok((c, offset + 12 + declared))
    }

    /// Parses a chunk from the front of a byte buffer, re-verifying its
    /// checksum. Bytes beyond the chunk's declared extent are ignored.
    pub fn parse(value: &[u8]) -> (r: Result<Chunk, PngError>)
        ensures
            match r {
                Ok(c) => {
                    &&& spec_parse_one(value@) == Ok::<_, PngError>(
                        (c@, 12 + c@.data.len() as int),
                    )
                    &&& c.wf()
                },
                Err(e) => spec_parse_one(value@) == Err::<(ChunkView, int), PngError>(e),
            },
    {
        proof {
            assert(value@.skip(0) =~= value@);
        }
        match Chunk::parse_at(value, 0) {
            Ok((c, _next)) => Ok(c),
            Err(e) => Err(e),
        }
    }

    /// The declared payload length.
    pub fn length(&self) -> (r: u32)
        requires
            self.wf(),
        ensures
            r == self@.data.len(),
    {
        self.length
    }

    /// The chunk's type code.
    pub fn chunk_type(&self) -> (r: &ChunkType)
        ensures
            r@ == self@.type_bytes,
    {
        &self.chunk_type
    }

    /// The payload bytes.
    pub fn data(&self) -> (r: &[u8])
        ensures
            r@ == self@.data,
    {
        self.chunk_data.as_slice()
    }

    /// The stored checksum.
    pub fn crc(&self) -> (r: u32)
        ensures
            r == self@.crc,
    {
        self.crc
    }

    /// The payload read as text; fails when it is not valid UTF-8.
    pub fn data_as_string(&self) -> (r: Result<String, PngError>)
        ensures
            match r {
                Ok(s) => valid_utf8(self@.data) && s@ == decode_utf8(self@.data),
                Err(e) => e == PngError::InvalidEncoding && !valid_utf8(self@.data),
            },
    {
        match utf8_to_string(self.chunk_data.clone()) {
            Some(s) => Ok(s),
            None => Err(PngError::InvalidEncoding),
        }
    }

    /// The chunk's on-wire bytes: length, type code, payload and checksum.
    pub fn as_bytes(&self) -> (r: Vec<u8>)
        requires
            self.wf(),
        ensures
            r@ == spec_serialize_chunk(self@),
    {
        let mut out: Vec<u8> = Vec::new();
        push_u32_be(&mut out, self.length);
        let tb = self.chunk_type.bytes();
        out.push(tb[0]);
        out.push(tb[1]);
        out.push(tb[2]);
        out.push(tb[3]);
        out.extend_from_slice(self.chunk_data.as_slice());
        push_u32_be(&mut out, self.crc);
        proof {
            assert(out@ =~= spec_serialize_chunk(self@));
        }
        out
    }
}

/// A well-formed chunk has a well-formed content.
pub proof fn lemma_chunk_wf_view(c: Chunk)
    requires
        c.wf(),
    ensures
        spec_chunk_view_wf(c@),
{
}

/// Parsing the serialized form of a well-formed chunk content, with any
/// bytes following it, recovers exactly that content.
pub proof fn lemma_parse_one_layout(t: Seq<u8>, data: Seq<u8>, stored: u32, suffix: Seq<u8>)
    requires
        t.len() == 4,
        data.len() <= u32::MAX,
    ensures
        ({
            let bytes = spec_u32_to_be_bytes(data.len() as u32) + t + data + spec_u32_to_be_bytes(
                stored,
            ) + suffix;
            if stored == crc32_of(t + data) {
                spec_parse_one(bytes) == Ok::<_, PngError>(
                    (ChunkView { type_bytes: t, data, crc: stored }, 12 + data.len() as int),
                )
            } else {
                spec_parse_one(bytes) == Err::<(ChunkView, int), PngError>(PngError::CrcMismatch)
            }
        }),
{
    let bytes = spec_u32_to_be_bytes(data.len() as u32) + t + data + spec_u32_to_be_bytes(stored)
        + suffix;
    assert(bytes.len() == 12 + data.len() + suffix.len());
    assert(bytes.subrange(0, 4) =~= spec_u32_to_be_bytes(data.len() as u32));
    crate::wire::lemma_u32_be_round_trip(data.len() as u32);
    let declared = spec_u32_from_be_bytes(bytes.subrange(0, 4)) as int;
    assert(declared == data.len());
    assert(bytes.subrange(4, 8) =~= t);
    assert(bytes.subrange(8, 8 + declared) =~= data);
    assert(bytes.subrange(8 + declared, 12 + declared) =~= spec_u32_to_be_bytes(stored));
    crate::wire::lemma_u32_be_round_trip(stored);
    if stored == crc32_of(t + data) {
        assert(spec_parse_one(bytes) == Ok::<_, PngError>(
            (ChunkView { type_bytes: t, data, crc: stored }, 12 + data.len() as int),
        ));
    }
}

/// Round-trip law: a chunk built by `new` (or any well-formed chunk)
/// serializes to bytes whose parse yields a chunk content equal in type,
/// payload and checksum.
pub proof fn lemma_chunk_round_trip(c: Chunk)
    requires
        c.wf(),
    ensures
        spec_parse_one(spec_serialize_chunk(c@)) == Ok::<_, PngError>(
            (c@, 12 + c@.data.len() as int),
        ),
{
    lemma_parse_one_layout(c@.type_bytes, c@.data, c@.crc, Seq::empty());
    assert(spec_serialize_chunk(c@) + Seq::<u8>::empty() =~= spec_serialize_chunk(c@));
    assert(ChunkView { type_bytes: c@.type_bytes, data: c@.data, crc: c@.crc } =~= c@);
}

/// Tampered-checksum law: a buffer identical to a well-formed chunk's
/// serialized form except for its trailing checksum field fails to parse,
/// with a checksum mismatch.
pub proof fn lemma_tampered_crc(cv: ChunkView, bad_crc: u32)
    requires
        spec_chunk_view_wf(cv),
        bad_crc != cv.crc,
    ensures
        spec_parse_one(spec_serialize_chunk(ChunkView { crc: bad_crc, ..cv })) == Err::<
            (ChunkView, int),
            PngError,
        >(PngError::CrcMismatch),
{
    lemma_parse_one_layout(cv.type_bytes, cv.data, bad_crc, Seq::empty());
    assert(spec_serialize_chunk(ChunkView { crc: bad_crc, ..cv }) + Seq::<u8>::empty()
        =~= spec_serialize_chunk(ChunkView { crc: bad_crc, ..cv }));
}

} // verus!
