//! Validation and bit-flag queries for 4-byte chunk type codes.
//!
//! A chunk type code is four ASCII letters; bit 5 of each byte (the letter's
//! case) encodes one boolean property of the chunk.

use vstd::prelude::*;
use vstd::string::StringSliceAdditionalSpecFns;
use vstd::utf8::{decode_utf8, valid_utf8};
use crate::PngError;
use crate::text::utf8_to_string;
use crate::wire::{
    lemma_u32_be_bytes_round_trip,
    spec_u32_to_be_bytes,
    u32_from_be_array,
    u32_to_be_array,
};

verus! {

/// A 4-byte chunk type code, stored as one big-endian 32-bit value.
///
/// Its view is the sequence of the four code bytes. Two codes are equal
/// exactly when their bytes match.
#[derive(Debug, Clone, Copy, PartialEq, Eq, Structural)]
pub struct ChunkType {
    pub val: u32,
}

impl View for ChunkType {
    type V = Seq<u8>;

    open spec fn view(&self) -> Seq<u8> {
        spec_u32_to_be_bytes(self.val)
    }
}

/// The bit that distinguishes an ASCII uppercase letter from its lowercase
/// counterpart.
pub const UPPERCASE_INDEX: u8 = 5;

/// Bit 5 of the byte is clear, which for a letter means uppercase.
pub open spec fn spec_is_uppercase(b: u8) -> bool {
    (b >> UPPERCASE_INDEX) & 1 == 0
}

/// Whether the byte is an ASCII letter, `A`-`Z` (65-90) or `a`-`z` (97-122).
pub open spec fn spec_is_ascii_alpha(b: u8) -> bool {
    (65 <= b && b <= 90) || (97 <= b && b <= 122)
}

/// On ASCII letters, the case bit agrees with the letter's case.
pub proof fn lemma_case_bit(b: u8)
    ensures
        65 <= b && b <= 90 ==> spec_is_uppercase(b),
        97 <= b && b <= 122 ==> !spec_is_uppercase(b),
{
    assert(65 <= b && b <= 90 ==> (b >> 5u8) & 1 == 0) by (bit_vector);
    assert(97 <= b && b <= 122 ==> (b >> 5u8) & 1 != 0) by (bit_vector);
}

/// Tests bit 5 of a byte: clear means the byte is an uppercase letter.
pub fn is_uppecase(value: u8) -> (r: bool)
    ensures
        r == spec_is_uppercase(value),
{
    (value >> UPPERCASE_INDEX) & 1 == 0
}

/// Tests whether the byte is an ASCII letter.
fn is_ascii_alpha(b: u8) -> (r: bool)
    ensures
        r == spec_is_ascii_alpha(b),
{
    (b >= 65 && b <= 90) || (b >= 97 && b <= 122)
}

impl ChunkType {
    /// Wraps four raw code bytes. Always succeeds; byte-based construction
    /// is trusted to come from an ASCII-producing source and is not
    /// re-validated here.
    pub fn from_bytes(bytes: [u8; 4]) -> (r: ChunkType)
        ensures
            r@ == bytes@,
    {
        let r = ChunkType { val: u32_from_be_array(bytes) };
        proof {
            lemma_u32_be_bytes_round_trip(bytes@);
        }
        r
    }

    /// Builds a code from text: the string must be exactly 4 bytes, all of
    /// them ASCII letters.
    pub fn from_text(s: &str) -> (r: Result<ChunkType, PngError>)
        ensures
            match r {
                Ok(ct) => {
                    &&& s.spec_bytes().len() == 4
                    &&& forall|i: int|
                        0 <= i < 4 ==> spec_is_ascii_alpha(#[trigger] s.spec_bytes()[i])
                    &&& ct@ == s.spec_bytes()
                },
                Err(e) => match e {
                    PngError::InvalidFormat => s.spec_bytes().len() != 4,
                    PngError::InvalidCharacter => {
                        &&& s.spec_bytes().len() == 4
                        &&& exists|i: int|
                            0 <= i < 4 && !spec_is_ascii_alpha(#[trigger] s.spec_bytes()[i])
                    },
                    _ => false,
                },
            },
    {
        let b = s.as_bytes();
        if b.len() != 4 {
            return Err(PngError::InvalidFormat);
        }
        if !(is_ascii_alpha(b[0]) && is_ascii_alpha(b[1]) && is_ascii_alpha(b[2]) && is_ascii_alpha(
            b[3],
        )) {
            return Err(PngError::InvalidCharacter);
        }
        let r = ChunkType::from_bytes([b[0], b[1], b[2], b[3]]);
        proof {
            assert(r@ =~= s.spec_bytes());
        }
        Ok(r)
    }

    /// The four code bytes, exactly as stored.
    pub fn bytes(&self) -> (r: [u8; 4])
        ensures
            r@ == self@,
    {
        u32_to_be_array(self.val)
    }

    /// The code rendered as text. For the ASCII codes this library builds it
    /// is the four letters; for arbitrary byte-built codes the rendering is
    /// diagnostic only.
    pub fn to_text(&self) -> (r: String)
        ensures
            valid_utf8(self@) ==> r@ == decode_utf8(self@),
    {
        let b = self.bytes();
        let mut v: Vec<u8> = Vec::new();
        v.push(b[0]);
        v.push(b[1]);
        v.push(b[2]);
        v.push(b[3]);
        proof {
            assert(v@ =~= self@);
        }
        match utf8_to_string(v) {
            Some(s) => s,
            None => "????".to_owned(),
        }
    }

    /// Overall validity of the code; per the format's convention used here it
    /// is the reserved bit alone.
    pub fn is_valid(&self) -> (r: bool)
        ensures
            r == spec_is_uppercase(self@[2]),
    {
        self.is_reserved_bit_valid()
    }

    /// Byte 0 uppercase: the chunk is required for correct rendering.
    pub fn is_critical(&self) -> (r: bool)
        ensures
            r == spec_is_uppercase(self@[0]),
    {
        is_uppecase(self.bytes()[0])
    }

    /// Byte 1 uppercase: the chunk type is part of the public standard.
    pub fn is_public(&self) -> (r: bool)
        ensures
            r == spec_is_uppercase(self@[1]),
    {
        is_uppecase(self.bytes()[1])
    }

    /// Byte 2 uppercase: the reserved bit is in its valid state.
    pub fn is_reserved_bit_valid(&self) -> (r: bool)
        ensures
            r == spec_is_uppercase(self@[2]),
    {
        is_uppecase(self.bytes()[2])
    }

    /// Byte 3 lowercase: the chunk is safe to copy by editors.
    pub fn is_safe_to_copy(&self) -> (r: bool)
        ensures
            r == !spec_is_uppercase(self@[3]),
    {
        !is_uppecase(self.bytes()[3])
    }
}

/// Compares a byte string against the four bytes of a chunk type code.
pub fn type_matches(tb: &[u8], ct: &ChunkType) -> (r: bool)
    ensures
        r == (ct@ == tb@),
{
    if tb.len() != 4 {
        proof {
            assert(ct@.len() == 4);
        }
        return false;
    }
    let b = ct.bytes();
    let r = tb[0] == b[0] && tb[1] == b[1] && tb[2] == b[2] && tb[3] == b[3];
    proof {
        if r {
            assert(tb@ =~= ct@);
        } else {
            assert(tb@ != ct@);
        }
    }
    r
}

} // verus!
