//! The container: an ordered sequence of chunks behind the fixed signature.

use vstd::prelude::*;
use vstd::string::StringSliceAdditionalSpecFns;
use crate::PngError;
use crate::chunk::{
    Chunk,
    ChunkView,
    lemma_parse_one_layout,
    spec_chunk_view_wf,
    spec_parse_one,
    spec_serialize_chunk,
};
use crate::chunk_type::type_matches;
use crate::wire::{signature_bytes, spec_signature, spec_u32_to_be_bytes};

verus! {

/// The contents of a sequence of chunks.
pub open spec fn spec_chunks_view(s: Seq<Chunk>) -> Seq<ChunkView> {
    s.map_values(|c: Chunk| c@)
}

/// Parses a byte stream as consecutive chunks until it is exhausted,
/// propagating the first chunk-level error.
pub open spec fn spec_parse_chunks(bytes: Seq<u8>) -> Result<Seq<ChunkView>, PngError>
    decreases bytes.len(),
{
    if bytes.len() == 0 {
        Ok(Seq::empty())
    } else {
        match spec_parse_one(bytes) {
            Err(e) => Err(e),
            Ok((cv, n)) => match spec_parse_chunks(bytes.skip(n)) {
                Ok(rest) => Ok(seq![cv] + rest),
                Err(e) => Err(e),
            },
        }
    }
}

/// The concatenated on-wire bytes of a sequence of chunk contents.
pub open spec fn spec_serialize_chunks(cvs: Seq<ChunkView>) -> Seq<u8>
    decreases cvs.len(),
{
    if cvs.len() == 0 {
        Seq::empty()
    } else {
        spec_serialize_chunk(cvs[0]) + spec_serialize_chunks(cvs.skip(1))
    }
}

/// The index of the first chunk content whose type code bytes equal `t`, or
/// -1 when none does.
pub open spec fn spec_first_match(cvs: Seq<ChunkView>, t: Seq<u8>) -> int
    decreases cvs.len(),
{
    if cvs.len() == 0 {
        -1
    } else if cvs[0].type_bytes == t {
        0
    } else {
        let r = spec_first_match(cvs.skip(1), t);
        if r < 0 {
            -1
        } else {
            1 + r
        }
    }
}

/// What `spec_first_match` finds: -1 exactly when no chunk content matches,
/// and otherwise the lowest matching index.
pub proof fn lemma_first_match_characterizes(cvs: Seq<ChunkView>, t: Seq<u8>)
    ensures
        spec_first_match(cvs, t) == -1 <==> (forall|k: int|
            0 <= k < cvs.len() ==> (#[trigger] cvs[k]).type_bytes != t),
        spec_first_match(cvs, t) >= 0 ==> {
            let idx = spec_first_match(cvs, t);
            &&& idx < cvs.len()
            &&& cvs[idx].type_bytes == t
            &&& forall|k: int| 0 <= k < idx ==> (#[trigger] cvs[k]).type_bytes != t
        },
    decreases cvs.len(),
{
    if cvs.len() > 0 && cvs[0].type_bytes != t {
        lemma_first_match_characterizes(cvs.skip(1), t);
        assert(forall|k: int|
            1 <= k < cvs.len() ==> (#[trigger] cvs[k]).type_bytes == cvs.skip(1)[k - 1].type_bytes);
    }
}

/// A sequence of chunks appended to keeps its contents and gains one.
proof fn lemma_view_push(s: Seq<Chunk>, c: Chunk)
    ensures
        spec_chunks_view(s.push(c)) == spec_chunks_view(s).push(c@),
{
    assert(spec_chunks_view(s.push(c)) =~= spec_chunks_view(s).push(c@));
}

/// Removing a chunk removes exactly its content.
proof fn lemma_view_remove(s: Seq<Chunk>, i: int)
    requires
        0 <= i < s.len(),
    ensures
        spec_chunks_view(s.remove(i)) == spec_chunks_view(s).remove(i),
{
    assert(spec_chunks_view(s.remove(i)) =~= spec_chunks_view(s).remove(i));
}

/// A container: the ordered sequence of chunks of one file, in on-disk
/// order. Its view is the sequence of its chunks' contents.
#[derive(Debug)]
pub struct Png {
    chunks: Vec<Chunk>,
}

impl View for Png {
    type V = Seq<ChunkView>;

    closed spec fn view(&self) -> Seq<ChunkView> {
        spec_chunks_view(self.chunks@)
    }
}

impl Png {
    /// Every chunk held satisfies the chunk invariant.
    pub closed spec fn wf(&self) -> bool {
        forall|i: int| 0 <= i < self.chunks@.len() ==> (#[trigger] self.chunks@[i]).wf()
    }

    /// A well-formed container holds only well-formed chunk contents.
    pub proof fn lemma_wf_view(&self)
        requires
            self.wf(),
        ensures
            forall|i: int| 0 <= i < self@.len() ==> spec_chunk_view_wf(#[trigger] self@[i]),
    {
        assert forall|i: int| 0 <= i < self@.len() implies spec_chunk_view_wf(#[trigger] self@[i]) by {
            crate::chunk::lemma_chunk_wf_view(self.chunks@[i]);
        }
    }

    /// Wraps an ordered sequence of chunks directly.
    pub fn new(chunks: Vec<Chunk>) -> (p: Png)
        ensures
            p@ == spec_chunks_view(chunks@),
            (forall|i: int| 0 <= i < chunks@.len() ==> (#[trigger] chunks@[i]).wf()) ==> p.wf(),
    {
        Png { chunks }
    }

    /// The chunks held, in sequence order.
    pub fn chunks(&self) -> (r: &Vec<Chunk>)
        ensures
            spec_chunks_view(r@) == self@,
            self.wf() ==> forall|i: int| 0 <= i < r@.len() ==> (#[trigger] r@[i]).wf(),
    {
        &self.chunks
    }

    /// Parses a whole byte buffer: the fixed signature, then consecutive
    /// chunks until the buffer is exhausted. Chunk-level failures propagate
    /// unchanged; leftover bytes too short for a chunk are a truncation.
    pub fn parse(value: &[u8]) -> (r: Result<Png, PngError>)
        ensures
            match r {
                Ok(p) => {
                    &&& value@.len() >= 8
                    &&& value@.subrange(0, 8) == spec_signature()
                    &&& spec_parse_chunks(value@.skip(8)) == Ok::<_, PngError>(p@)
                    &&& p.wf()
                },
                Err(e) => {
                    if value@.len() < 8 || value@.subrange(0, 8) != spec_signature() {
                        e == PngError::InvalidSignature
                    } else {
                        spec_parse_chunks(value@.skip(8)) == Err::<Seq<ChunkView>, PngError>(e)
                    }
                },
            },
    {
        if value.len() < 8 {
            return Err(PngError::InvalidSignature);
        }
        let sig = signature_bytes();
        let mut i: usize = 0;
        while i < 8
            invariant
                0 <= i <= 8,
                value@.len() >= 8,
                sig@ == spec_signature(),
                forall|k: int| 0 <= k < i ==> value@[k] == spec_signature()[k],
            decreases 8 - i,
        {
            if value[i] != sig[i] {
                proof {
                    assert(value@.subrange(0, 8)[i as int] != spec_signature()[i as int]);
                }
                return Err(PngError::InvalidSignature);
            }
            i = i + 1;
        }
        proof {
            assert(value@.subrange(0, 8) =~= spec_signature());
        }
        let mut chunks: Vec<Chunk> = Vec::new();
        let mut offset: usize = 8;
        while offset < value.len()
            invariant
                8 <= offset <= value@.len(),
                value@.subrange(0, 8) == spec_signature(),
                forall|k: int| 0 <= k < chunks@.len() ==> (#[trigger] chunks@[k]).wf(),
                ({
                    let whole = spec_parse_chunks(value@.skip(8));
                    let remaining = spec_parse_chunks(value@.skip(offset as int));
                    match remaining {
                        Ok(rest) => whole == Ok::<_, PngError>(spec_chunks_view(chunks@) + rest),
                        Err(e) => whole == Err::<Seq<ChunkView>, PngError>(e),
                    }
                }),
            decreases value@.len() - offset,
        {
            match Chunk::parse_at(value, offset) {
                Err(e) => {
                    proof {
                        assert(value@.skip(offset as int).len() > 0);
                        assert(spec_parse_chunks(value@.skip(offset as int)) == Err::<
                            Seq<ChunkView>,
                            PngError,
                        >(e));
                    }
                    return Err(e);
                },
                Ok((c, next)) => {
                    proof {
                        let bytes_off = value@.skip(offset as int);
                        let bytes_next = value@.skip(next as int);
                        assert(bytes_off.skip(next - offset) =~= bytes_next);
                        match spec_parse_chunks(bytes_next) {
                            Ok(rest) => {
                                assert(spec_parse_chunks(bytes_off) == Ok::<_, PngError>(
                                    seq![c@] + rest,
                                ));
                                lemma_view_push(chunks@, c);
                                assert(spec_chunks_view(chunks@) + (seq![c@] + rest)
                                    =~= spec_chunks_view(chunks@.push(c)) + rest);
                            },
                            Err(_e) => {},
                        }
                    }
                    chunks.push(c);
                    offset = next;
                },
            }
        }
        proof {
            assert(value@.skip(offset as int).len() == 0);
            assert(spec_parse_chunks(value@.skip(offset as int)) == Ok::<_, PngError>(
                Seq::<ChunkView>::empty(),
            ));
            assert(spec_chunks_view(chunks@) + Seq::<ChunkView>::empty() =~= spec_chunks_view(
                chunks@,
            ));
        }
        Ok(Png { chunks })
    }

    /// Adds a chunk at the end of the sequence; duplicate types are allowed.
    pub fn append_chunk(&mut self, chunk: Chunk)
        ensures
            final(self)@ == old(self)@.push(chunk@),
            old(self).wf() && chunk.wf() ==> final(self).wf(),
    {
        proof {
            lemma_view_push(self.chunks@, chunk);
        }
        self.chunks.push(chunk);
    }

    /// Removes and returns the first chunk, in sequence order, whose type
    /// code matches `target`. A failed removal leaves the container
    /// unchanged.
    pub fn remove_first_chunk(&mut self, target: &str) -> (r: Result<Chunk, PngError>)
        ensures
            ({
                let idx = spec_first_match(old(self)@, target.spec_bytes());
                match r {
                    Ok(c) => {
                        &&& idx >= 0
                        &&& c@ == old(self)@[idx]
                        &&& final(self)@ == old(self)@.remove(idx)
                        &&& old(self).wf() ==> c.wf() && final(self).wf()
                    },
                    Err(e) => {
                        &&& e == PngError::ChunkNotFound
                        &&& idx == -1
                        &&& final(self)@ == old(self)@
                    },
                }
            }),
    {
        let tb = target.as_bytes();
        let n = self.chunks.len();
        let mut i: usize = 0;
        while i < n
            invariant
                0 <= i <= n,
                n == self.chunks@.len(),
                self == old(self),
                tb@ == target.spec_bytes(),
                forall|k: int| 0 <= k < i ==> (#[trigger] self@[k]).type_bytes != tb@,
            decreases n - i,
        {
            if type_matches(tb, self.chunks[i].chunk_type()) {
                proof {
                    lemma_first_match_at(self@, tb@, i as int);
                    lemma_view_remove(self.chunks@, i as int);
                }
                let c = self.chunks.remove(i);
                return Ok(c);
            }
            i = i + 1;
        }
        proof {
            lemma_first_match_characterizes(self@, tb@);
        }
        Err(PngError::ChunkNotFound)
    }

    /// Finds the first chunk, in sequence order, whose type code matches
    /// `target`; absence is no error.
    pub fn chunk_by_type(&self, target: &str) -> (r: Option<&Chunk>)
        ensures
            ({
                let idx = spec_first_match(self@, target.spec_bytes());
                match r {
                    Some(c) => {
                        &&& idx >= 0
                        &&& c@ == self@[idx]
                        &&& self.wf() ==> c.wf()
                    },
                    None => idx == -1,
                }
            }),
    {
        let tb = target.as_bytes();
        let n = self.chunks.len();
        let mut i: usize = 0;
        while i < n
            invariant
                0 <= i <= n,
                n == self.chunks@.len(),
                tb@ == target.spec_bytes(),
                forall|k: int| 0 <= k < i ==> (#[trigger] self@[k]).type_bytes != tb@,
            decreases n - i,
        {
            if type_matches(tb, self.chunks[i].chunk_type()) {
                proof {
                    lemma_first_match_at(self@, tb@, i as int);
                }
                return Some(&self.chunks[i]);
            }
            i = i + 1;
        }
        proof {
            lemma_first_match_characterizes(self@, tb@);
        }
        None
    }

    /// The container's on-wire bytes: the fixed signature followed by each
    /// chunk's serialized form in sequence order.
    pub fn as_bytes(&self) -> (r: Vec<u8>)
        requires
            self.wf(),
        ensures
            r@ == spec_signature() + spec_serialize_chunks(self@),
    {
        let sig = signature_bytes();
        let mut out: Vec<u8> = Vec::new();
        out.push(sig[0]);
        out.push(sig[1]);
        out.push(sig[2]);
        out.push(sig[3]);
        out.push(sig[4]);
        out.push(sig[5]);
        out.push(sig[6]);
        out.push(sig[7]);
        proof {
            assert(out@ =~= spec_signature());
            assert(self@.take(0) =~= Seq::<ChunkView>::empty());
        }
        let n = self.chunks.len();
        let mut i: usize = 0;
        while i < n
            invariant
                0 <= i <= n,
                n == self.chunks@.len(),
                self.wf(),
                out@ == spec_signature() + spec_serialize_chunks(self@.take(i as int)),
            decreases n - i,
        {
            proof {
                assert(self.chunks@[i as int].wf());
            }
            let mut piece = self.chunks[i].as_bytes();
            proof {
                lemma_serialize_chunks_snoc(self@.take(i as int), self@[i as int]);
                assert(self@.take(i as int).push(self@[i as int]) =~= self@.take(i as int + 1));
            }
            out.append(&mut piece);
            i = i + 1;
        }
        proof {
            assert(self@.take(n as int) =~= self@);
        }
        out
    }
}

/// The index found by a scan from the front: a match at `i` with none
/// before it is the first match.
proof fn lemma_first_match_at(cvs: Seq<ChunkView>, t: Seq<u8>, i: int)
    requires
        0 <= i < cvs.len(),
        cvs[i].type_bytes == t,
        forall|k: int| 0 <= k < i ==> (#[trigger] cvs[k]).type_bytes != t,
    ensures
        spec_first_match(cvs, t) == i,
    decreases i,
{
    if i > 0 {
        assert(forall|k: int|
            0 <= k < i - 1 ==> (#[trigger] cvs.skip(1)[k]).type_bytes == cvs[k + 1].type_bytes);
        lemma_first_match_at(cvs.skip(1), t, i - 1);
    }
}

/// Serializing one more chunk content appends its bytes.
proof fn lemma_serialize_chunks_snoc(cvs: Seq<ChunkView>, cv: ChunkView)
    ensures
        spec_serialize_chunks(cvs.push(cv)) == spec_serialize_chunks(cvs) + spec_serialize_chunk(
            cv,
        ),
    decreases cvs.len(),
{
    if cvs.len() == 0 {
        assert(cvs.push(cv).skip(1) =~= Seq::<ChunkView>::empty());
        assert(cvs.push(cv)[0] == cv);
        assert(spec_serialize_chunks(Seq::<ChunkView>::empty()) == Seq::<u8>::empty());
        assert(spec_serialize_chunks(cvs.push(cv)) =~= spec_serialize_chunks(cvs)
            + spec_serialize_chunk(cv));
    } else {
        assert(cvs.push(cv).skip(1) =~= cvs.skip(1).push(cv));
        lemma_serialize_chunks_snoc(cvs.skip(1), cv);
        assert(spec_serialize_chunks(cvs.push(cv)) == spec_serialize_chunk(cvs[0]) + (
        spec_serialize_chunks(cvs.skip(1)) + spec_serialize_chunk(cv)));
        assert(spec_serialize_chunk(cvs[0]) + (spec_serialize_chunks(cvs.skip(1))
            + spec_serialize_chunk(cv)) =~= (spec_serialize_chunk(cvs[0])
            + spec_serialize_chunks(cvs.skip(1))) + spec_serialize_chunk(cv));
    }
}

/// Parsing the serialized form of well-formed chunk contents recovers
/// exactly those contents.
#[verifier::rlimit(50)]
proof fn lemma_parse_serialize_chunks(cvs: Seq<ChunkView>)
    requires
        forall|i: int| 0 <= i < cvs.len() ==> spec_chunk_view_wf(#[trigger] cvs[i]),
    ensures
        spec_parse_chunks(spec_serialize_chunks(cvs)) == Ok::<_, PngError>(cvs),
    decreases cvs.len(),
{
    if cvs.len() == 0 {
        assert(Seq::<ChunkView>::empty() =~= cvs);
    } else {
        let head = cvs[0];
        let rest = cvs.skip(1);
        let tail_bytes = spec_serialize_chunks(rest);
        let whole = spec_serialize_chunks(cvs);
        lemma_parse_one_layout(head.type_bytes, head.data, head.crc, tail_bytes);
        assert(whole == spec_serialize_chunk(head) + tail_bytes);
        assert(whole =~= spec_u32_to_be_bytes(head.data.len() as u32) + head.type_bytes + head.data
            + spec_u32_to_be_bytes(head.crc) + tail_bytes);
        assert(ChunkView { type_bytes: head.type_bytes, data: head.data, crc: head.crc } =~= head);
        assert(spec_parse_one(whole) == Ok::<_, PngError>((head, 12 + head.data.len() as int)));
        assert(whole.len() == 12 + head.data.len() + tail_bytes.len());
        assert(whole.skip(12 + head.data.len() as int) =~= tail_bytes);
        lemma_parse_serialize_chunks(rest);
        assert(seq![head] + rest =~= cvs);
    }
}

/// Removal law: after appending a chunk content whose type no held chunk
/// matches, removing by that type finds exactly the appended content, at the
/// last index, and removing it restores the previous contents; before the
/// append (or after the removal) a removal by that type finds nothing.
pub proof fn lemma_append_then_remove(cvs: Seq<ChunkView>, cv: ChunkView)
    requires
        forall|k: int| 0 <= k < cvs.len() ==> (#[trigger] cvs[k]).type_bytes != cv.type_bytes,
    ensures
        spec_first_match(cvs.push(cv), cv.type_bytes) == cvs.len(),
        cvs.push(cv)[cvs.len() as int] == cv,
        cvs.push(cv).remove(cvs.len() as int) == cvs,
        spec_first_match(cvs, cv.type_bytes) == -1,
{
    lemma_first_match_at(cvs.push(cv), cv.type_bytes, cvs.len() as int);
    lemma_first_match_characterizes(cvs, cv.type_bytes);
    assert(cvs.push(cv).remove(cvs.len() as int) =~= cvs);
}

/// Round-trip law: serializing a container and parsing the bytes back
/// reproduces the same ordered chunk sequence.
pub proof fn lemma_container_round_trip(p: Png)
    requires
        p.wf(),
    ensures
        ({
            let bytes = spec_signature() + spec_serialize_chunks(p@);
            &&& bytes.len() >= 8
            &&& bytes.subrange(0, 8) == spec_signature()
            &&& spec_parse_chunks(bytes.skip(8)) == Ok::<_, PngError>(p@)
        }),
{
    let bytes = spec_signature() + spec_serialize_chunks(p@);
    assert(bytes.subrange(0, 8) =~= spec_signature());
    assert(bytes.skip(8) =~= spec_serialize_chunks(p@));
    p.lemma_wf_view();
    lemma_parse_serialize_chunks(p@);
}

} // verus!
