//! The container: the fixed signature and the chunks behind it, in file
//! order.

use vstd::prelude::*;
use vstd::slice::slice_subrange;
use vstd::string::StringSliceAdditionalSpecFns;
use crate::chunk::{
    chunk_decoding, chunk_encoding, chunk_rendering, lemma_decoding_of_encoding, lemma_encoding_of_decoding,
    storable, Chunk, ChunkError, ChunkView,
};

verus! {

/// Why a buffer is not a PNG file, or why a chunk could not be removed.
#[derive(Debug, Clone, Copy, PartialEq, Eq, Structural)]
pub enum PngError {
    /// The buffer does not start with the eight signature bytes.
    BadSignature,
    /// Some chunk behind the signature does not decode.
    InvalidChunk(ChunkError),
    /// No chunk has the type code asked for.
    ChunkNotFound,
}

/// The eight bytes that every PNG file starts with.
pub open spec fn signature() -> Seq<u8> {
    seq![137u8, 80u8, 78u8, 71u8, 13u8, 10u8, 26u8, 10u8]
}

/// The models of a run of chunks.
pub open spec fn views(cs: Seq<Chunk>) -> Seq<ChunkView> {
    cs.map_values(|c: Chunk| c@)
}

/// The encodings of the chunks, one behind the other.
pub open spec fn chunks_encoding(cs: Seq<ChunkView>) -> Seq<u8>
    decreases cs.len(),
{
    if cs.len() == 0 {
        Seq::empty()
    } else {
        chunks_encoding(cs.drop_last()) + chunk_encoding(cs.last())
    }
}

/// The bytes of a file: signature, then the chunks.
pub open spec fn png_encoding(cs: Seq<ChunkView>) -> Seq<u8> {
    signature() + chunks_encoding(cs)
}

/// What reading chunk after chunk gives, until `buf` is used up or a chunk
/// fails to decode.
pub open spec fn chunks_decoding(buf: Seq<u8>) -> Result<Seq<ChunkView>, ChunkError>
    decreases buf.len(),
{
    if buf.len() == 0 {
        Ok(Seq::empty())
    } else {
        match chunk_decoding(buf) {
            Err(e) => Err(e),
            Ok(v) => match chunks_decoding(buf.skip(12 + v.data.len() as int)) {
                Err(e) => Err(e),
                Ok(rest) => Ok(seq![v] + rest),
            },
        }
    }
}

/// What reading a whole file gives.
pub open spec fn png_decoding(buf: Seq<u8>) -> Result<Seq<ChunkView>, PngError> {
    if buf.len() < 8 || buf.subrange(0, 8) != signature() {
        Err(PngError::BadSignature)
    } else {
        match chunks_decoding(buf.skip(8)) {
            Err(e) => Err(PngError::InvalidChunk(e)),
            Ok(cs) => Ok(cs),
        }
    }
}

/// How the chunks are shown to a reader: one after the other.
pub open spec fn chunks_rendering(cs: Seq<ChunkView>) -> Seq<char>
    decreases cs.len(),
{
    if cs.len() == 0 {
        Seq::empty()
    } else {
        chunks_rendering(cs.drop_last()) + chunk_rendering(cs.last())
    }
}

/// `i` is the place of the first chunk of type `kind`.
pub open spec fn is_first_of_kind(cs: Seq<ChunkView>, kind: Seq<u8>, i: int) -> bool {
    &&& 0 <= i < cs.len()
    &&& cs[i].kind == kind
    &&& forall|j: int| 0 <= j < i ==> (#[trigger] cs[j]).kind != kind
}

/// A run has at most one first chunk of a type, and none where it lacks
/// the type: which chunk a lookup or a removal picks is settled.
pub proof fn lemma_first_of_kind_unique(cs: Seq<ChunkView>, kind: Seq<u8>, i: int, j: int)
    requires
        is_first_of_kind(cs, kind, i),
        is_first_of_kind(cs, kind, j),
    ensures
        i == j,
        !lacks_kind(cs, kind),
{
    if i < j {
        assert(cs[i].kind != kind);
    }
    if j < i {
        assert(cs[j].kind != kind);
    }
}

/// No chunk is of type `kind`.
pub open spec fn lacks_kind(cs: Seq<ChunkView>, kind: Seq<u8>) -> bool {
    forall|j: int| 0 <= j < cs.len() ==> (#[trigger] cs[j]).kind != kind
}

/// `front`, then what `r` holds; the error of `r` where it is one.
pub open spec fn prepend(front: Seq<ChunkView>, r: Result<Seq<ChunkView>, ChunkError>) -> Result<
    Seq<ChunkView>,
    ChunkError,
> {
    match r {
        Ok(rest) => Ok(front + rest),
        Err(e) => Err(e),
    }
}

/// Every chunk of the run is storable.
pub open spec fn all_storable(cs: Seq<ChunkView>) -> bool {
    forall|i: int| 0 <= i < cs.len() ==> storable(#[trigger] cs[i])
}

/// The encoding of a run is that of its first chunk, then that of the rest.
pub proof fn lemma_chunks_encoding_front(v: ChunkView, rest: Seq<ChunkView>)
    ensures
        chunks_encoding(seq![v] + rest) == chunk_encoding(v) + chunks_encoding(rest),
    decreases rest.len(),
{
    let all = seq![v] + rest;
    if rest.len() == 0 {
        assert(all.drop_last() =~= Seq::<ChunkView>::empty());
        assert(rest =~= Seq::<ChunkView>::empty());
        assert(all.last() == v);
        assert(chunks_encoding(Seq::<ChunkView>::empty()) =~= Seq::<u8>::empty());
        assert(chunks_encoding(all) =~= chunk_encoding(v) + chunks_encoding(rest));
    } else {
        assert(all.drop_last() =~= seq![v] + rest.drop_last());
        assert(all.last() == rest.last());
        lemma_chunks_encoding_front(v, rest.drop_last());
        assert(chunks_encoding(all) =~= chunk_encoding(v) + chunks_encoding(rest));
    }
}

/// Reading the encodings of storable chunks gives the chunks back, in order.
pub proof fn lemma_chunks_decoding_of_encoding(cs: Seq<ChunkView>)
    requires
        all_storable(cs),
    ensures
        chunks_decoding(chunks_encoding(cs)) == Ok::<Seq<ChunkView>, ChunkError>(cs),
    decreases cs.len(),
{
    if cs.len() == 0 {
        assert(cs =~= Seq::<ChunkView>::empty());
    } else {
        let v = cs[0];
        let tail = cs.drop_first();
        assert(cs =~= seq![v] + tail);
        lemma_chunks_encoding_front(v, tail);
        let rest = chunks_encoding(tail);
        let buf = chunk_encoding(v) + rest;
        lemma_decoding_of_encoding(v, rest);
        assert(buf.skip(12 + v.data.len() as int) =~= rest);
        assert(all_storable(tail)) by {
            assert forall|i: int| 0 <= i < tail.len() implies storable(#[trigger] tail[i]) by {
                assert(tail[i] == cs[i + 1]);
            }
        }
        lemma_chunks_decoding_of_encoding(tail);
    }
}

/// Decoding the encoding of a file gives its chunks back, in order, where
/// every chunk is storable.
pub proof fn lemma_png_decoding_of_encoding(cs: Seq<ChunkView>)
    requires
        all_storable(cs),
    ensures
        png_decoding(png_encoding(cs)) == Ok::<Seq<ChunkView>, PngError>(cs),
{
    let buf = png_encoding(cs);
    assert(buf.subrange(0, 8) =~= signature());
    assert(buf.skip(8) =~= chunks_encoding(cs));
    lemma_chunks_decoding_of_encoding(cs);
}

/// Where a run of bytes reads as chunks, the chunks are storable and their
/// encoding is that run, byte for byte.
pub proof fn lemma_chunks_encoding_of_decoding(buf: Seq<u8>)
    requires
        chunks_decoding(buf) is Ok,
    ensures
        all_storable(chunks_decoding(buf)->Ok_0),
        chunks_encoding(chunks_decoding(buf)->Ok_0) == buf,
    decreases buf.len(),
{
    if buf.len() == 0 {
        assert(chunks_encoding(Seq::<ChunkView>::empty()) =~= buf);
    } else {
        let v = chunk_decoding(buf)->Ok_0;
        lemma_encoding_of_decoding(buf);
        let k = 12 + v.data.len() as int;
        let after = buf.skip(k);
        let rest = chunks_decoding(after)->Ok_0;
        lemma_chunks_encoding_of_decoding(after);
        lemma_chunks_encoding_front(v, rest);
        assert(buf.subrange(0, k) + after =~= buf);
        let cs = seq![v] + rest;
        assert forall|i: int| 0 <= i < cs.len() implies storable(#[trigger] cs[i]) by {
            if i > 0 {
                assert(cs[i] == rest[i - 1]);
            }
        }
    }
}

/// Encoding what a file decodes to gives the file back, byte for byte.
pub proof fn lemma_png_encoding_of_decoding(buf: Seq<u8>)
    requires
        png_decoding(buf) is Ok,
    ensures
        all_storable(png_decoding(buf)->Ok_0),
        png_encoding(png_decoding(buf)->Ok_0) == buf,
{
    lemma_chunks_encoding_of_decoding(buf.skip(8));
    assert(buf.subrange(0, 8) + buf.skip(8) =~= buf);
}

/// A storable chunk put behind the chunks of a file that decodes is there
/// after encoding and decoding again: last, unchanged, behind the others.
pub proof fn lemma_appended_chunk_reads_back(buf: Seq<u8>, c: ChunkView)
    requires
        png_decoding(buf) is Ok,
        storable(c),
    ensures
        png_decoding(png_encoding(png_decoding(buf)->Ok_0.push(c))) == Ok::<
            Seq<ChunkView>,
            PngError,
        >(png_decoding(buf)->Ok_0.push(c)),
{
    lemma_png_encoding_of_decoding(buf);
    let cs = png_decoding(buf)->Ok_0;
    assert(all_storable(cs.push(c))) by {
        assert forall|i: int| 0 <= i < cs.push(c).len() implies storable(
            #[trigger] cs.push(c)[i],
        ) by {
            if i < cs.len() {
                assert(cs.push(c)[i] == cs[i]);
            }
        }
    }
    lemma_png_decoding_of_encoding(cs.push(c));
}

fn has_signature(bytes: &[u8]) -> (r: bool)
    ensures
        r == (bytes@.len() >= 8 && bytes@.subrange(0, 8) == signature()),
{
    if bytes.len() < 8 {
        return false;
    }
    let r = bytes[0] == 137 && bytes[1] == 80 && bytes[2] == 78 && bytes[3] == 71 && bytes[4] == 13
        && bytes[5] == 10 && bytes[6] == 26 && bytes[7] == 10;
    proof {
        let front = bytes@.subrange(0, 8);
        if r {
            assert(front =~= signature());
        } else {
            assert(front[0] == bytes[0] && front[1] == bytes[1] && front[2] == bytes[2]
                && front[3] == bytes[3] && front[4] == bytes[4] && front[5] == bytes[5]
                && front[6] == bytes[6] && front[7] == bytes[7]);
        }
    }
    r
}

fn kind_matches(c: &Chunk, wanted: &[u8]) -> (r: bool)
    ensures
        r == (c@.kind == wanted@),
{
    let b = c.chunk_type().bytes();
    if wanted.len() != 4 {
        return false;
    }
    let r = b[0] == wanted[0] && b[1] == wanted[1] && b[2] == wanted[2] && b[3] == wanted[3];
    proof {
        if r {
            assert(c@.kind =~= wanted@);
        }
    }
    r
}

/// A PNG file in memory: the chunks behind the signature, in file order.
#[derive(Debug)]
pub struct Png {
    chunks: Vec<Chunk>,
}

impl View for Png {
    type V = Seq<ChunkView>;

    closed spec fn view(&self) -> Seq<ChunkView> {
        views(self.chunks@)
    }
}

impl Png {
    /// A file of the given chunks, in the given order.
    pub fn from_chunks(chunks: Vec<Chunk>) -> (r: Png)
        ensures
            r@ == views(chunks@),
    {
        Png { chunks }
    }

    /// Puts `chunk` behind all others.
    pub fn append_chunk(&mut self, chunk: Chunk)
        ensures
            final(self)@ == old(self)@.push(chunk@),
    {
        self.chunks.push(chunk);
        assert(views(self.chunks@) =~= views(old(self).chunks@).push(chunk@));
    }

    fn position(&self, wanted: &[u8]) -> (r: Option<usize>)
        ensures
            match r {
                Some(i) => i < self.chunks@.len() && is_first_of_kind(self@, wanted@, i as int),
                None => lacks_kind(self@, wanted@),
            },
    {
        let mut i: usize = 0;
        while i < self.chunks.len()
            invariant
                i <= self.chunks@.len(),
                forall|j: int| 0 <= j < i ==> (#[trigger] self@[j]).kind != wanted@,
            decreases self.chunks@.len() - i,
        {
            if kind_matches(&self.chunks[i], wanted) {
                return Some(i);
            }
            i += 1;
        }
        None
    }

    /// Takes out the first chunk whose type code is `chunk_type` and hands
    /// it over; the others keep their order. Where there is none, the file
    /// stays as it is.
    pub fn remove_chunk(&mut self, chunk_type: &str) -> (r: Result<Chunk, PngError>)
        ensures
            match r {
                Ok(c) => exists|i: int|
                    #[trigger] is_first_of_kind(old(self)@, chunk_type.spec_bytes(), i) && c@ == old(self)@[i]
                        && final(self)@ == old(self)@.remove(i),
                Err(e) => e == PngError::ChunkNotFound && lacks_kind(
                    old(self)@,
                    chunk_type.spec_bytes(),
                ) && final(self)@ == old(self)@,
            },
    {
        match self.position(chunk_type.as_bytes()) {
            Some(i) => {
                let c = self.chunks.remove(i);
                proof {
                    assert(views(self.chunks@) =~= views(old(self).chunks@).remove(i as int));
                    assert(is_first_of_kind(old(self)@, chunk_type.spec_bytes(), i as int));
                }
                Ok(c)
            },
            None => Err(PngError::ChunkNotFound),
        }
    }

    /// The first chunk whose type code is `chunk_type`, if there is one.
    pub fn chunk_by_type(&self, chunk_type: &str) -> (r: Option<&Chunk>)
        ensures
            match r {
                Some(c) => exists|i: int|
                    #[trigger] is_first_of_kind(self@, chunk_type.spec_bytes(), i) && c@ == self@[i],
                None => lacks_kind(self@, chunk_type.spec_bytes()),
            },
    {
        match self.position(chunk_type.as_bytes()) {
            Some(i) => {
                let c = &self.chunks[i];
                proof {
                    assert(is_first_of_kind(self@, chunk_type.spec_bytes(), i as int));
                }
                Some(c)
            },
            None => None,
        }
    }

    /// The chunks, in file order.
    pub fn chunks(&self) -> (r: &[Chunk])
        ensures
            views(r@) == self@,
    {
        self.chunks.as_slice()
    }

    /// The signature bytes.
    pub fn header(&self) -> (r: [u8; 8])
        ensures
            r@ == signature(),
    {
        let r: [u8; 8] = [137, 80, 78, 71, 13, 10, 26, 10];
        assert(r@ =~= signature());
        r
    }

    /// The file's bytes: the signature, then each chunk's encoding.
    pub fn as_bytes(&self) -> (r: Vec<u8>)
        ensures
            r@ == png_encoding(self@),
    {
        let mut out: Vec<u8> = Vec::new();
        let sig = self.header();
        out.extend_from_slice(sig.as_slice());
        let mut i: usize = 0;
        assert(self@.take(0) =~= Seq::<ChunkView>::empty());
        while i < self.chunks.len()
            invariant
                i <= self.chunks@.len(),
                out@ == signature() + chunks_encoding(self@.take(i as int)),
            decreases self.chunks@.len() - i,
        {
            let enc = self.chunks[i].as_bytes();
            out.extend_from_slice(enc.as_slice());
            proof {
                let next = self@.take(i + 1);
                assert(next.drop_last() =~= self@.take(i as int));
                assert(next.last() == self@[i as int]);
                assert(out@ =~= signature() + chunks_encoding(next));
            }
            i += 1;
        }
        assert(self@.take(i as int) =~= self@);
        out
    }

    /// The chunk list as shown to a reader.
    pub fn to_string(&self) -> (r: String)
        ensures
            r@ == chunks_rendering(self@),
    {
        let mut out = String::new();
        let mut i: usize = 0;
        assert(self@.take(0) =~= Seq::<ChunkView>::empty());
        assert(out@ =~= chunks_rendering(self@.take(0)));
        while i < self.chunks.len()
            invariant
                i <= self.chunks@.len(),
                out@ == chunks_rendering(self@.take(i as int)),
            decreases self.chunks@.len() - i,
        {
            let shown = self.chunks[i].to_string();
            out.push_str(shown.as_str());
            proof {
                let next = self@.take(i + 1);
                assert(next.drop_last() =~= self@.take(i as int));
                assert(next.last() == self@[i as int]);
            }
            i += 1;
        }
        assert(self@.take(i as int) =~= self@);
        out
    }

    /// Reads a whole file: the signature, then chunk after chunk until the
    /// buffer is used up. The result is `png_decoding` of the buffer, error
    /// for error; nothing is kept of a file with a chunk that fails.
    pub fn try_from(bytes: &[u8]) -> (r: Result<Png, PngError>)
        ensures
            match r {
                Ok(p) => png_decoding(bytes@) == Ok::<Seq<ChunkView>, PngError>(p@),
                Err(e) => png_decoding(bytes@) == Err::<Seq<ChunkView>, PngError>(e),
            },
    {
        if !has_signature(bytes) {
            return Err(PngError::BadSignature);
        }
        let total = bytes.len();
        let mut pos: usize = 8;
        let mut chunks: Vec<Chunk> = Vec::new();
        assert(views(chunks@) + Seq::<ChunkView>::empty() =~= Seq::<ChunkView>::empty());
        while pos < total
            invariant
                8 <= pos <= total,
                total == bytes@.len(),
                bytes@.subrange(0, 8) == signature(),
                chunks_decoding(bytes@.skip(8)) == prepend(
                    views(chunks@),
                    chunks_decoding(bytes@.skip(pos as int)),
                ),
            decreases total - pos,
        {
            let rest = slice_subrange(bytes, pos, total);
            assert(rest@ =~= bytes@.skip(pos as int));
            match Chunk::try_from(rest) {
                Err(e) => {
                    assert(chunks_decoding(rest@) == Err::<Seq<ChunkView>, ChunkError>(e));
                    return Err(PngError::InvalidChunk(e));
                },
                Ok(c) => {
                    let n = c.length() as usize;
                    proof {
                        lemma_encoding_of_decoding(rest@);
                        let k = 12 + n as int;
                        assert(rest@.skip(k) =~= bytes@.skip(pos + k));
                        let later = chunks_decoding(bytes@.skip(pos + k));
                        let acc = views(chunks@);
                        assert(views(chunks@.push(c)) =~= acc.push(c@));
                        if let Ok(tail) = later {
                            assert(acc + (seq![c@] + tail) =~= acc.push(c@) + tail);
                        }
                    }
                    pos = pos + 12 + n;
                    chunks.push(c);
                },
            }
        }
        assert(bytes@.skip(pos as int) =~= Seq::<u8>::empty());
        assert(views(chunks@) + Seq::<ChunkView>::empty() =~= views(chunks@));
        Ok(Png { chunks })
    }
}

impl<'a> TryFrom<&'a [u8]> for Png {
    type Error = PngError;

    /// As the method of the same name on the type itself.
    fn try_from(bytes: &'a [u8]) -> (r: Result<Png, PngError>)
        ensures
            match r {
                Ok(p) => png_decoding(bytes@) == Ok::<Seq<ChunkView>, PngError>(p@),
                Err(e) => png_decoding(bytes@) == Err::<Seq<ChunkView>, PngError>(e),
            },
    {
        Png::try_from(bytes)
    }
}

impl<'a> vstd::std_specs::convert::TryFromSpecImpl<&'a [u8]> for Png {
    open spec fn obeys_try_from_spec() -> bool {
        false
    }

    open spec fn try_from_spec(bytes: &'a [u8]) -> Result<Png, PngError> {
        arbitrary()
    }
}

} // verus!
