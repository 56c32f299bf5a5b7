//! One chunk: a length-prefixed, type-tagged, checksummed record, and its
//! exact byte layout.

use vstd::prelude::*;
use vstd::slice::{slice_subrange, slice_to_vec};
use vstd::utf8::{decode_utf8, valid_utf8};
use crate::chunk_type::{bytes_verdict, four_letters, ChunkType, ChunkTypeError};
use crate::text::{decimal, decimal_text};

verus! {

/// The CRC-32/ISO-HDLC checksum of a run of bytes, as the `crc` crate
/// computes it.
pub uninterp spec fn crc32_iso_hdlc(bytes: Seq<u8>) -> u32;

/// `crc::Crc::<u32>::checksum` for the algorithm `crc::CRC_32_ISO_HDLC`:
/// the result depends on the bytes alone and is named `crc32_iso_hdlc`.
#[verifier::external_body]
fn checksum(bytes: &[u8]) -> (r: u32)
    ensures
        r == crc32_iso_hdlc(bytes@),
{
    crc::Crc::<u32>::new(&crc::CRC_32_ISO_HDLC).checksum(bytes)
}

/// Why a buffer does not hold a chunk.
#[derive(Debug, Clone, Copy, PartialEq, Eq, Structural)]
pub enum ChunkError {
    /// Fewer than four bytes: no length.
    LengthByteRead,
    /// The buffer ends inside the type code.
    ChunkTypeByteRead,
    /// The buffer ends inside the payload.
    DataByteRead,
    /// The buffer ends inside the checksum.
    CrcByteRead,
    /// The stored checksum is not that of type code and payload.
    CrcMismatch,
    /// The four type bytes are not a valid type code.
    ChunkTypeError(ChunkTypeError),
}

/// The payload was asked for as text and is not UTF-8.
#[derive(Debug, Clone, Copy, PartialEq, Eq, Structural)]
pub enum EncodingError {
    InvalidUtf8,
}

/// What a chunk is: its type code and its payload. Length and checksum
/// follow from these two.
pub struct ChunkView {
    pub kind: Seq<u8>,
    pub data: Seq<u8>,
}

/// The number whose big-endian bytes are `b0 b1 b2 b3`.
pub open spec fn be_value(b0: u8, b1: u8, b2: u8, b3: u8) -> u32 {
    ((b0 as u32) << 24) | ((b1 as u32) << 16) | ((b2 as u32) << 8) | (b3 as u32)
}

/// The number that the first four bytes of `s` spell, big-endian.
pub open spec fn from_be(s: Seq<u8>) -> u32 {
    be_value(s[0], s[1], s[2], s[3])
}

/// The four bytes of `x`, most significant first.
pub open spec fn be_bytes(x: u32) -> Seq<u8> {
    seq![
        ((x >> 24) & 0xff) as u8,
        ((x >> 16) & 0xff) as u8,
        ((x >> 8) & 0xff) as u8,
        (x & 0xff) as u8,
    ]
}

/// The checksum that a chunk carries: over type code, then payload.
pub open spec fn crc_of(v: ChunkView) -> u32 {
    crc32_iso_hdlc(v.kind + v.data)
}

/// The byte layout of a chunk: length, type code, payload, checksum.
pub open spec fn chunk_encoding(v: ChunkView) -> Seq<u8> {
    be_bytes(v.data.len() as u32) + v.kind + v.data + be_bytes(crc_of(v))
}

/// What reading one chunk off the front of `buf` gives. Bytes behind the
/// chunk are left alone.
pub open spec fn chunk_decoding(buf: Seq<u8>) -> Result<ChunkView, ChunkError> {
    if buf.len() < 4 {
        Err(ChunkError::LengthByteRead)
    } else if buf.len() < 8 {
        Err(ChunkError::ChunkTypeByteRead)
    } else if let Some(e) = bytes_verdict(buf.subrange(4, 8)) {
        Err(ChunkError::ChunkTypeError(e))
    } else {
        let n = from_be(buf) as int;
        if buf.len() < 8 + n {
            Err(ChunkError::DataByteRead)
        } else if buf.len() < 12 + n {
            Err(ChunkError::CrcByteRead)
        } else if from_be(buf.subrange(8 + n, 12 + n)) != crc32_iso_hdlc(buf.subrange(4, 8 + n)) {
            Err(ChunkError::CrcMismatch)
        } else {
            Ok(ChunkView { kind: buf.subrange(4, 8), data: buf.subrange(8, 8 + n) })
        }
    }
}

/// Reading back the big-endian bytes of a number gives the number.
pub proof fn lemma_from_be_of_be_bytes(x: u32)
    ensures
        from_be(be_bytes(x)) == x,
        be_bytes(x).len() == 4,
{
    let b0 = ((x >> 24) & 0xff) as u8;
    let b1 = ((x >> 16) & 0xff) as u8;
    let b2 = ((x >> 8) & 0xff) as u8;
    let b3 = (x & 0xff) as u8;
    assert(be_value(b0, b1, b2, b3) == x) by (bit_vector)
        requires
            b0 == ((x >> 24) & 0xff) as u8,
            b1 == ((x >> 16) & 0xff) as u8,
            b2 == ((x >> 8) & 0xff) as u8,
            b3 == (x & 0xff) as u8,
    ;
}

/// Writing out the number that four bytes spell gives those bytes.
pub proof fn lemma_be_bytes_of_from_be(s: Seq<u8>)
    requires
        s.len() == 4,
    ensures
        be_bytes(from_be(s)) == s,
{
    let b0 = s[0];
    let b1 = s[1];
    let b2 = s[2];
    let b3 = s[3];
    let x = be_value(b0, b1, b2, b3);
    assert(((x >> 24) & 0xff) as u8 == b0 && ((x >> 16) & 0xff) as u8 == b1 && ((x >> 8)
        & 0xff) as u8 == b2 && (x & 0xff) as u8 == b3) by (bit_vector)
        requires
            x == ((b0 as u32) << 24) | ((b1 as u32) << 16) | ((b2 as u32) << 8) | (b3 as u32),
    ;
    assert(be_bytes(from_be(s)) =~= s);
}

/// How a chunk is shown to a reader: its length, the four numbers of its
/// type code, the size of its payload and its checksum, a line each.
pub open spec fn chunk_rendering(v: ChunkView) -> Seq<char> {
    "Chunk {\n  Length: "@ + decimal(v.data.len()) + "\n  Type: ("@ + decimal(v.kind[0] as nat)
        + ","@ + decimal(v.kind[1] as nat) + ","@ + decimal(v.kind[2] as nat) + ","@ + decimal(
        v.kind[3] as nat,
    ) + ")\n  Data: "@ + decimal(v.data.len()) + " bytes\n  Crc: "@ + decimal(crc_of(v) as nat)
        + "\n}\n"@
}

/// A chunk that the byte layout can hold and that reads back: its type code
/// is valid and its payload fits the 32-bit length field.
pub open spec fn storable(v: ChunkView) -> bool {
    bytes_verdict(v.kind) is None && v.data.len() <= u32::MAX
}

/// Decoding the encoding of a storable chunk gives the chunk back, whatever
/// bytes follow it; the encoding is twelve bytes longer than the payload.
pub proof fn lemma_decoding_of_encoding(v: ChunkView, rest: Seq<u8>)
    requires
        storable(v),
    ensures
        chunk_decoding(chunk_encoding(v) + rest) == Ok::<ChunkView, ChunkError>(v),
        chunk_encoding(v).len() == 12 + v.data.len(),
{
    let n = v.data.len() as u32;
    let buf = chunk_encoding(v) + rest;
    lemma_from_be_of_be_bytes(n);
    lemma_from_be_of_be_bytes(crc_of(v));
    assert(from_be(buf) == from_be(be_bytes(n)));
    assert(buf.subrange(4, 8) =~= v.kind);
    assert(buf.subrange(8, 8 + n) =~= v.data);
    assert(buf.subrange(4, 8 + n) =~= v.kind + v.data);
    assert(buf.subrange(8 + n, 12 + n) =~= be_bytes(crc_of(v)));
}

/// Where a buffer decodes to a chunk, the chunk is storable and its
/// encoding is the front of the buffer, byte for byte.
pub proof fn lemma_encoding_of_decoding(buf: Seq<u8>)
    requires
        chunk_decoding(buf) is Ok,
    ensures
        storable(chunk_decoding(buf)->Ok_0),
        12 + chunk_decoding(buf)->Ok_0.data.len() <= buf.len(),
        chunk_encoding(chunk_decoding(buf)->Ok_0) == buf.subrange(
            0,
            12 + chunk_decoding(buf)->Ok_0.data.len() as int,
        ),
{
    let v = chunk_decoding(buf)->Ok_0;
    let n = from_be(buf) as int;
    assert(v.data.len() == n);
    lemma_be_bytes_of_from_be(buf.subrange(0, 4));
    assert(from_be(buf.subrange(0, 4)) == from_be(buf));
    lemma_be_bytes_of_from_be(buf.subrange(8 + n, 12 + n));
    assert(v.kind + v.data =~= buf.subrange(4, 8 + n));
    assert(chunk_encoding(v) =~= buf.subrange(0, 12 + n));
}

/// A chunk whose type code or payload was altered in place, the length and
/// the stored checksum left as they were, is rejected as a checksum
/// mismatch wherever the altered type code is still valid and the altered
/// bytes have another checksum than the stored one.
pub proof fn lemma_altered_chunk_rejected(v: ChunkView, w: ChunkView, rest: Seq<u8>)
    requires
        storable(v),
        bytes_verdict(w.kind) is None,
        w.data.len() == v.data.len(),
        crc_of(w) != crc_of(v),
    ensures
        chunk_decoding(
            be_bytes(v.data.len() as u32) + w.kind + w.data + be_bytes(crc_of(v)) + rest,
        ) == Err::<ChunkView, ChunkError>(ChunkError::CrcMismatch),
{
    let n = v.data.len() as u32;
    let buf = be_bytes(n) + w.kind + w.data + be_bytes(crc_of(v)) + rest;
    lemma_from_be_of_be_bytes(n);
    lemma_from_be_of_be_bytes(crc_of(v));
    assert(from_be(buf) == from_be(be_bytes(n)));
    assert(buf.subrange(4, 8) =~= w.kind);
    assert(buf.subrange(4, 8 + n) =~= w.kind + w.data);
    assert(buf.subrange(8 + n, 12 + n) =~= be_bytes(crc_of(v)));
}

fn u32_from_be(b0: u8, b1: u8, b2: u8, b3: u8) -> (r: u32)
    ensures
        r == be_value(b0, b1, b2, b3),
{
    ((b0 as u32) << 24) | ((b1 as u32) << 16) | ((b2 as u32) << 8) | (b3 as u32)
}

fn push_be(out: &mut Vec<u8>, x: u32)
    ensures
        final(out)@ == old(out)@ + be_bytes(x),
{
    let b0: u32 = (x >> 24) & 0xff;
    let b1: u32 = (x >> 16) & 0xff;
    let b2: u32 = (x >> 8) & 0xff;
    let b3: u32 = x & 0xff;
    assert(b0 <= 0xff && b1 <= 0xff && b2 <= 0xff && b3 <= 0xff) by (bit_vector)
        requires
            b0 == (x >> 24) & 0xff,
            b1 == (x >> 16) & 0xff,
            b2 == (x >> 8) & 0xff,
            b3 == x & 0xff,
    ;
    out.push(b0 as u8);
    out.push(b1 as u8);
    out.push(b2 as u8);
    out.push(b3 as u8);
    assert(out@ =~= old(out)@ + be_bytes(x));
}

/// A chunk. Its length is that of its payload, and its checksum is that of
/// its type code and payload: both hold of every chunk there is.
#[derive(Debug)]
pub struct Chunk {
    length: u32,
    chunk_type: ChunkType,
    chunk_data: Vec<u8>,
    crc: u32,
}

impl View for Chunk {
    type V = ChunkView;

    closed spec fn view(&self) -> ChunkView {
        ChunkView { kind: self.chunk_type@, data: self.chunk_data@ }
    }
}

impl Chunk {
    #[verifier::type_invariant]
    spec fn consistent(self) -> bool {
        &&& self.length as int == self.chunk_data@.len()
        &&& self.crc == crc32_iso_hdlc(self.chunk_type@ + self.chunk_data@)
    }

    /// A fresh chunk of the given type and payload; length and checksum are
    /// computed here. The payload must fit the 32-bit length field.
    pub fn new(chunk_type: ChunkType, data: Vec<u8>) -> (r: Chunk)
        requires
            data@.len() <= u32::MAX,
        ensures
            r@ == (ChunkView { kind: chunk_type@, data: data@ }),
    {
        let b = chunk_type.bytes();
        let mut to_crc: Vec<u8> = Vec::new();
        to_crc.push(b[0]);
        to_crc.push(b[1]);
        to_crc.push(b[2]);
        to_crc.push(b[3]);
        to_crc.extend_from_slice(data.as_slice());
        assert(to_crc@ =~= chunk_type@ + data@);
        let crc = checksum(to_crc.as_slice());
        Chunk { length: data.len() as u32, chunk_type, chunk_data: data, crc }
    }

    /// The number of payload bytes.
    pub fn length(&self) -> (r: u32)
        ensures
            r as int == self@.data.len(),
    {
        proof {
            use_type_invariant(self);
        }
        self.length
    }

    /// The type code.
    pub fn chunk_type(&self) -> (r: &ChunkType)
        ensures
            r@ == self@.kind,
            four_letters(self@.kind),
    {
        let _letters = self.chunk_type.bytes();
        &self.chunk_type
    }

    /// The payload.
    pub fn data(&self) -> (r: &[u8])
        ensures
            r@ == self@.data,
    {
        self.chunk_data.as_slice()
    }

    /// The payload as text: exactly where it is well-formed UTF-8.
    pub fn data_as_string(&self) -> (r: Result<String, EncodingError>)
        ensures
            match r {
                Ok(s) => valid_utf8(self@.data) && s@ == decode_utf8(self@.data),
                Err(_) => !valid_utf8(self@.data),
            },
    {
        match String::from_utf8(slice_to_vec(self.chunk_data.as_slice())) {
            Ok(s) => Ok(s),
            Err(_) => Err(EncodingError::InvalidUtf8),
        }
    }

    /// The checksum over type code and payload.
    pub fn crc(&self) -> (r: u32)
        ensures
            r == crc_of(self@),
    {
        proof {
            use_type_invariant(self);
        }
        self.crc
    }

    /// The chunk in its byte layout.
    pub fn as_bytes(&self) -> (r: Vec<u8>)
        ensures
            r@ == chunk_encoding(self@),
    {
        proof {
            use_type_invariant(self);
        }
        let b = self.chunk_type.bytes();
        let mut out: Vec<u8> = Vec::new();
        push_be(&mut out, self.length);
        out.push(b[0]);
        out.push(b[1]);
        out.push(b[2]);
        out.push(b[3]);
        out.extend_from_slice(self.chunk_data.as_slice());
        push_be(&mut out, self.crc);
        assert(out@ =~= chunk_encoding(self@));
        out
    }

    /// The chunk as shown to a reader.
    pub fn to_string(&self) -> (r: String)
        ensures
            r@ == chunk_rendering(self@),
    {
        proof {
            use_type_invariant(self);
        }
        let b = self.chunk_type.bytes();
        let mut out = String::new();
        out.push_str("Chunk {\n  Length: ");
        out.push_str(decimal_text(self.length as u64).as_str());
        out.push_str("\n  Type: (");
        out.push_str(decimal_text(b[0] as u64).as_str());
        out.push_str(",");
        out.push_str(decimal_text(b[1] as u64).as_str());
        out.push_str(",");
        out.push_str(decimal_text(b[2] as u64).as_str());
        out.push_str(",");
        out.push_str(decimal_text(b[3] as u64).as_str());
        out.push_str(")\n  Data: ");
        out.push_str(decimal_text(self.chunk_data.len() as u64).as_str());
        out.push_str(" bytes\n  Crc: ");
        out.push_str(decimal_text(self.crc as u64).as_str());
        out.push_str("\n}\n");
        assert(out@ =~= chunk_rendering(self@));
        out
    }

    /// Reads one chunk off the front of `value`, checking its type code and
    /// its checksum. The result is `chunk_decoding` of the buffer, error
    /// for error.
    pub fn try_from(value: &[u8]) -> (r: Result<Chunk, ChunkError>)
        ensures
            match r {
                Ok(c) => chunk_decoding(value@) == Ok::<ChunkView, ChunkError>(c@),
                Err(e) => chunk_decoding(value@) == Err::<ChunkView, ChunkError>(e),
            },
    {
        let total = value.len();
        if total < 4 {
            return Err(ChunkError::LengthByteRead);
        }
        let length = u32_from_be(value[0], value[1], value[2], value[3]);
        if total < 8 {
            return Err(ChunkError::ChunkTypeByteRead);
        }
        let kind: [u8; 4] = [value[4], value[5], value[6], value[7]];
        assert(kind@ =~= value@.subrange(4, 8));
        let chunk_type = match ChunkType::try_from(kind) {
            Ok(t) => t,
            Err(e) => {
                return Err(ChunkError::ChunkTypeError(e));
            },
        };
        let after_type: usize = total - 8;
        if (after_type as u64) < (length as u64) {
            return Err(ChunkError::DataByteRead);
        }
        let n: usize = length as usize;
        let chunk_data = slice_to_vec(slice_subrange(value, 8, 8 + n));
        let actual_crc = checksum(slice_subrange(value, 4, 8 + n));
        if after_type - n < 4 {
            return Err(ChunkError::CrcByteRead);
        }
        let expected_crc = u32_from_be(value[8 + n], value[9 + n], value[10 + n], value[11 + n]);
        if actual_crc != expected_crc {
            return Err(ChunkError::CrcMismatch);
        }
        assert(value@.subrange(4, 8) + value@.subrange(8, 8 + n) =~= value@.subrange(4, 8 + n));
        Ok(Chunk { length, chunk_type, chunk_data, crc: actual_crc })
    }
}

impl<'a> TryFrom<&'a [u8]> for Chunk {
    type Error = ChunkError;

    /// As the method of the same name on the type itself.
    fn try_from(value: &'a [u8]) -> (r: Result<Chunk, ChunkError>)
        ensures
            match r {
                Ok(c) => chunk_decoding(value@) == Ok::<ChunkView, ChunkError>(c@),
                Err(e) => chunk_decoding(value@) == Err::<ChunkView, ChunkError>(e),
            },
    {
        Chunk::try_from(value)
    }
}

impl<'a> vstd::std_specs::convert::TryFromSpecImpl<&'a [u8]> for Chunk {
    open spec fn obeys_try_from_spec() -> bool {
        false
    }

    open spec fn try_from_spec(value: &'a [u8]) -> Result<Chunk, ChunkError> {
        arbitrary()
    }
}

} // verus!
