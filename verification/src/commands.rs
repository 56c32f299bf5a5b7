//! The four operations on the bytes of a file: hide a message, read it
//! back, take it out, and list the chunks. Each takes the file's bytes and
//! gives back bytes or text; reading and writing files is the caller's.

use vstd::prelude::*;
use vstd::slice::slice_to_vec;
use vstd::string::StringSliceAdditionalSpecFns;
use vstd::utf8::{decode_utf8, valid_utf8};
use crate::chunk::{Chunk, ChunkView, EncodingError};
use crate::chunk_type::{text_verdict, ChunkType, ChunkTypeError};
use crate::png::{
    chunks_rendering, is_first_of_kind, lacks_kind, png_decoding, png_encoding, Png, PngError,
};

verus! {

/// Why an operation on a file's bytes failed.
#[derive(Debug, Clone, Copy, PartialEq, Eq, Structural)]
pub enum CommandError {
    /// The bytes are not a PNG file, or the chunk asked for is not in it.
    Png(PngError),
    /// The type code given is not four ASCII letters.
    ChunkType(ChunkTypeError),
    /// The message is longer than a chunk can hold.
    MessageTooLong,
    /// The chunk's payload is not text.
    Encoding(EncodingError),
}

/// What hiding a message gives: the file's bytes with one more chunk at the
/// end, of the given type and with the message as payload. The file is
/// judged first, then the type code, then the message's length.
pub open spec fn encode_outcome(file: Seq<u8>, kind: Seq<u8>, message: Seq<u8>) -> Result<
    Seq<u8>,
    CommandError,
> {
    match png_decoding(file) {
        Err(e) => Err(CommandError::Png(e)),
        Ok(cs) => match text_verdict(kind) {
            Some(e) => Err(CommandError::ChunkType(e)),
            None => if message.len() > u32::MAX {
                Err(CommandError::MessageTooLong)
            } else {
                Ok(png_encoding(cs.push(ChunkView { kind: kind, data: message })))
            },
        },
    }
}

/// Hides `message` in the file: see `encode_outcome`.
pub fn encode(file: &[u8], chunk_type: &str, message: &str) -> (r: Result<Vec<u8>, CommandError>)
    ensures
        match r {
            Ok(out) => encode_outcome(file@, chunk_type.spec_bytes(), message.spec_bytes())
                == Ok::<Seq<u8>, CommandError>(out@),
            Err(e) => encode_outcome(file@, chunk_type.spec_bytes(), message.spec_bytes())
                == Err::<Seq<u8>, CommandError>(e),
        },
{
    let mut png = match Png::try_from(file) {
        Ok(p) => p,
        Err(e) => {
            return Err(CommandError::Png(e));
        },
    };
    let kind = match ChunkType::from_str(chunk_type) {
        Ok(t) => t,
        Err(e) => {
            return Err(CommandError::ChunkType(e));
        },
    };
    let payload = message.as_bytes();
    if payload.len() as u64 > u32::MAX as u64 {
        return Err(CommandError::MessageTooLong);
    }
    let chunk = Chunk::new(kind, slice_to_vec(payload));
    png.append_chunk(chunk);
    Ok(png.as_bytes())
}

/// Reads the message in the first chunk of the given type: `None` where the
/// file has no such chunk, an error where the file does not decode or the
/// payload is not UTF-8.
pub fn decode(file: &[u8], chunk_type: &str) -> (r: Result<Option<String>, CommandError>)
    ensures
        match r {
            Ok(Some(s)) => png_decoding(file@) is Ok && exists|i: int|
                #[trigger] is_first_of_kind(png_decoding(file@)->Ok_0, chunk_type.spec_bytes(), i)
                    && valid_utf8(png_decoding(file@)->Ok_0[i].data) && s@ == decode_utf8(
                    png_decoding(file@)->Ok_0[i].data,
                ),
            Ok(None) => png_decoding(file@) is Ok && lacks_kind(
                png_decoding(file@)->Ok_0,
                chunk_type.spec_bytes(),
            ),
            Err(CommandError::Png(e)) => png_decoding(file@) == Err::<Seq<ChunkView>, PngError>(e),
            Err(e) => e == CommandError::Encoding(EncodingError::InvalidUtf8) && png_decoding(
                file@,
            ) is Ok && exists|i: int|
                #[trigger] is_first_of_kind(png_decoding(file@)->Ok_0, chunk_type.spec_bytes(), i)
                    && !valid_utf8(png_decoding(file@)->Ok_0[i].data),
        },
{
    let png = match Png::try_from(file) {
        Ok(p) => p,
        Err(e) => {
            return Err(CommandError::Png(e));
        },
    };
    match png.chunk_by_type(chunk_type) {
        None => Ok(None),
        Some(chunk) => {
            let ghost i = choose|i: int|
                #[trigger] is_first_of_kind(png@, chunk_type.spec_bytes(), i) && chunk@ == png@[i];
            assert(is_first_of_kind(png@, chunk_type.spec_bytes(), i));
            assert(png_decoding(file@)->Ok_0 == png@);
            match chunk.data_as_string() {
                Ok(s) => Ok(Some(s)),
                Err(e) => Err(CommandError::Encoding(e)),
            }
        },
    }
}

/// Takes the first chunk of the given type out of the file and gives the
/// file's new bytes; `ChunkNotFound` where it has no such chunk.
pub fn remove(file: &[u8], chunk_type: &str) -> (r: Result<Vec<u8>, CommandError>)
    ensures
        match r {
            Ok(out) => png_decoding(file@) is Ok && exists|i: int|
                #[trigger] is_first_of_kind(png_decoding(file@)->Ok_0, chunk_type.spec_bytes(), i) && out@
                    == png_encoding(png_decoding(file@)->Ok_0.remove(i)),
            Err(e) => match png_decoding(file@) {
                Err(pe) => e == CommandError::Png(pe),
                Ok(cs) => e == CommandError::Png(PngError::ChunkNotFound) && lacks_kind(
                    cs,
                    chunk_type.spec_bytes(),
                ),
            },
        },
{
    let mut png = match Png::try_from(file) {
        Ok(p) => p,
        Err(e) => {
            return Err(CommandError::Png(e));
        },
    };
    let ghost before = png@;
    match png.remove_chunk(chunk_type) {
        Ok(_) => {
            let ghost i = choose|i: int|
                #[trigger] is_first_of_kind(before, chunk_type.spec_bytes(), i) && png@
                    == before.remove(i);
            assert(is_first_of_kind(before, chunk_type.spec_bytes(), i));
            assert(png_decoding(file@)->Ok_0 == before);
            let out = png.as_bytes();
            assert(out@ == png_encoding(before.remove(i)));
            Ok(out)
        },
        Err(e) => Err(CommandError::Png(e)),
    }
}

/// Lists the chunks of the file, as shown to a reader.
pub fn print(file: &[u8]) -> (r: Result<String, CommandError>)
    ensures
        match r {
            Ok(s) => png_decoding(file@) is Ok && s@ == chunks_rendering(
                png_decoding(file@)->Ok_0,
            ),
            Err(e) => png_decoding(file@) is Err && e == CommandError::Png(
                png_decoding(file@)->Err_0,
            ),
        },
{
    match Png::try_from(file) {
        Ok(p) => Ok(p.to_string()),
        Err(e) => Err(CommandError::Png(e)),
    }
}

} // verus!
