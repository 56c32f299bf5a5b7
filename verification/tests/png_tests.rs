use pngme::chunk::{Chunk, ChunkError};
use pngme::chunk_type::{ChunkType, ChunkTypeError};
use pngme::png::{Png, PngError};

const SIGNATURE: [u8; 8] = [137, 80, 78, 71, 13, 10, 26, 10];

fn chunk_of(kind: &str, data: &str) -> Chunk {
    Chunk::new(ChunkType::from_str(kind).unwrap(), data.as_bytes().to_vec())
}

fn testing_chunks() -> Vec<Chunk> {
    vec![
        chunk_of("FrSt", "I am the first chunk"),
        chunk_of("miDl", "I am another chunk"),
        chunk_of("LASt", "I am the last chunk"),
    ]
}

fn testing_png() -> Png {
    Png::from_chunks(testing_chunks())
}

fn testing_bytes() -> Vec<u8> {
    let mut bytes: Vec<u8> = SIGNATURE.to_vec();
    for c in testing_chunks() {
        bytes.extend(c.as_bytes());
    }
    bytes
}

fn kinds(png: &Png) -> Vec<String> {
    png.chunks().iter().map(|c| c.chunk_type().to_string()).collect()
}

#[test]
fn from_chunks_keeps_order() {
    let png = testing_png();
    assert_eq!(png.chunks().len(), 3);
    assert_eq!(kinds(&png), vec!["FrSt", "miDl", "LASt"]);
    assert_eq!(png.header(), SIGNATURE);
}

#[test]
fn encoding_is_signature_then_chunks() {
    assert_eq!(testing_png().as_bytes(), testing_bytes());
    assert_eq!(Png::from_chunks(vec![]).as_bytes(), SIGNATURE.to_vec());
}

#[test]
fn smallest_file_decodes_to_no_chunks() {
    let png = Png::try_from(&SIGNATURE[..]).unwrap();
    assert_eq!(png.chunks().len(), 0);
}

#[test]
fn png_round_trip() {
    let png = testing_png();
    let back = Png::try_from(png.as_bytes().as_ref()).unwrap();
    assert_eq!(kinds(&back), vec!["FrSt", "miDl", "LASt"]);
    for (a, b) in back.chunks().iter().zip(png.chunks().iter()) {
        assert_eq!(a.data(), b.data());
        assert_eq!(a.crc(), b.crc());
        assert_eq!(a.length(), b.length());
    }
    assert_eq!(back.as_bytes(), testing_bytes());
}

#[test]
fn bad_signature_is_rejected() {
    let mut bytes = testing_bytes();
    bytes[0] = 13;
    assert_eq!(Png::try_from(bytes.as_ref()).err(), Some(PngError::BadSignature));
    let mut last = testing_bytes();
    last[7] = 11;
    assert_eq!(Png::try_from(last.as_ref()).err(), Some(PngError::BadSignature));
    assert_eq!(Png::try_from(&SIGNATURE[..7]).err(), Some(PngError::BadSignature));
    assert_eq!(Png::try_from(&[][..]).err(), Some(PngError::BadSignature));
}

#[test]
fn first_failing_chunk_fails_the_file() {
    let bytes = testing_bytes();
    let cut = &bytes[..bytes.len() - 1];
    assert_eq!(
        Png::try_from(cut).err(),
        Some(PngError::InvalidChunk(ChunkError::CrcByteRead))
    );
    let mut extra = testing_bytes();
    extra.extend_from_slice(&[0, 0]);
    assert_eq!(
        Png::try_from(extra.as_ref()).err(),
        Some(PngError::InvalidChunk(ChunkError::LengthByteRead))
    );
    let mut flipped = testing_bytes();
    flipped[8 + 8] ^= 1;
    assert_eq!(
        Png::try_from(flipped.as_ref()).err(),
        Some(PngError::InvalidChunk(ChunkError::CrcMismatch))
    );
    let mut kind = testing_bytes();
    kind[8 + 6] = b'5';
    assert_eq!(
        Png::try_from(kind.as_ref()).err(),
        Some(PngError::InvalidChunk(ChunkError::ChunkTypeError(ChunkTypeError::NonLetter)))
    );
}

#[test]
fn appended_message_survives_a_round_trip() {
    let mut png = Png::try_from(testing_bytes().as_ref()).unwrap();
    png.append_chunk(chunk_of("RuSt", "This is where your secret message will be!"));
    let back = Png::try_from(png.as_bytes().as_ref()).unwrap();
    assert_eq!(back.chunks().len(), 4);
    let last = &back.chunks()[3];
    assert_eq!(last.chunk_type().to_string(), "RuSt");
    assert_eq!(
        last.data_as_string().unwrap(),
        "This is where your secret message will be!"
    );
    assert_eq!(last.crc(), 2882656334);
    assert_eq!(kinds(&back), vec!["FrSt", "miDl", "LASt", "RuSt"]);
}

#[test]
fn removing_an_absent_type_changes_nothing() {
    let mut png = testing_png();
    let r = png.remove_chunk("TeSt");
    assert_eq!(r.err(), Some(PngError::ChunkNotFound));
    assert_eq!(png.as_bytes(), testing_bytes());
    assert_eq!(png.remove_chunk("FrS").err(), Some(PngError::ChunkNotFound));
    assert_eq!(png.remove_chunk("").err(), Some(PngError::ChunkNotFound));
    assert_eq!(png.chunks().len(), 3);
}

#[test]
fn remove_takes_the_first_match_only() {
    let mut png = testing_png();
    png.append_chunk(chunk_of("miDl", "a second one"));
    let removed = png.remove_chunk("miDl").unwrap();
    assert_eq!(removed.data_as_string().unwrap(), "I am another chunk");
    assert_eq!(kinds(&png), vec!["FrSt", "LASt", "miDl"]);
    assert_eq!(png.chunks()[2].data_as_string().unwrap(), "a second one");
}

#[test]
fn lookup_by_type() {
    let mut png = testing_png();
    png.append_chunk(chunk_of("FrSt", "not me"));
    let found = png.chunk_by_type("FrSt").unwrap();
    assert_eq!(found.data_as_string().unwrap(), "I am the first chunk");
    assert_eq!(png.chunk_by_type("LASt").unwrap().data_as_string().unwrap(), "I am the last chunk");
    assert!(png.chunk_by_type("frSt").is_none());
    assert!(png.chunk_by_type("nOpE").is_none());
    assert_eq!(png.chunks().len(), 4);
}

#[test]
fn file_rendering_lists_every_chunk() {
    let png = Png::from_chunks(vec![chunk_of("RuSt", "ab")]);
    let c = chunk_of("RuSt", "ab");
    assert_eq!(png.to_string(), c.to_string());
    let two = Png::from_chunks(vec![chunk_of("RuSt", "ab"), chunk_of("IEND", "")]);
    assert_eq!(
        two.to_string(),
        format!("{}{}", c.to_string(), chunk_of("IEND", "").to_string())
    );
}
