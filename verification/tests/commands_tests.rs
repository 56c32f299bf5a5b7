use pngme::chunk::{Chunk, ChunkError, EncodingError};
use pngme::chunk_type::{ChunkType, ChunkTypeError};
use pngme::cli::{Cli, Commands};
use pngme::commands::{decode, encode, print, remove, CommandError};
use pngme::png::{Png, PngError};

fn sample_file() -> Vec<u8> {
    let chunks = vec![
        Chunk::new(ChunkType::from_str("IHDR").unwrap(), vec![0, 0, 0, 1, 0, 0, 0, 1, 8, 6, 0, 0, 0]),
        Chunk::new(ChunkType::from_str("IEND").unwrap(), vec![]),
    ];
    Png::from_chunks(chunks).as_bytes()
}

#[test]
fn encode_then_decode_gives_the_message() {
    let out = encode(&sample_file(), "RuSt", "This is where your secret message will be!").unwrap();
    assert_eq!(out.len(), sample_file().len() + 12 + 42);
    assert_eq!(&out[..sample_file().len()], sample_file().as_slice());
    assert_eq!(&out[out.len() - 4..], &2882656334u32.to_be_bytes());
    assert_eq!(
        decode(&out, "RuSt"),
        Ok(Some(String::from("This is where your secret message will be!")))
    );
    assert_eq!(decode(&out, "ruSt"), Ok(None));
    assert_eq!(decode(&sample_file(), "RuSt"), Ok(None));
}

#[test]
fn encode_judges_file_then_type() {
    assert_eq!(
        encode(&[1, 2, 3], "R1St", "x"),
        Err(CommandError::Png(PngError::BadSignature))
    );
    assert_eq!(
        encode(&sample_file(), "R1St", "x"),
        Err(CommandError::ChunkType(ChunkTypeError::NonLetter))
    );
    assert_eq!(
        encode(&sample_file(), "RuStX", "x"),
        Err(CommandError::ChunkType(ChunkTypeError::InvalidLength))
    );
}

#[test]
fn remove_undoes_encode() {
    let out = encode(&sample_file(), "RuSt", "hidden").unwrap();
    assert_eq!(remove(&out, "RuSt"), Ok(sample_file()));
    assert_eq!(
        remove(&sample_file(), "RuSt"),
        Err(CommandError::Png(PngError::ChunkNotFound))
    );
    let mut cut = sample_file();
    cut.pop();
    assert_eq!(
        remove(&cut, "IEND"),
        Err(CommandError::Png(PngError::InvalidChunk(ChunkError::CrcByteRead)))
    );
}

#[test]
fn decode_reports_payload_that_is_not_text() {
    let chunks = vec![Chunk::new(ChunkType::from_str("biNa").unwrap(), vec![0xc3, 0x28])];
    let file = Png::from_chunks(chunks).as_bytes();
    assert_eq!(
        decode(&file, "biNa"),
        Err(CommandError::Encoding(EncodingError::InvalidUtf8))
    );
}

#[test]
fn print_lists_the_chunks() {
    let shown = print(&sample_file()).unwrap();
    assert_eq!(
        shown,
        "Chunk {\n  Length: 13\n  Type: (73,72,68,82)\n  Data: 13 bytes\n  Crc: 521520265\n}\n\
         Chunk {\n  Length: 0\n  Type: (73,69,78,68)\n  Data: 0 bytes\n  Crc: 2923585666\n}\n"
    );
    assert_eq!(print(&[]), Err(CommandError::Png(PngError::BadSignature)));
}

#[test]
fn commands_carry_their_arguments() {
    let cli = Cli {
        command: Commands::Encode {
            path: String::from("in.png"),
            chunk_type: String::from("RuSt"),
            message: String::from("hi"),
            output_file: String::from("output.png"),
        },
    };
    match cli.command {
        Commands::Encode { path, chunk_type, message, output_file } => {
            assert_eq!(path, "in.png");
            assert_eq!(chunk_type, "RuSt");
            assert_eq!(message, "hi");
            assert_eq!(output_file, "output.png");
        }
        _ => panic!("another command"),
    }
}
