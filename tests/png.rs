use pngme::args::{DecodeArgs, EncodeArgs, RemoveArgs};
use pngme::chunk::Chunk;
use pngme::chunk_type::ChunkType;
use pngme::commands::{decode, encode, print, remove};
use pngme::error::PngError;
use pngme::png::{Png, STANDARD_HEADER};

fn chunk(ty: &str, msg: &str) -> Chunk {
    Chunk::new(ChunkType::from_str(ty).unwrap(), msg.as_bytes().to_vec())
}

fn types_of(png: &Png) -> Vec<String> {
    png.chunks().iter().map(|c| c.chunk_type().to_string()).collect()
}

#[test]
fn empty_png_is_just_the_signature() {
    let png = Png::from_chunks(vec![]);
    assert_eq!(png.as_bytes(), STANDARD_HEADER.to_vec());
    assert_eq!(Png::try_from(&STANDARD_HEADER[..]).unwrap().chunks().len(), 0);
}

#[test]
fn png_round_trips_through_bytes() {
    let png = Png::from_chunks(vec![chunk("IHDR", "head"), chunk("teSt", ""), chunk("IEND", "")]);
    let bytes = png.as_bytes();
    let back = Png::try_from(&bytes[..]).unwrap();
    assert_eq!(types_of(&back), vec!["IHDR", "teSt", "IEND"]);
    assert_eq!(back.as_bytes(), bytes);
}

#[test]
fn missing_signature_is_rejected() {
    let png = Png::from_chunks(vec![chunk("teSt", "x")]);
    let mut bytes = png.as_bytes();
    bytes[0] = 0x88;
    assert_eq!(Png::try_from(&bytes[..]).unwrap_err(), PngError::InvalidSignature);
    assert_eq!(Png::try_from(&[137u8, 80, 78][..]).unwrap_err(), PngError::InvalidSignature);
    assert_eq!(Png::try_from(&[][..]).unwrap_err(), PngError::InvalidSignature);
}

#[test]
fn corrupt_chunk_fails_the_whole_file() {
    let png = Png::from_chunks(vec![chunk("teSt", "one"), chunk("teSt", "two")]);
    let mut bytes = png.as_bytes();
    let last = bytes.len() - 1;
    bytes[last] ^= 1;
    assert_eq!(Png::try_from(&bytes[..]).unwrap_err(), PngError::InvalidCrc);
    let full = png.as_bytes();
    assert_eq!(Png::try_from(&full[..full.len() - 2]).unwrap_err(), PngError::InvalidLength);
}

#[test]
fn remove_after_appending_two_leaves_the_second() {
    let mut png = Png::from_chunks(vec![]);
    png.append_chunk(chunk("AaAa", "first"));
    png.append_chunk(chunk("BbBb", "second"));
    let removed = png.remove_first_chunk("AaAa").unwrap();
    assert_eq!(removed.data_as_string().unwrap(), "first");
    assert_eq!(types_of(&png), vec!["BbBb"]);
}

#[test]
fn remove_takes_only_the_earliest_of_a_type() {
    let mut png = Png::from_chunks(vec![chunk("teSt", "one"), chunk("teSt", "two")]);
    let removed = png.remove_first_chunk("teSt").unwrap();
    assert_eq!(removed.data_as_string().unwrap(), "one");
    assert_eq!(png.chunks().len(), 1);
    assert_eq!(png.chunks()[0].data_as_string().unwrap(), "two");
}

#[test]
fn remove_errors() {
    let mut png = Png::from_chunks(vec![chunk("teSt", "one")]);
    assert_eq!(png.remove_first_chunk("abcd").unwrap_err(), PngError::ChunkNotFound);
    assert_eq!(png.remove_first_chunk("ab1d").unwrap_err(), PngError::InvalidChunkType);
    assert_eq!(png.chunks().len(), 1);
}

#[test]
fn chunk_by_type_finds_the_first() {
    let png = Png::from_chunks(vec![chunk("teSt", "one"), chunk("teSt", "two")]);
    assert_eq!(png.chunk_by_type("teSt").unwrap().data_as_string().unwrap(), "one");
    assert!(png.chunk_by_type("none").is_none());
    assert!(png.chunk_by_type("no").is_none());
}

#[test]
fn encode_then_decode_returns_the_message() {
    let empty = Png::from_chunks(vec![]).as_bytes();
    let enc = EncodeArgs {
        file_path: String::from("in.png"),
        chunk_type: String::from("teSt"),
        message: String::from("hello"),
        output_path: None,
    };
    let encoded = encode(&enc, &empty).unwrap();
    let dec = DecodeArgs { file_path: String::from("in.png"), chunk_type: String::from("teSt") };
    assert_eq!(decode(&dec, &encoded).unwrap(), Some(String::from("hello")));
    assert_eq!(enc.target_path(), "in.png");
}

#[test]
fn decode_of_absent_type_gives_nothing() {
    let png = Png::from_chunks(vec![chunk("teSt", "hello")]).as_bytes();
    let dec = DecodeArgs { file_path: String::from("f"), chunk_type: String::from("abSt") };
    assert_eq!(decode(&dec, &png).unwrap(), None);
}

#[test]
fn encode_rejects_bad_type_and_bad_file() {
    let empty = Png::from_chunks(vec![]).as_bytes();
    let enc = EncodeArgs {
        file_path: String::from("f"),
        chunk_type: String::from("te5t"),
        message: String::from("hello"),
        output_path: Some(String::from("out.png")),
    };
    assert_eq!(encode(&enc, &empty).unwrap_err(), PngError::InvalidChunkType);
    assert_eq!(encode(&enc, b"not a png").unwrap_err(), PngError::InvalidSignature);
    assert_eq!(enc.target_path(), "out.png");
}

#[test]
fn remove_command_rewrites_the_file() {
    let png = Png::from_chunks(vec![chunk("teSt", "one"), chunk("abCd", "two")]).as_bytes();
    let args = RemoveArgs { file_path: String::from("f"), chunk_type: String::from("teSt") };
    let out = remove(&args, &png).unwrap();
    assert_eq!(out, Png::from_chunks(vec![chunk("abCd", "two")]).as_bytes());
    assert_eq!(remove(&args, &out).unwrap_err(), PngError::ChunkNotFound);
}

#[test]
fn print_lists_every_payload() {
    let png = Png::from_chunks(vec![chunk("teSt", "one"), chunk("abCd", "two")]).as_bytes();
    assert_eq!(print(&png).unwrap(), vec![String::from("one"), String::from("two")]);
    let mut bad = Png::from_chunks(vec![chunk("teSt", "ok")]);
    bad.append_chunk(Chunk::new(ChunkType::from_str("teSt").unwrap(), vec![0xc3]));
    assert_eq!(print(&bad.as_bytes()).unwrap_err(), PngError::InvalidUtf8);
}
