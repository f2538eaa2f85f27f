use std::convert::TryFrom;
use std::str::FromStr;

use pngme::{Chunk, ChunkType, Png, PngError};

fn chunk(tag: &str, data: &str) -> Chunk {
    Chunk::new(ChunkType::from_str(tag).unwrap(), data.as_bytes().to_vec())
}

fn sample() -> Png {
    Png::from_chunks(vec![chunk("IHDR", "head"), chunk("teSt", "one"), chunk("IEND", "")])
}

#[test]
fn container_round_trip_keeps_chunks_in_order() {
    let png = sample();
    let bytes = png.as_bytes();
    assert_eq!(&bytes[..8], &Png::standard_header());
    let parsed = Png::try_from(bytes.as_slice()).unwrap();
    assert_eq!(parsed.chunks(), png.chunks());
    assert_eq!(parsed.as_bytes(), bytes);
}

#[test]
fn empty_container_is_just_the_signature() {
    let png = Png::from_chunks(vec![]);
    assert_eq!(png.as_bytes(), vec![137, 80, 78, 71, 13, 10, 26, 10]);
    let parsed = Png::parse(&png.as_bytes()).unwrap();
    assert!(parsed.chunks().is_empty());
}

#[test]
fn missing_or_wrong_signature_is_a_format_error() {
    assert_eq!(Png::parse(&[]).unwrap_err(), PngError::Format);
    assert_eq!(Png::parse(&[137, 80, 78]).unwrap_err(), PngError::Format);
    let mut bytes = sample().as_bytes();
    bytes[1] = 81;
    assert_eq!(Png::parse(&bytes).unwrap_err(), PngError::Format);
}

#[test]
fn first_failing_chunk_error_is_returned() {
    let mut bytes = sample().as_bytes();
    let last = bytes.len() - 1;
    bytes[last] ^= 1;
    assert_eq!(Png::parse(&bytes).unwrap_err(), PngError::Checksum);
    let bytes = sample().as_bytes();
    assert_eq!(Png::parse(&bytes[..bytes.len() - 2]).unwrap_err(), PngError::TruncatedInput);
}

#[test]
fn append_find_remove() {
    let mut png = sample();
    let added = chunk("teSt", "hello");
    png.append_chunk(added.clone());
    assert_eq!(png.chunks().len(), 4);
    assert_eq!(png.chunks()[3], added);

    let mut fresh = Png::from_chunks(vec![chunk("IHDR", "head")]);
    fresh.append_chunk(added.clone());
    assert_eq!(fresh.chunk_by_type("teSt"), Some(&added));
    assert_eq!(fresh.remove_chunk("teSt").unwrap(), added);
    assert!(fresh.chunk_by_type("teSt").is_none());
}

#[test]
fn lookup_finds_the_first_of_a_type() {
    let mut png = sample();
    png.append_chunk(chunk("teSt", "two"));
    let found = png.chunk_by_type("teSt").unwrap();
    assert_eq!(found.data(), b"one");
    assert!(png.chunk_by_type("test").is_none());
    assert!(png.chunk_by_type("nope").is_none());

    let removed = png.remove_chunk("teSt").unwrap();
    assert_eq!(removed.data(), b"one");
    assert_eq!(png.chunk_by_type("teSt").unwrap().data(), b"two");
    let tags: Vec<String> = png.chunks().iter().map(|c| c.chunk_type().to_string()).collect();
    assert_eq!(tags, vec!["IHDR", "IEND", "teSt"]);
}

#[test]
fn removing_a_missing_type_is_not_found_and_changes_nothing() {
    let mut png = sample();
    let before = png.as_bytes();
    assert_eq!(png.remove_chunk("zzZz").unwrap_err(), PngError::NotFound);
    assert_eq!(png.as_bytes(), before);
}

#[test]
fn appended_message_survives_a_round_trip() {
    let mut png = sample();
    png.append_chunk(chunk("RuSt", "This is where your secret message will be!"));
    let parsed = Png::parse(&png.as_bytes()).unwrap();
    let found = parsed.chunk_by_type("RuSt").unwrap();
    assert_eq!(found.data_as_string().unwrap(), "This is where your secret message will be!");
    assert_eq!(found.crc(), 2882656334);
}

#[test]
fn message_chunks_are_text_chunks_other_than_sbit_and_iend() {
    let png = Png::from_chunks(vec![
        chunk("IHDR", "head"),
        chunk("sBIT", "bits"),
        Chunk::new(ChunkType::from_str("biNy").unwrap(), vec![0xff, 0x00]),
        chunk("RuSt", "secret"),
        chunk("IEND", ""),
        chunk("teSt", "hello"),
    ]);
    let found = png.message_chunks();
    let tags: Vec<String> = found.iter().map(|c| c.chunk_type().to_string()).collect();
    assert_eq!(tags, vec!["IHDR", "RuSt", "teSt"]);
    assert_eq!(found[1].data(), b"secret");
    assert!(Png::from_chunks(vec![chunk("IEND", "")]).message_chunks().is_empty());
}
