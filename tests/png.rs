use pngme::args::Input;
use pngme::chunk::{Chunk, ChunkError};
use pngme::chunk_type::ChunkType;
use pngme::file::File;
use pngme::png::{Png, PngError};
use std::str::FromStr;

fn chunk(t: &str, data: &[u8]) -> Chunk {
    Chunk::new(ChunkType::from_str(t).unwrap(), data.to_vec())
}

fn sample_png() -> Png {
    Png::from_chunks(vec![
        chunk("IHDR", &[0, 0, 0, 1, 0, 0, 0, 1, 8, 6, 0, 0, 0]),
        chunk("teXt", b"first"),
        chunk("ruSt", b"message"),
        chunk("teXt", b"second"),
        chunk("IEND", b""),
    ])
}

fn types(p: &Png) -> Vec<String> {
    p.chunks().iter().map(|c| c.chunk_type().to_string()).collect()
}

#[test]
fn signature_bytes() {
    assert_eq!(Png::signature(), [0x89, b'P', b'N', b'G', b'\r', b'\n', 0x1A, b'\n']);
}

#[test]
fn empty_png_is_just_the_signature() {
    let p = Png::from_chunks(Vec::new());
    assert_eq!(p.as_bytes(), Png::signature().to_vec());
    let back = Png::try_from(&p.as_bytes()[..]).unwrap();
    assert_eq!(back.chunks().len(), 0);
}

#[test]
fn png_round_trips_through_its_bytes() {
    let p = sample_png();
    let bytes = p.as_bytes();
    let parsed = Png::try_from(&bytes[..]).unwrap();
    assert_eq!(types(&parsed), types(&p));
    assert_eq!(parsed.as_bytes(), bytes);
    let again = Png::try_from(&parsed.as_bytes()[..]).unwrap();
    assert_eq!(again.as_bytes(), bytes);
}

#[test]
fn bytes_are_signature_then_chunks() {
    let p = sample_png();
    let mut expected = Png::signature().to_vec();
    for c in p.chunks() {
        expected.extend_from_slice(&c.as_bytes());
    }
    assert_eq!(p.as_bytes(), expected);
}

#[test]
fn bad_first_byte_is_a_signature_error() {
    let mut bytes = sample_png().as_bytes();
    bytes[0] = 0x88;
    assert_eq!(Png::try_from(&bytes[..]).err(), Some(PngError::BadSignature));
}

#[test]
fn short_input_is_a_signature_error() {
    assert_eq!(Png::try_from(&[0x89, b'P', b'N'][..]).err(), Some(PngError::BadSignature));
    assert_eq!(Png::try_from(&[][..]).err(), Some(PngError::BadSignature));
}

#[test]
fn bad_trailing_chunk_fails_the_whole_file() {
    let mut bytes = sample_png().as_bytes();
    bytes.truncate(bytes.len() - 1);
    assert_eq!(
        Png::try_from(&bytes[..]).err(),
        Some(PngError::Chunk(ChunkError::Truncated))
    );
    let mut bytes = sample_png().as_bytes();
    let last = bytes.len() - 1;
    bytes[last] ^= 0x10;
    assert_eq!(
        Png::try_from(&bytes[..]).err(),
        Some(PngError::Chunk(ChunkError::ChecksumMismatch))
    );
}

#[test]
fn lookup_returns_first_match() {
    let p = sample_png();
    let c = p.chunk_by_type("teXt").unwrap();
    assert_eq!(c.data(), b"first");
    assert!(p.chunk_by_type("zzZz").is_none());
    assert!(p.chunk_by_type("teX").is_none());
}

#[test]
fn lookup_after_appending_keeps_insertion_order() {
    let mut p = sample_png();
    p.append_chunk(chunk("neWw", b"x"));
    p.append_chunk(chunk("otHr", b"y"));
    assert_eq!(p.chunk_by_type("neWw").unwrap().data(), b"x");
    p.append_chunk(chunk("teXt", b"third"));
    p.append_chunk(chunk("otHr", b"z"));
    assert_eq!(p.chunk_by_type("teXt").unwrap().data(), b"first");
    assert_eq!(p.chunk_by_type("otHr").unwrap().data(), b"y");
}

#[test]
fn append_adds_at_the_end() {
    let mut p = sample_png();
    p.append_chunk(chunk("ruSt", b"tail"));
    let cs = p.chunks();
    assert_eq!(cs.len(), 6);
    assert_eq!(cs[5].data(), b"tail");
    assert_eq!(cs[0].chunk_type().to_string(), "IHDR");
}

#[test]
fn remove_takes_out_the_first_match_only() {
    let mut p = sample_png();
    let removed = p.remove_chunk("teXt").unwrap();
    assert_eq!(removed.data(), b"first");
    assert_eq!(types(&p), vec!["IHDR", "ruSt", "teXt", "IEND"]);
    assert_eq!(p.chunk_by_type("teXt").unwrap().data(), b"second");
}

#[test]
fn removing_a_missing_type_changes_nothing() {
    let mut p = sample_png();
    let before = p.as_bytes();
    assert_eq!(p.remove_chunk("noNe").err(), Some(PngError::NotFound));
    assert_eq!(p.as_bytes(), before);
}

#[test]
fn encoded_message_survives_a_round_trip() {
    let mut p = Png::from_chunks(Vec::new());
    p.append_chunk(chunk("ruSt", b"hello"));
    let reparsed = Png::try_from(&p.as_bytes()[..]).unwrap();
    let c = reparsed.chunk_by_type("ruSt").unwrap();
    assert_eq!(c.data_as_string().unwrap(), "hello");
}

#[test]
fn scan_finds_only_non_empty_text() {
    let p = Png::from_chunks(vec![
        chunk("IHDR", &[0x89, 0xff, 0x00, 0xc3]),
        chunk("teXt", b"secret"),
        chunk("IEND", b""),
    ]);
    assert_eq!(p.messages(), vec![String::from("secret")]);
}

#[test]
fn scan_keeps_chunk_order() {
    // the header bytes here happen to be valid UTF-8, so they count as text
    assert_eq!(
        sample_png().messages(),
        vec![
            String::from("\0\0\0\u{1}\0\0\0\u{1}\u{8}\u{6}\0\0\0"),
            String::from("first"),
            String::from("message"),
            String::from("second"),
        ]
    );
    assert!(Png::from_chunks(Vec::new()).messages().is_empty());
}

#[test]
fn clone_is_independent() {
    let p = sample_png();
    let mut q = p.clone();
    q.remove_chunk("IHDR").unwrap();
    assert_eq!(p.chunks().len(), 5);
    assert_eq!(q.chunks().len(), 4);
}

#[test]
fn file_keeps_png_and_path() {
    let f = File::new(sample_png(), String::from("image.png"));
    assert_eq!(f.path(), "image.png");
    assert_eq!(f.png().chunks().len(), 5);
}

#[test]
fn url_sources_start_with_https() {
    assert!(Input::source_is_url("https://example.com/a.png"));
    assert!(!Input::source_is_url("http://example.com/a.png"));
    assert!(!Input::source_is_url("image.png"));
    assert!(!Input::source_is_url("http"));
}
