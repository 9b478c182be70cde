use std::io::Write;

use flate2::write::ZlibEncoder;
use flate2::Compression;

use livre::extraction::special::stream::{Nil, Stream};
use livre::extraction::{Extract, ParseError};
use livre::filtering::{FlateDecode, Filter, Filtering};

fn compress(data: &[u8]) -> Vec<u8> {
    let mut encoder = ZlibEncoder::new(Vec::new(), Compression::default());
    encoder.write_all(data).unwrap();
    encoder.finish().unwrap()
}

#[test]
fn flate_decode_inflates() {
    let data = b"Hello, compressed PDF world! Hello, compressed PDF world!";
    let compressed = compress(data);
    assert_ne!(compressed, data.to_vec());
    assert_eq!(FlateDecode.decode(&compressed), Ok(data.to_vec()));
    assert_eq!(Filter::FlateDecode(FlateDecode).decode(&compressed), Ok(data.to_vec()));
}

#[test]
fn flate_decode_refuses_garbage() {
    assert_eq!(FlateDecode.decode(b"definitely not zlib"), Err(()));
}

#[test]
fn filter_chain() {
    let data = b"twice compressed";
    let twice = compress(&compress(data));
    let chain = vec![Filter::FlateDecode(FlateDecode), Filter::FlateDecode(FlateDecode)];
    assert_eq!(chain.decode(&twice), Ok(data.to_vec()));
    // No filter: the bytes are unchanged.
    let none: Vec<Filter> = vec![];
    assert_eq!(none.decode(b"raw"), Ok(b"raw".to_vec()));
    // A failing step fails the chain.
    let once = compress(data);
    assert_eq!(chain.decode(&once), Err(()));
}

#[test]
fn filter_names() {
    assert_eq!(Filter::extract(b"/FlateDecode").unwrap(), (Filter::FlateDecode(FlateDecode), 12));
    assert_eq!(Filter::extract(b"/LZWDecode"), Err(ParseError::Backtrack));
}

#[test]
fn compressed_stream() {
    let data = b"BT /F1 12 Tf (Hello) Tj ET";
    let compressed = compress(data);
    let mut input = format!("<</Length {}/Filter /FlateDecode>>\nstream\n", compressed.len()).into_bytes();
    input.extend_from_slice(&compressed);
    input.extend_from_slice(b"\nendstream");
    let (Stream { structured, content }, n) = Stream::<Nil>::extract(&input).unwrap();
    assert_eq!(structured, Nil);
    assert_eq!(content, data.to_vec());
    assert_eq!(n, input.len());
}

#[test]
fn corrupt_compressed_stream_is_cut() {
    let input = b"<</Length 4/Filter /FlateDecode>>stream\nabcd\nendstream";
    assert_eq!(Stream::<Nil>::extract(input), Err(ParseError::Cut));
}
