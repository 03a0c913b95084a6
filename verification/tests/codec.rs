use avro_container::{Codec, Error};
use std::io::Read;

fn inflate(stream: &[u8]) -> Vec<u8> {
    let mut decoder = libflate::deflate::Decoder::new(stream);
    let mut data = Vec::new();
    decoder.read_to_end(&mut data).unwrap();
    data
}

fn unframe(stream: &[u8]) -> Vec<u8> {
    let mut decoder = snap::read::FrameDecoder::new(stream);
    let mut data = Vec::new();
    decoder.read_to_end(&mut data).unwrap();
    data
}

fn sample(len: usize) -> Vec<u8> {
    (0..len).map(|i| ((i * 31 + i / 7) % 251) as u8).collect()
}

#[test]
fn codec_names() {
    assert_eq!(Codec::Null.avro(), b"null".to_vec());
    assert_eq!(Codec::Deflate.avro(), b"deflate".to_vec());
    assert_eq!(Codec::Snappy.avro(), b"snappy".to_vec());
}

#[test]
fn null_hands_the_data_back() {
    assert_eq!(Codec::Null.compress(Vec::new()), Ok(Vec::new()));
    assert_eq!(Codec::Null.compress(vec![1, 2, 3]), Ok(vec![1, 2, 3]));
    let large = sample(70_000);
    assert_eq!(Codec::Null.compress(large.clone()), Ok(large));
}

#[test]
fn deflate_of_nothing_inflates_to_nothing() {
    let stream = Codec::Deflate.compress(Vec::new()).unwrap();
    assert!(!stream.is_empty());
    assert_eq!(inflate(&stream), Vec::<u8>::new());
}

#[test]
fn deflate_inflates_to_the_data() {
    let data = b"Hello World!".to_vec();
    let stream = Codec::Deflate.compress(data.clone()).unwrap();
    assert_ne!(stream, data);
    assert_eq!(inflate(&stream), data);
}

#[test]
fn deflate_of_more_than_one_window() {
    let data = sample(200_000);
    let stream = Codec::Deflate.compress(data.clone()).unwrap();
    assert_ne!(stream, data);
    assert_eq!(inflate(&stream), data);
    let zeros = vec![0u8; 70_000];
    let stream = Codec::Deflate.compress(zeros.clone()).unwrap();
    assert!(stream.len() < zeros.len());
    assert_eq!(inflate(&stream), zeros);
}

#[test]
fn deflate_is_a_function_of_the_data() {
    let data = sample(5_000);
    assert_eq!(Codec::Deflate.compress(data.clone()), Codec::Deflate.compress(data));
}

#[test]
fn snappy_of_nothing_unframes_to_nothing() {
    let stream = Codec::Snappy.compress(Vec::new()).unwrap();
    assert_eq!(unframe(&stream), Vec::<u8>::new());
}

#[test]
fn snappy_unframes_to_the_data() {
    let data = b"Hello World! Hello World! Hello World!".to_vec();
    let stream = Codec::Snappy.compress(data.clone()).unwrap();
    assert_ne!(stream, data);
    assert_eq!(unframe(&stream), data);
}

#[test]
fn snappy_of_more_than_one_frame() {
    let data = sample(200_000);
    let stream = Codec::Snappy.compress(data.clone()).unwrap();
    assert_ne!(stream, data);
    assert_eq!(unframe(&stream), data);
    let zeros = vec![0u8; 70_000];
    let stream = Codec::Snappy.compress(zeros.clone()).unwrap();
    assert!(stream.len() < zeros.len());
    assert_eq!(unframe(&stream), zeros);
}

#[test]
fn snappy_is_a_function_of_the_data() {
    let data = sample(70_000);
    assert_eq!(Codec::Snappy.compress(data.clone()), Codec::Snappy.compress(data));
}

#[test]
fn codecs_and_errors_compare() {
    assert_eq!(Codec::Null, Codec::Null);
    assert_ne!(Codec::Null, Codec::Deflate);
    assert_ne!(Codec::Deflate, Codec::Snappy);
    assert_ne!(Error::Compression, Error::SchemaMismatch);
    assert_eq!(
        Error::SignExtend { requested: 1, needed: 2 },
        Error::SignExtend { requested: 1, needed: 2 }
    );
    assert_ne!(
        Error::SignExtend { requested: 1, needed: 2 },
        Error::SignExtend { requested: 2, needed: 1 }
    );
}
