use avro_container::{Codec, Error, Writer};
use std::io::Read;

/// A file taken apart as a reader would.
struct Parsed {
    metadata: Vec<(Vec<u8>, Vec<u8>)>,
    marker: Vec<u8>,
    blocks: Vec<(i64, Vec<u8>)>,
}

fn read_long(bytes: &[u8], at: &mut usize) -> i64 {
    let mut folded: u64 = 0;
    let mut shift = 0;
    loop {
        let byte = bytes[*at];
        *at += 1;
        folded |= u64::from(byte & 0x7F) << shift;
        shift += 7;
        if byte & 0x80 == 0 {
            break;
        }
    }
    ((folded >> 1) as i64) ^ -((folded & 1) as i64)
}

fn read_bytes(bytes: &[u8], at: &mut usize) -> Vec<u8> {
    let len = read_long(bytes, at) as usize;
    let data = bytes[*at..*at + len].to_vec();
    *at += len;
    data
}

fn parse(bytes: &[u8]) -> Parsed {
    assert_eq!(&bytes[..4], &[b'O', b'b', b'j', 1u8][..]);
    let mut at = 4;
    let mut metadata = Vec::new();
    loop {
        let count = read_long(bytes, &mut at);
        if count == 0 {
            break;
        }
        assert!(count > 0);
        for _ in 0..count {
            let key = read_bytes(bytes, &mut at);
            let value = read_bytes(bytes, &mut at);
            metadata.push((key, value));
        }
    }
    let marker = bytes[at..at + 16].to_vec();
    at += 16;
    let mut blocks = Vec::new();
    while at < bytes.len() {
        let count = read_long(bytes, &mut at);
        let payload = read_bytes(bytes, &mut at);
        assert_eq!(&bytes[at..at + 16], &marker[..]);
        at += 16;
        blocks.push((count, payload));
    }
    assert_eq!(at, bytes.len());
    Parsed { metadata, marker, blocks }
}

fn inflate(stream: &[u8]) -> Vec<u8> {
    let mut decoder = libflate::deflate::Decoder::new(stream);
    let mut data = Vec::new();
    decoder.read_to_end(&mut data).unwrap();
    data
}

fn unframe(stream: &[u8]) -> Vec<u8> {
    let mut decoder = snap::read::FrameDecoder::new(stream);
    let mut data = Vec::new();
    decoder.read_to_end(&mut data).unwrap();
    data
}

const SCHEMA: &str = r#"{"type":"long"}"#;

#[test]
fn header_layout() {
    let mut writer = Writer::new(SCHEMA, Vec::new());
    assert_eq!(writer.header(), Ok(66));
    let bytes = writer.into_inner();
    assert_eq!(bytes.len(), 66);
    let mut expected = vec![b'O', b'b', b'j', 1u8];
    expected.push(4); // two entries
    expected.push(22); // a key of eleven bytes
    expected.extend_from_slice(b"avro.schema");
    expected.push(30); // a value of fifteen bytes
    expected.extend_from_slice(SCHEMA.as_bytes());
    expected.push(20); // a key of ten bytes
    expected.extend_from_slice(b"avro.codec");
    expected.push(8); // a value of four bytes
    expected.extend_from_slice(b"null");
    expected.push(0); // the end of the map
    assert_eq!(&bytes[..50], &expected[..]);
}

#[test]
fn header_names_the_codec() {
    for (codec, name) in [
        (Codec::Null, &b"null"[..]),
        (Codec::Deflate, &b"deflate"[..]),
        (Codec::Snappy, &b"snappy"[..]),
    ] {
        let mut writer = Writer::with_codec(SCHEMA, Vec::new(), codec);
        let written = writer.header().unwrap();
        let bytes = writer.into_inner();
        assert_eq!(written, bytes.len());
        let parsed = parse(&bytes);
        assert_eq!(
            parsed.metadata,
            vec![
                (b"avro.schema".to_vec(), SCHEMA.as_bytes().to_vec()),
                (b"avro.codec".to_vec(), name.to_vec()),
            ]
        );
        assert!(parsed.blocks.is_empty());
    }
}

#[test]
fn header_of_a_long_schema() {
    let schema = format!(r#"{{"type":"record","name":"r","doc":"{}"}}"#, "x".repeat(300));
    let mut writer = Writer::new(&schema, Vec::new());
    writer.header().unwrap();
    let bytes = writer.into_inner();
    // The length 337 is written as 674 in groups of seven bits.
    assert_eq!(schema.len(), 337);
    assert_eq!(&bytes[17..19], &[0xA2, 0x05][..]);
    let parsed = parse(&bytes);
    assert_eq!(parsed.metadata[0].1, schema.as_bytes().to_vec());
}

#[test]
fn schema_text_beyond_ascii() {
    let schema = "{\"doc\":\"\u{e9}\u{4e2d}\"}";
    let mut writer = Writer::new(schema, Vec::new());
    writer.header().unwrap();
    let parsed = parse(&writer.into_inner());
    assert_eq!(parsed.metadata[0].1, schema.as_bytes().to_vec());
}

#[test]
fn first_batch_writes_header_and_block() {
    let mut writer = Writer::new(SCHEMA, Vec::new());
    let written = writer.extend(vec![Some(vec![2]), Some(vec![4]), Some(vec![0x80, 0x01])]);
    assert_eq!(written, Ok(66 + 1 + 1 + 4 + 16));
    let bytes = writer.into_inner();
    assert_eq!(bytes.len(), 88);
    assert_eq!(&bytes[66..72], &[6, 8, 2, 4, 0x80, 0x01][..]);
    assert_eq!(&bytes[72..], &bytes[50..66]);
    let parsed = parse(&bytes);
    assert_eq!(parsed.blocks, vec![(3, vec![2, 4, 0x80, 0x01])]);
}

#[test]
fn header_is_written_once() {
    let mut writer = Writer::new(SCHEMA, Vec::new());
    let first = writer.extend(vec![Some(vec![2])]).unwrap();
    let second = writer.extend(vec![Some(vec![4]), Some(vec![6])]).unwrap();
    let third = writer.append(Some(vec![8])).unwrap();
    assert_eq!(first, 66 + 19);
    assert_eq!(second, 20);
    assert_eq!(third, 19);
    let bytes = writer.into_inner();
    assert_eq!(bytes.len(), first + second + third);
    let magic = [b'O', b'b', b'j', 1u8];
    assert_eq!(bytes.windows(4).filter(|window| *window == &magic[..]).count(), 1);
    let parsed = parse(&bytes);
    assert_eq!(parsed.blocks, vec![(1, vec![2]), (2, vec![4, 6]), (1, vec![8])]);
}

#[test]
fn explicit_header_is_not_repeated_by_a_batch() {
    let mut writer = Writer::new(SCHEMA, Vec::new());
    assert_eq!(writer.header(), Ok(66));
    assert_eq!(writer.extend(vec![Some(vec![2])]), Ok(19));
    let parsed = parse(&writer.into_inner());
    assert_eq!(parsed.blocks, vec![(1, vec![2])]);
}

#[test]
fn explicit_header_twice_is_written_twice() {
    let mut writer = Writer::new(SCHEMA, Vec::new());
    assert_eq!(writer.header(), Ok(66));
    assert_eq!(writer.header(), Ok(66));
    let bytes = writer.into_inner();
    assert_eq!(bytes.len(), 132);
    assert_eq!(&bytes[..66], &bytes[66..]);
}

#[test]
fn append_is_a_batch_of_one() {
    let mut one = Writer::new(SCHEMA, Vec::new());
    let mut other = Writer::new(SCHEMA, Vec::new());
    let appended = one.append(Some(vec![1, 2, 3])).unwrap();
    let extended = other.extend(vec![Some(vec![1, 2, 3])]).unwrap();
    assert_eq!(appended, extended);
    let one = parse(&one.into_inner());
    let other = parse(&other.into_inner());
    assert_eq!(one.blocks, other.blocks);
    assert_eq!(one.blocks, vec![(1, vec![1, 2, 3])]);
}

#[test]
fn mismatch_leaves_the_sink_alone() {
    let mut writer = Writer::new(SCHEMA, Vec::new());
    assert_eq!(writer.extend(vec![Some(vec![2]), None, Some(vec![4])]), Err(Error::SchemaMismatch));
    assert_eq!(writer.append(None), Err(Error::SchemaMismatch));
    // Nothing was written, the header neither: the next batch brings it.
    assert_eq!(writer.extend(vec![Some(vec![2])]), Ok(66 + 19));
    assert_eq!(writer.extend(vec![None]), Err(Error::SchemaMismatch));
    assert_eq!(writer.extend(vec![Some(vec![6]), Some(vec![8]), None]), Err(Error::SchemaMismatch));
    assert_eq!(writer.extend(vec![Some(vec![4])]), Ok(19));
    let bytes = writer.into_inner();
    assert_eq!(bytes.len(), 66 + 19 + 19);
    let parsed = parse(&bytes);
    assert_eq!(parsed.blocks, vec![(1, vec![2]), (1, vec![4])]);
}

#[test]
fn mismatch_under_every_codec() {
    for codec in [Codec::Null, Codec::Deflate, Codec::Snappy] {
        let mut writer = Writer::with_codec(SCHEMA, vec![9, 9], codec);
        assert_eq!(writer.extend(vec![None, Some(vec![2])]), Err(Error::SchemaMismatch));
        assert_eq!(writer.into_inner(), vec![9, 9]);
    }
}

#[test]
fn empty_batch_is_an_empty_block() {
    let mut writer = Writer::new(SCHEMA, Vec::new());
    assert_eq!(writer.extend(Vec::new()), Ok(66 + 18));
    let bytes = writer.into_inner();
    assert_eq!(&bytes[66..68], &[0, 0][..]);
    let parsed = parse(&bytes);
    assert_eq!(parsed.blocks, vec![(0, Vec::new())]);
}

#[test]
fn values_without_bytes_still_count() {
    let mut writer = Writer::new(SCHEMA, Vec::new());
    writer.extend(vec![Some(Vec::new()), Some(vec![7]), Some(Vec::new())]).unwrap();
    let parsed = parse(&writer.into_inner());
    assert_eq!(parsed.blocks, vec![(3, vec![7])]);
}

#[test]
fn counts_and_lengths_of_more_than_one_byte() {
    let mut writer = Writer::new(SCHEMA, Vec::new());
    let values: Vec<Option<Vec<u8>>> = (0..100u8).map(|i| Some(vec![i, i])).collect();
    let written = writer.extend(values).unwrap();
    let bytes = writer.into_inner();
    assert_eq!(written, bytes.len());
    // 63 is the last count of one byte, 100 is written as 200.
    assert_eq!(&bytes[66..70], &[0xC8, 0x01, 0x90, 0x03][..]);
    let parsed = parse(&bytes);
    let payload: Vec<u8> = (0..100u8).flat_map(|i| [i, i]).collect();
    assert_eq!(parsed.blocks, vec![(100, payload)]);

    let mut writer = Writer::new(SCHEMA, Vec::new());
    writer.extend((0..63u8).map(|i| Some(vec![i])).collect()).unwrap();
    writer.extend((0..64u8).map(|i| Some(vec![i])).collect()).unwrap();
    let bytes = writer.into_inner();
    assert_eq!(&bytes[66..68], &[126, 126][..]);
    assert_eq!(&bytes[66 + 2 + 63 + 16..66 + 2 + 63 + 16 + 4], &[0x80, 0x01, 0x80, 0x01][..]);
    let parsed = parse(&bytes);
    assert_eq!(parsed.blocks.len(), 2);
    assert_eq!(parsed.blocks[0].0, 63);
    assert_eq!(parsed.blocks[1].0, 64);
}

#[test]
fn a_large_payload() {
    let mut writer = Writer::new(SCHEMA, Vec::new());
    let value: Vec<u8> = (0..70_000usize).map(|i| (i % 253) as u8).collect();
    let written = writer.extend(vec![Some(value.clone()), Some(value.clone())]).unwrap();
    let bytes = writer.into_inner();
    assert_eq!(written, bytes.len());
    let parsed = parse(&bytes);
    assert_eq!(parsed.blocks.len(), 1);
    assert_eq!(parsed.blocks[0].0, 2);
    assert_eq!(parsed.blocks[0].1, [value.clone(), value].concat());
}

#[test]
fn deflate_blocks_inflate_to_the_encodings() {
    let mut writer = Writer::with_codec(SCHEMA, Vec::new(), Codec::Deflate);
    let first = vec![Some(vec![2, 4, 6]), Some(vec![8; 500])];
    let second: Vec<Option<Vec<u8>>> = (0..70_000usize).map(|i| Some(vec![(i % 7) as u8])).collect();
    let a = writer.extend(first).unwrap();
    let b = writer.extend(second).unwrap();
    let c = writer.extend(Vec::new()).unwrap();
    let bytes = writer.into_inner();
    assert_eq!(a + b + c, bytes.len());
    let parsed = parse(&bytes);
    assert_eq!(parsed.metadata[1].1, b"deflate".to_vec());
    assert_eq!(parsed.blocks.len(), 3);
    assert_eq!(parsed.blocks[0].0, 2);
    assert_eq!(inflate(&parsed.blocks[0].1), [vec![2, 4, 6], vec![8; 500]].concat());
    assert!(parsed.blocks[0].1.len() < 503);
    assert_eq!(parsed.blocks[1].0, 70_000);
    let expected: Vec<u8> = (0..70_000usize).map(|i| (i % 7) as u8).collect();
    assert_eq!(inflate(&parsed.blocks[1].1), expected);
    assert_eq!(parsed.blocks[2].0, 0);
    assert_eq!(inflate(&parsed.blocks[2].1), Vec::<u8>::new());
}

#[test]
fn snappy_blocks_unframe_to_the_encodings() {
    let mut writer = Writer::with_codec(SCHEMA, Vec::new(), Codec::Snappy);
    let first = vec![Some(vec![2, 4, 6]), Some(vec![8; 500])];
    let second: Vec<Option<Vec<u8>>> = (0..70_000usize).map(|i| Some(vec![(i % 7) as u8])).collect();
    writer.extend(first).unwrap();
    writer.extend(second).unwrap();
    writer.extend(Vec::new()).unwrap();
    let parsed = parse(&writer.into_inner());
    assert_eq!(parsed.metadata[1].1, b"snappy".to_vec());
    assert_eq!(parsed.blocks.len(), 3);
    assert_eq!(parsed.blocks[0].0, 2);
    assert_eq!(unframe(&parsed.blocks[0].1), [vec![2, 4, 6], vec![8; 500]].concat());
    assert!(parsed.blocks[0].1.len() < 503);
    assert_eq!(parsed.blocks[1].0, 70_000);
    let expected: Vec<u8> = (0..70_000usize).map(|i| (i % 7) as u8).collect();
    assert_eq!(unframe(&parsed.blocks[1].1), expected);
    assert_eq!(unframe(&parsed.blocks[2].1), Vec::<u8>::new());
}

#[test]
fn a_batch_is_compressed_as_one_unit() {
    let mut writer = Writer::with_codec(SCHEMA, Vec::new(), Codec::Deflate);
    writer.extend(vec![Some(vec![1, 2]), Some(vec![3]), Some(vec![4, 5, 6])]).unwrap();
    let parsed = parse(&writer.into_inner());
    assert_eq!(
        Ok(parsed.blocks[0].1.clone()),
        Codec::Deflate.compress(vec![1, 2, 3, 4, 5, 6])
    );
}

#[test]
fn write_block_takes_the_payload_as_it_is() {
    let mut writer = Writer::with_codec(SCHEMA, Vec::new(), Codec::Deflate);
    assert_eq!(writer.write_block(5, vec![0xAA, 0xBB]), 69 + 1 + 1 + 2 + 16);
    assert_eq!(writer.write_block(0, Vec::new()), 18);
    let bytes = writer.into_inner();
    let parsed = parse(&bytes);
    assert_eq!(parsed.blocks, vec![(5, vec![0xAA, 0xBB]), (0, Vec::new())]);
}

#[test]
fn blocks_go_behind_what_the_sink_holds() {
    let mut writer = Writer::new(SCHEMA, vec![0xDE, 0xAD]);
    assert_eq!(writer.extend(vec![Some(vec![2])]), Ok(66 + 19));
    let bytes = writer.into_inner();
    assert_eq!(&bytes[..2], &[0xDE, 0xAD][..]);
    let parsed = parse(&bytes[2..]);
    assert_eq!(parsed.blocks, vec![(1, vec![2])]);
}

#[test]
fn marker_is_the_same_through_the_file() {
    let mut writer = Writer::new(SCHEMA, Vec::new());
    for i in 0..5u8 {
        writer.append(Some(vec![i])).unwrap();
    }
    let bytes = writer.into_inner();
    let parsed = parse(&bytes);
    assert_eq!(parsed.marker.len(), 16);
    assert_eq!(parsed.blocks.len(), 5);
    for (i, start) in (66..bytes.len()).step_by(19).enumerate() {
        assert_eq!(bytes[start], 2);
        assert_eq!(bytes[start + 1], 2);
        assert_eq!(bytes[start + 2], i as u8);
        assert_eq!(&bytes[start + 3..start + 19], &parsed.marker[..]);
    }
}

#[test]
fn markers_of_two_writers_differ() {
    let mut one = Writer::new(SCHEMA, Vec::new());
    let mut other = Writer::new(SCHEMA, Vec::new());
    one.header().unwrap();
    other.header().unwrap();
    let one = parse(&one.into_inner());
    let other = parse(&other.into_inner());
    assert_ne!(one.marker, other.marker);
    assert_ne!(one.marker, vec![0u8; 16]);
}

#[test]
fn into_inner_of_a_fresh_writer() {
    assert_eq!(Writer::new(SCHEMA, Vec::new()).into_inner(), Vec::<u8>::new());
    assert_eq!(Writer::with_codec(SCHEMA, vec![1, 2, 3], Codec::Snappy).into_inner(), vec![1, 2, 3]);
}

#[test]
fn written_bytes_can_be_taken_as_they_come() {
    let mut whole = Writer::new(SCHEMA, Vec::new());
    let mut piecewise = Writer::new(SCHEMA, Vec::new());
    let mut pieces: Vec<u8> = Vec::new();
    assert_eq!(piecewise.take_written(), Vec::<u8>::new());
    for i in 0..4u8 {
        let written = whole.append(Some(vec![i; 3])).unwrap();
        assert_eq!(piecewise.append(Some(vec![i; 3])), Ok(written));
        let piece = piecewise.take_written();
        assert_eq!(piece.len(), written);
        pieces.extend_from_slice(&piece);
    }
    assert_eq!(piecewise.extend(vec![None]), Err(Error::SchemaMismatch));
    assert_eq!(piecewise.take_written(), Vec::<u8>::new());
    assert_eq!(piecewise.into_inner(), Vec::<u8>::new());
    let pieces = parse(&pieces);
    let whole = parse(&whole.into_inner());
    assert_eq!(pieces.blocks, whole.blocks);
    assert_eq!(pieces.metadata, whole.metadata);
    assert_eq!(pieces.blocks.len(), 4);
}

const MARKER: [u8; 16] = [
    0x10, 0x21, 0x32, 0x43, 0x54, 0x65, 0x76, 0x87, 0x98, 0xA9, 0xBA, 0xCB, 0xDC, 0xED, 0xFE, 0x0F,
];

#[test]
fn a_given_marker_is_kept_byte_for_byte() {
    let mut writer = Writer::with_marker(SCHEMA, Vec::new(), Codec::Null, MARKER);
    writer.header().unwrap();
    let bytes = writer.into_inner();
    assert_eq!(&bytes[50..], &MARKER[..]);
    assert_eq!(parse(&bytes).marker, MARKER.to_vec());
}

#[test]
fn a_whole_file_with_a_given_marker() {
    let mut writer = Writer::with_marker(SCHEMA, Vec::new(), Codec::Null, MARKER);
    assert_eq!(writer.extend(vec![Some(vec![2]), Some(vec![4, 6])]), Ok(66 + 21));
    assert_eq!(writer.append(Some(vec![8])), Ok(19));
    let mut expected = vec![b'O', b'b', b'j', 1u8, 4, 22];
    expected.extend_from_slice(b"avro.schema");
    expected.push(30);
    expected.extend_from_slice(SCHEMA.as_bytes());
    expected.push(20);
    expected.extend_from_slice(b"avro.codec");
    expected.push(8);
    expected.extend_from_slice(b"null");
    expected.push(0);
    expected.extend_from_slice(&MARKER);
    expected.extend_from_slice(&[4, 6, 2, 4, 6]);
    expected.extend_from_slice(&MARKER);
    expected.extend_from_slice(&[2, 2, 8]);
    expected.extend_from_slice(&MARKER);
    assert_eq!(writer.into_inner(), expected);
}

#[test]
fn a_given_marker_under_every_codec() {
    for codec in [Codec::Null, Codec::Deflate, Codec::Snappy] {
        let mut writer = Writer::with_marker(SCHEMA, vec![7], codec, MARKER);
        writer.extend(vec![Some(vec![1; 40])]).unwrap();
        writer.extend(vec![Some(vec![2; 40])]).unwrap();
        let bytes = writer.into_inner();
        assert_eq!(bytes[0], 7);
        let parsed = parse(&bytes[1..]);
        assert_eq!(parsed.marker, MARKER.to_vec());
        assert_eq!(parsed.blocks.len(), 2);
        assert_eq!(&bytes[bytes.len() - 16..], &MARKER[..]);
    }
}

#[test]
fn append_ends_as_a_batch_of_one_does() {
    for codec in [Codec::Null, Codec::Deflate, Codec::Snappy] {
        for value in [Some(vec![1u8, 2, 3]), Some(Vec::new()), Some(vec![9; 1000]), None] {
            let mut one = Writer::with_marker(SCHEMA, vec![5, 5], codec, MARKER);
            let mut other = Writer::with_marker(SCHEMA, vec![5, 5], codec, MARKER);
            assert_eq!(one.append(value.clone()), other.extend(vec![value.clone()]));
            // The second call finds the header written, or not, alike.
            assert_eq!(one.append(value.clone()), other.extend(vec![value.clone()]));
            assert_eq!(one.append(Some(vec![4])), other.extend(vec![Some(vec![4])]));
            assert_eq!(one.into_inner(), other.into_inner());
        }
    }
}

#[test]
fn compressing_codecs_succeed_on_what_has_encodings() {
    for codec in [Codec::Deflate, Codec::Snappy] {
        let mut writer = Writer::with_marker(SCHEMA, Vec::new(), codec, MARKER);
        assert!(writer.extend(Vec::new()).is_ok());
        assert!(writer.extend(vec![Some(Vec::new())]).is_ok());
        assert!(writer.append(Some(vec![0; 70_000])).is_ok());
        assert_eq!(writer.append(None), Err(Error::SchemaMismatch));
        assert_eq!(parse(&writer.into_inner()).blocks.len(), 3);
    }
}

#[test]
fn same_marker_same_input_same_file() {
    for codec in [Codec::Null, Codec::Deflate, Codec::Snappy] {
        let mut one = Writer::with_marker(SCHEMA, Vec::new(), codec, MARKER);
        let mut other = Writer::with_marker(SCHEMA, Vec::new(), codec, MARKER);
        let batch: Vec<Option<Vec<u8>>> = (0..300usize).map(|i| Some(vec![(i % 11) as u8; 9])).collect();
        assert_eq!(one.extend(batch.clone()), other.extend(batch));
        assert_eq!(one.into_inner(), other.into_inner());
    }
}
