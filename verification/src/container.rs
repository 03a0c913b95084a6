//! The byte layout of an object container file, and how a reader takes it
//! apart.
//!
//! A file is a header followed by blocks. The header is the magic bytes, a
//! map of metadata and a sync marker of sixteen bytes. A block is a record
//! count, the length of its payload, the payload, and the same marker.

use crate::varint::{lemma_parse_long, lemma_varint_len, long_bytes, parse_long, zigzag};
use vstd::prelude::*;

verus! {

/// One entry of the header's metadata: a key and its value.
pub type Entry = (Seq<u8>, Seq<u8>);

/// What a header holds.
pub struct Header {
    pub metadata: Seq<Entry>,
    pub marker: Seq<u8>,
}

/// What a block holds, besides the marker that ends it.
pub struct Block {
    pub count: int,
    pub payload: Seq<u8>,
}

/// What a file holds.
pub struct Container {
    pub header: Header,
    pub blocks: Seq<Block>,
}

/// The length of a sync marker.
pub open spec fn marker_len() -> nat {
    16
}

/// The four bytes that open a file: `Obj` in ASCII, then 1.
pub open spec fn magic() -> Seq<u8> {
    seq![0x4Fu8, 0x62, 0x6A, 0x01]
}

/// The metadata key of the schema, `avro.schema` in ASCII.
pub open spec fn schema_key() -> Seq<u8> {
    seq![0x61u8, 0x76, 0x72, 0x6F, 0x2E, 0x73, 0x63, 0x68, 0x65, 0x6D, 0x61]
}

/// The metadata key of the codec, `avro.codec` in ASCII.
pub open spec fn codec_key() -> Seq<u8> {
    seq![0x61u8, 0x76, 0x72, 0x6F, 0x2E, 0x63, 0x6F, 0x64, 0x65, 0x63]
}

/// A string or a run of bytes: its length, then its bytes.
pub open spec fn length_prefixed(data: Seq<u8>) -> Seq<u8> {
    long_bytes(data.len() as int) + data
}

/// One metadata entry: the key, then the value, each with its length.
pub open spec fn entry_bytes(entry: Entry) -> Seq<u8> {
    length_prefixed(entry.0) + length_prefixed(entry.1)
}

/// The metadata that a writer puts into the header: the schema's JSON text
/// and the codec's name, in this order.
pub open spec fn written_metadata(schema: Seq<u8>, codec_name: Seq<u8>) -> Seq<Entry> {
    seq![(schema_key(), schema), (codec_key(), codec_name)]
}

/// Metadata entries one after the other.
pub open spec fn entries_bytes(entries: Seq<Entry>) -> Seq<u8>
    decreases entries.len(),
{
    if entries.len() == 0 {
        Seq::empty()
    } else {
        entry_bytes(entries.first()) + entries_bytes(entries.skip(1))
    }
}

/// A metadata map with at least one entry, written as one run: the number
/// of entries, the entries, and the count zero that ends the map.
pub open spec fn map_bytes(entries: Seq<Entry>) -> Seq<u8> {
    long_bytes(entries.len() as int) + entries_bytes(entries) + long_bytes(0)
}

/// The header's metadata map.
pub open spec fn metadata_bytes(schema: Seq<u8>, codec_name: Seq<u8>) -> Seq<u8> {
    map_bytes(written_metadata(schema, codec_name))
}

/// The header: magic, metadata, marker.
pub open spec fn header_bytes(schema: Seq<u8>, codec_name: Seq<u8>, marker: Seq<u8>) -> Seq<u8> {
    magic() + metadata_bytes(schema, codec_name) + marker
}

/// One block: record count, payload with its length, marker.
pub open spec fn block_bytes(block: Block, marker: Seq<u8>) -> Seq<u8> {
    long_bytes(block.count) + length_prefixed(block.payload) + marker
}

/// Blocks one after the other.
pub open spec fn blocks_bytes(blocks: Seq<Block>, marker: Seq<u8>) -> Seq<u8>
    decreases blocks.len(),
{
    if blocks.len() == 0 {
        Seq::empty()
    } else {
        block_bytes(blocks.first(), marker) + blocks_bytes(blocks.skip(1), marker)
    }
}

/// A whole file: the header, then the blocks.
pub open spec fn container_bytes(
    schema: Seq<u8>,
    codec_name: Seq<u8>,
    marker: Seq<u8>,
    blocks: Seq<Block>,
) -> Seq<u8> {
    header_bytes(schema, codec_name, marker) + blocks_bytes(blocks, marker)
}

/// Reads a length and that many bytes from the front of `bytes`: the bytes
/// read and how many bytes this took in all.
pub open spec fn parse_length_prefixed(bytes: Seq<u8>) -> Option<(Seq<u8>, nat)> {
    match parse_long(bytes) {
        Some((length, used)) => if 0 <= length && used + length <= bytes.len() {
            Some((bytes.subrange(used as int, used as int + length), (used + length) as nat))
        } else {
            None
        },
        None => None,
    }
}

/// Reads `count` metadata entries from the front of `bytes`.
pub open spec fn parse_entries(bytes: Seq<u8>, count: nat) -> Option<(Seq<Entry>, nat)>
    decreases count,
{
    if count == 0 {
        Some((Seq::empty(), 0))
    } else {
        match parse_length_prefixed(bytes) {
            Some((key, key_used)) => match parse_length_prefixed(bytes.skip(key_used as int)) {
                Some((value, value_used)) => match parse_entries(
                    bytes.skip((key_used + value_used) as int),
                    (count - 1) as nat,
                ) {
                    Some((more, more_used)) => Some(
                        (seq![(key, value)] + more, key_used + value_used + more_used),
                    ),
                    None => None,
                },
                None => None,
            },
            None => None,
        }
    }
}

/// Reads a metadata map from the front of `bytes`: runs of entries, each
/// run behind its count, up to the count zero.
pub open spec fn parse_map(bytes: Seq<u8>) -> Option<(Seq<Entry>, nat)>
    decreases bytes.len(),
{
    match parse_long(bytes) {
        Some((count, used)) => if count == 0 {
            Some((Seq::empty(), used))
        } else if count > 0 {
            match parse_entries(bytes.skip(used as int), count as nat) {
                Some((entries, entries_used)) => if 0 < used + entries_used <= bytes.len() {
                    match parse_map(bytes.skip((used + entries_used) as int)) {
                        Some((more, more_used)) => Some(
                            (entries + more, used + entries_used + more_used),
                        ),
                        None => None,
                    }
                } else {
                    None
                },
                None => None,
            }
        } else {
            None
        },
        None => None,
    }
}

/// Reads a header from the front of `bytes`: what it holds and its length.
pub open spec fn parse_header(bytes: Seq<u8>) -> Option<(Header, nat)> {
    if bytes.len() >= 4 && bytes.subrange(0, 4) == magic() {
        match parse_map(bytes.skip(4)) {
            Some((metadata, used)) => if 4 + used + marker_len() <= bytes.len() {
                Some(
                    (
                        Header {
                            metadata,
                            marker: bytes.subrange(4 + used as int, 4 + used + marker_len() as int),
                        },
                        4 + used + marker_len(),
                    ),
                )
            } else {
                None
            },
            None => None,
        }
    } else {
        None
    }
}

/// Reads one block from the front of `bytes` and checks that `marker` ends
/// it: what the block holds and its length.
pub open spec fn parse_block(bytes: Seq<u8>, marker: Seq<u8>) -> Option<(Block, nat)> {
    match parse_long(bytes) {
        Some((count, count_used)) => match parse_length_prefixed(bytes.skip(count_used as int)) {
            Some((payload, payload_used)) => {
                let end = count_used + payload_used + marker.len();
                if end <= bytes.len() && bytes.subrange((count_used + payload_used) as int, end as int)
                    == marker {
                    Some((Block { count, payload }, end))
                } else {
                    None
                }
            },
            None => None,
        },
        None => None,
    }
}

/// Reads blocks up to the end of `bytes`.
pub open spec fn parse_blocks(bytes: Seq<u8>, marker: Seq<u8>) -> Option<Seq<Block>>
    decreases bytes.len(),
{
    if bytes.len() == 0 {
        Some(Seq::empty())
    } else {
        match parse_block(bytes, marker) {
            Some((block, used)) => if 0 < used <= bytes.len() {
                match parse_blocks(bytes.skip(used as int), marker) {
                    Some(more) => Some(seq![block] + more),
                    None => None,
                }
            } else {
                None
            },
            None => None,
        }
    }
}

/// Reads a whole file: the header, then blocks up to the end, each ended
/// by the header's marker.
pub open spec fn parse_container(bytes: Seq<u8>) -> Option<Container> {
    match parse_header(bytes) {
        Some((header, used)) => match parse_blocks(bytes.skip(used as int), header.marker) {
            Some(blocks) => Some(Container { header, blocks }),
            None => None,
        },
        None => None,
    }
}

/// The header's metadata, part by part.
pub proof fn lemma_metadata_bytes(schema: Seq<u8>, codec_name: Seq<u8>)
    ensures
        metadata_bytes(schema, codec_name) =~= long_bytes(2) + length_prefixed(schema_key())
            + length_prefixed(schema) + length_prefixed(codec_key()) + length_prefixed(codec_name)
            + long_bytes(0),
{
    let entries = written_metadata(schema, codec_name);
    assert(entries.skip(1) =~= seq![(codec_key(), codec_name)]);
    assert(entries.skip(1).skip(1) =~= Seq::<Entry>::empty());
    assert(entries_bytes(entries.skip(1).skip(1)) =~= Seq::<u8>::empty());
    assert(entries_bytes(entries.skip(1)) =~= entry_bytes((codec_key(), codec_name)));
    assert(entries_bytes(entries) =~= entry_bytes((schema_key(), schema)) + entry_bytes(
        (codec_key(), codec_name),
    ));
}

/// A run of bytes behind its length is read back whole, whatever follows.
pub proof fn lemma_parse_length_prefixed(data: Seq<u8>, rest: Seq<u8>)
    ensures
        parse_length_prefixed(length_prefixed(data) + rest) == Some(
            (data, length_prefixed(data).len()),
        ),
{
    let length = long_bytes(data.len() as int);
    let bytes = length_prefixed(data) + rest;
    assert(bytes =~= length + (data + rest));
    lemma_parse_long(data.len() as int, data + rest);
    assert(bytes.subrange(length.len() as int, (length.len() + data.len()) as int) =~= data);
}

/// Metadata entries are read back, entry for entry, whatever follows.
pub proof fn lemma_parse_entries(entries: Seq<Entry>, rest: Seq<u8>)
    ensures
        parse_entries(entries_bytes(entries) + rest, entries.len()) == Some(
            (entries, entries_bytes(entries).len()),
        ),
    decreases entries.len(),
{
    let bytes = entries_bytes(entries) + rest;
    if entries.len() == 0 {
        assert(entries =~= Seq::<Entry>::empty());
    } else {
        let first = entries.first();
        let more = entries.skip(1);
        let key = length_prefixed(first.0);
        let value = length_prefixed(first.1);
        let tail = entries_bytes(more) + rest;

        assert(bytes =~= key + (value + tail));
        lemma_parse_length_prefixed(first.0, value + tail);
        assert(parse_length_prefixed(bytes) == Some((first.0, key.len())));

        assert(bytes.skip(key.len() as int) =~= value + tail);
        lemma_parse_length_prefixed(first.1, tail);
        assert(parse_length_prefixed(bytes.skip(key.len() as int)) == Some(
            (first.1, value.len()),
        ));

        assert(bytes.skip((key.len() + value.len()) as int) =~= tail);
        lemma_parse_entries(more, rest);
        assert(parse_entries(tail, more.len()) == Some((more, entries_bytes(more).len())));

        assert(seq![(first.0, first.1)] + more =~= entries);
        assert(key.len() + value.len() + entries_bytes(more).len() == entries_bytes(
            entries,
        ).len());
    }
}

/// A metadata map written as one run is read back, entry for entry,
/// whatever follows.
pub proof fn lemma_parse_map(entries: Seq<Entry>, rest: Seq<u8>)
    requires
        entries.len() > 0,
    ensures
        parse_map(map_bytes(entries) + rest) == Some((entries, map_bytes(entries).len())),
{
    let count = long_bytes(entries.len() as int);
    let body = entries_bytes(entries);
    let end = long_bytes(0);
    let bytes = map_bytes(entries) + rest;

    assert(bytes =~= count + (body + end + rest));
    lemma_parse_long(entries.len() as int, body + end + rest);
    assert(parse_long(bytes) == Some((entries.len() as int, count.len())));
    lemma_varint_len(zigzag(entries.len() as int));

    assert(bytes.skip(count.len() as int) =~= body + (end + rest));
    lemma_parse_entries(entries, end + rest);
    assert(parse_entries(bytes.skip(count.len() as int), entries.len()) == Some(
        (entries, body.len()),
    ));

    let after = bytes.skip((count.len() + body.len()) as int);
    assert(after =~= end + rest);
    lemma_parse_long(0, rest);
    assert(parse_map(after) == Some((Seq::<Entry>::empty(), end.len())));
    assert(entries + Seq::<Entry>::empty() =~= entries);
}

/// A header is read back whole, whatever follows.
pub proof fn lemma_parse_header(
    schema: Seq<u8>,
    codec_name: Seq<u8>,
    marker: Seq<u8>,
    rest: Seq<u8>,
)
    requires
        marker.len() == marker_len(),
    ensures
        parse_header(header_bytes(schema, codec_name, marker) + rest) == Some(
            (
                Header { metadata: written_metadata(schema, codec_name), marker },
                header_bytes(schema, codec_name, marker).len(),
            ),
        ),
{
    let metadata = metadata_bytes(schema, codec_name);
    let bytes = header_bytes(schema, codec_name, marker) + rest;
    assert(bytes.subrange(0, 4) =~= magic());
    assert(bytes.skip(4) =~= metadata + (marker + rest));
    lemma_parse_map(written_metadata(schema, codec_name), marker + rest);
    assert(bytes.subrange(4 + metadata.len() as int, 4 + metadata.len() + marker_len() as int) =~= marker);
}

/// A block is read back whole, whatever follows.
pub proof fn lemma_parse_block(block: Block, marker: Seq<u8>, rest: Seq<u8>)
    ensures
        parse_block(block_bytes(block, marker) + rest, marker) == Some(
            (block, block_bytes(block, marker).len()),
        ),
{
    let count = long_bytes(block.count);
    let payload = length_prefixed(block.payload);
    let bytes = block_bytes(block, marker) + rest;
    assert(bytes =~= count + (payload + marker + rest));
    lemma_parse_long(block.count, payload + marker + rest);
    assert(bytes.skip(count.len() as int) =~= payload + (marker + rest));
    lemma_parse_length_prefixed(block.payload, marker + rest);
    assert(bytes.subrange(
        (count.len() + payload.len()) as int,
        (count.len() + payload.len() + marker.len()) as int,
    ) =~= marker);
}

/// Blocks written one after the other are read back, block for block.
pub proof fn lemma_parse_blocks(blocks: Seq<Block>, marker: Seq<u8>)
    ensures
        parse_blocks(blocks_bytes(blocks, marker), marker) == Some(blocks),
    decreases blocks.len(),
{
    if blocks.len() == 0 {
    } else {
        let first = block_bytes(blocks.first(), marker);
        let more = blocks_bytes(blocks.skip(1), marker);
        lemma_parse_block(blocks.first(), marker, more);
        lemma_varint_len(zigzag(blocks.first().count));
        assert((first + more).skip(first.len() as int) =~= more);
        lemma_parse_blocks(blocks.skip(1), marker);
        assert(seq![blocks.first()] + blocks.skip(1) =~= blocks);
    }
}

/// A file is read back whole: the metadata that was written, the marker,
/// and every block with its record count and payload.
pub proof fn lemma_parse_container(
    schema: Seq<u8>,
    codec_name: Seq<u8>,
    marker: Seq<u8>,
    blocks: Seq<Block>,
)
    requires
        marker.len() == marker_len(),
    ensures
        parse_container(container_bytes(schema, codec_name, marker, blocks)) == Some(
            Container {
                header: Header { metadata: written_metadata(schema, codec_name), marker },
                blocks,
            },
        ),
{
    let header = header_bytes(schema, codec_name, marker);
    let body = blocks_bytes(blocks, marker);
    lemma_parse_header(schema, codec_name, marker, body);
    assert((header + body).skip(header.len() as int) =~= body);
    lemma_parse_blocks(blocks, marker);
}

/// Writing one more block after the others is writing the longer list.
pub proof fn lemma_blocks_bytes_push(blocks: Seq<Block>, block: Block, marker: Seq<u8>)
    ensures
        blocks_bytes(blocks.push(block), marker) =~= blocks_bytes(blocks, marker) + block_bytes(
            block,
            marker,
        ),
    decreases blocks.len(),
{
    let longer = blocks.push(block);
    if blocks.len() == 0 {
        assert(longer.skip(1) =~= Seq::<Block>::empty());
        assert(blocks_bytes(longer.skip(1), marker) =~= Seq::<u8>::empty());
    } else {
        lemma_blocks_bytes_push(blocks.skip(1), block, marker);
        assert(longer.skip(1) =~= blocks.skip(1).push(block));
    }
}

} // verus!
