//! The writer of object container files.
//!
//! A writer owns a sink of bytes. Each batch of encoded records becomes one
//! block behind the sink's earlier content; the header goes in front of the
//! first block.

use crate::codec::Codec;
use crate::container::{
    block_bytes, blocks_bytes, codec_key, container_bytes, header_bytes, lemma_blocks_bytes_push,
    lemma_metadata_bytes, lemma_parse_container, length_prefixed, magic, marker_len,
    metadata_bytes, parse_container, schema_key, written_metadata, Block, Container, Header,
};
use crate::error::Error;
use crate::varint::encode_length;
use vstd::prelude::*;
use vstd::string::{StrSliceExecFns, StringSliceAdditionalSpecFns};

verus! {

/// Whether every value of a batch has an encoding: whether each matched
/// the schema.
pub open spec fn all_encoded(values: Seq<Option<Vec<u8>>>) -> bool {
    forall|i: int| 0 <= i < values.len() ==> (#[trigger] values[i]) is Some
}

/// The encodings of a batch, one after the other in the batch's order.
pub open spec fn concatenated(values: Seq<Option<Vec<u8>>>) -> Seq<u8>
    decreases values.len(),
{
    if values.len() == 0 {
        Seq::empty()
    } else {
        concatenated(values.drop_last()) + match values.last() {
            Some(encoding) => encoding@,
            None => Seq::empty(),
        }
    }
}

/// A writer's state.
pub struct WriterView {
    /// The schema's JSON text, in UTF-8.
    pub schema: Seq<u8>,
    pub codec: Codec,
    /// The sync marker, drawn once when the writer was made.
    pub marker: Seq<u8>,
    /// Whether the header has been written.
    pub has_header: bool,
    /// Everything in the sink.
    pub sink: Seq<u8>,
}

impl WriterView {
    /// The writer's header.
    pub open spec fn header(self) -> Seq<u8> {
        header_bytes(self.schema, self.codec.name(), self.marker)
    }

    /// The state after the header was written.
    pub open spec fn with_header(self) -> WriterView {
        WriterView { has_header: true, sink: self.sink + self.header(), ..self }
    }

    /// The state after `block` was written: behind the header, which is
    /// written first where it has not been written yet.
    pub open spec fn with_block(self, block: Block) -> WriterView {
        let started = if self.has_header {
            self
        } else {
            self.with_header()
        };
        WriterView { sink: started.sink + block_bytes(block, self.marker), ..started }
    }

    /// The block that a batch of encoded values becomes: their number, and
    /// their encodings compressed as one unit. `None` where the codec fails
    /// on them.
    pub open spec fn block_of(self, values: Seq<Option<Vec<u8>>>) -> Option<Block> {
        match self.codec.compressed(concatenated(values)) {
            Some(payload) => Some(Block { count: values.len() as int, payload }),
            None => None,
        }
    }

    /// How writing a batch ends. Where a value has no encoding it fails
    /// with `SchemaMismatch`; where the codec fails on the encodings, with
    /// `Compression`; otherwise it leaves the state with the batch's block
    /// written.
    pub open spec fn extended(self, values: Seq<Option<Vec<u8>>>) -> Result<WriterView, Error> {
        if !all_encoded(values) {
            Err(Error::SchemaMismatch)
        } else {
            match self.block_of(values) {
                Some(block) => Ok(self.with_block(block)),
                None => Err(Error::Compression),
            }
        }
    }

    /// The state after `blocks` were written, one after the other.
    pub open spec fn with_blocks(self, blocks: Seq<Block>) -> WriterView
        decreases blocks.len(),
    {
        if blocks.len() == 0 {
            self
        } else {
            self.with_blocks(blocks.drop_last()).with_block(blocks.last())
        }
    }
}

/// A batch of one value ends as the value alone decides: without an
/// encoding in `SchemaMismatch`, with an encoding that the codec fails on in
/// `Compression`, and otherwise in one block of one record whose payload is
/// the compressed encoding.
pub proof fn lemma_extended_by_one(state: WriterView, value: Option<Vec<u8>>)
    ensures
        state.extended(seq![value]) == match value {
            Some(encoding) => match state.codec.compressed(encoding@) {
                Some(payload) => Ok::<WriterView, Error>(
                    state.with_block(Block { count: 1, payload }),
                ),
                None => Err::<WriterView, Error>(Error::Compression),
            },
            None => Err::<WriterView, Error>(Error::SchemaMismatch),
        },
{
    let batch = seq![value];
    assert(all_encoded(batch) == (batch[0] is Some));
    assert(batch.drop_last() =~= Seq::<Option<Vec<u8>>>::empty());
    assert(concatenated(batch.drop_last()) =~= Seq::<u8>::empty());
    if value is Some {
        assert(concatenated(batch) =~= value.unwrap()@);
    }
}

/// The header is written once, however many blocks follow: after one or
/// more blocks the sink holds what it held before, then the header where
/// none had been written before, then the blocks and nothing else.
pub proof fn lemma_header_is_written_once(state: WriterView, blocks: Seq<Block>)
    requires
        blocks.len() > 0,
    ensures
        state.with_blocks(blocks) == (WriterView {
            has_header: true,
            sink: state.sink + (if state.has_header {
                Seq::empty()
            } else {
                state.header()
            }) + blocks_bytes(blocks, state.marker),
            ..state
        }),
    decreases blocks.len(),
{
    let earlier = blocks.drop_last();
    let last = blocks.last();
    let marker = state.marker;
    let after = state.with_blocks(blocks);
    let prelude = if state.has_header {
        Seq::empty()
    } else {
        state.header()
    };
    assert(blocks =~= earlier.push(last));
    lemma_blocks_bytes_push(earlier, last, marker);
    let before = state.with_blocks(earlier);
    assert(after == before.with_block(last));
    if earlier.len() == 0 {
        assert(before == state);
        assert(blocks_bytes(earlier, marker) =~= Seq::<u8>::empty());
    } else {
        lemma_header_is_written_once(state, earlier);
    }
    assert(after.sink =~= state.sink + prelude + (blocks_bytes(earlier, marker) + block_bytes(
        last,
        marker,
    )));
}

/// What a writer has put into its sink is read back as a file: behind
/// what the sink held before, the magic bytes are in place, the metadata
/// holds the schema and the codec's name, the marker behind the header
/// ends every block, and each block has its record count and its payload.
pub proof fn lemma_written_blocks_are_read_back(state: WriterView, blocks: Seq<Block>)
    requires
        state.marker.len() == marker_len(),
        !state.has_header,
        blocks.len() > 0,
    ensures
        parse_container(state.with_blocks(blocks).sink.skip(state.sink.len() as int)) == Some(
            Container {
                header: Header {
                    metadata: written_metadata(state.schema, state.codec.name()),
                    marker: state.marker,
                },
                blocks,
            },
        ),
{
    let file = container_bytes(state.schema, state.codec.name(), state.marker, blocks);
    lemma_header_is_written_once(state, blocks);
    lemma_parse_container(state.schema, state.codec.name(), state.marker, blocks);
    assert(state.with_blocks(blocks).sink.skip(state.sink.len() as int) =~= file);
}

/// Writes object container files into a sink of bytes.
pub struct Writer {
    schema: Vec<u8>,
    writer: Vec<u8>,
    codec: Codec,
    marker: [u8; 16],
    has_header: bool,
}

impl View for Writer {
    type V = WriterView;

    closed spec fn view(&self) -> WriterView {
        WriterView {
            schema: self.schema@,
            codec: self.codec,
            marker: self.marker@,
            has_header: self.has_header,
            sink: self.writer@,
        }
    }
}

impl Writer {
    /// The marker of every writer has its sixteen bytes.
    pub proof fn lemma_marker_len(&self)
        ensures
            self@.marker.len() == marker_len(),
    {
    }

    /// A writer for `schema`, given as its JSON text, that stores payloads
    /// as they are. Blocks go behind what `writer` holds already.
    pub fn new(schema: &str, writer: Vec<u8>) -> (made: Writer)
        ensures
            made@.schema == schema.spec_bytes(),
            made@.codec == Codec::Null,
            made@.marker.len() == marker_len(),
            !made@.has_header,
            made@.sink == writer@,
    {
        Self::with_codec(schema, writer, Codec::Null)
    }

    /// A writer for `schema`, given as its JSON text, that compresses
    /// payloads with `codec`. The sync marker is drawn at random here and
    /// stays the same for the writer's life.
    pub fn with_codec(schema: &str, writer: Vec<u8>, codec: Codec) -> (made: Writer)
        ensures
            made@.schema == schema.spec_bytes(),
            made@.codec == codec,
            made@.marker.len() == marker_len(),
            !made@.has_header,
            made@.sink == writer@,
    {
        let mut marker: [u8; 16] = [0u8; 16];
        let mut i: usize = 0;
        while i < 16
            invariant
                i <= 16,
            decreases 16 - i,
        {
            marker[i] = random_byte();
            i += 1;
        }
        Self::with_marker(schema, writer, codec, marker)
    }

    /// A writer for `schema`, given as its JSON text, that compresses
    /// payloads with `codec` and ends the header and every block with
    /// `marker`, byte for byte.
    pub fn with_marker(schema: &str, writer: Vec<u8>, codec: Codec, marker: [u8; 16]) -> (made:
        Writer)
        ensures
            made@.schema == schema.spec_bytes(),
            made@.codec == codec,
            made@.marker == marker@,
            made@.marker.len() == marker_len(),
            !made@.has_header,
            made@.sink == writer@,
    {
        Writer { schema: schema.as_bytes_vec(), writer, codec, marker, has_header: false }
    }

    /// Writes the header: the magic bytes, the metadata with the schema and
    /// the codec's name, and the marker. Returns the number of bytes
    /// written. Every call writes a header, also where one was written
    /// before.
    pub fn header(&mut self) -> (result: Result<usize, Error>)
        ensures
            final(self)@ == old(self)@.with_header(),
            final(self)@.marker.len() == marker_len(),
            result matches Ok(written) && written == old(self)@.header().len(),
    {
        Ok(self.write_header())
    }

    /// Writes the header and returns its length.
    fn write_header(&mut self) -> (written: usize)
        ensures
            final(self)@ == old(self)@.with_header(),
            written == old(self)@.header().len(),
    {
        let magic = magic_bytes();
        let metadata = metadata_stream(&self.schema, self.codec);
        let magic_len = self.append_raw(&magic);
        let metadata_len = self.append_raw(&metadata);
        let marker_len = self.append_marker();
        self.has_header = true;
        assert(self.writer@ =~= old(self)@.sink + old(self)@.header());
        assert(old(self)@.sink.len() + magic_len + metadata_len + marker_len == self.writer.len());
        magic_len + metadata_len + marker_len
    }

    /// Writes one value as a block of its own: `extend` on a batch of one,
    /// with the same result and the same bytes written.
    pub fn append(&mut self, value: Option<Vec<u8>>) -> (result: Result<usize, Error>)
        ensures
            final(self)@.marker.len() == marker_len(),
            match old(self)@.extended(seq![value]) {
                Ok(state) => final(self)@ == state && (result matches Ok(written) && written
                    == state.sink.len() - old(self)@.sink.len()),
                Err(error) => final(self)@ == old(self)@ && result == Err::<usize, Error>(error),
            },
    {
        let batch: Vec<Option<Vec<u8>>> = vec![value];
        assert(batch@ =~= seq![value]);
        self.extend(batch)
    }

    /// Writes a batch of values as one block. Each value is given as its
    /// encoding under the writer's schema, or as `None` where it did not
    /// match the schema.
    ///
    /// Where a value did not match, the call fails with `SchemaMismatch`;
    /// where the codec fails on the encodings, with `Compression`. A failed
    /// call leaves the writer as it was. Otherwise the call succeeds: the
    /// encodings are compressed as one unit and written as one block,
    /// behind the header where this is the first block, and the number of
    /// bytes written is returned.
    pub fn extend(&mut self, values: Vec<Option<Vec<u8>>>) -> (result: Result<usize, Error>)
        ensures
            final(self)@.marker.len() == marker_len(),
            match old(self)@.extended(values@) {
                Ok(state) => final(self)@ == state && (result matches Ok(written) && written
                    == state.sink.len() - old(self)@.sink.len()),
                Err(error) => final(self)@ == old(self)@ && result == Err::<usize, Error>(error),
            },
    {
        let stream = match concatenate(&values) {
            Some(stream) => stream,
            None => {
                return Err(Error::SchemaMismatch);
            },
        };
        let payload = match self.codec.compress(stream) {
            Ok(payload) => payload,
            Err(error) => {
                return Err(error);
            },
        };
        Ok(self.write_block(values.len(), payload))
    }

    /// Writes one block of `count` records with the payload as given,
    /// compressed already: behind the header where this is the first block.
    /// Returns the number of bytes written, the header's included.
    pub fn write_block(&mut self, count: usize, payload: Vec<u8>) -> (written: usize)
        ensures
            final(self)@ == old(self)@.with_block(Block { count: count as int, payload: payload@ }),
            final(self)@.marker.len() == marker_len(),
            written == final(self)@.sink.len() - old(self)@.sink.len(),
    {
        let header_len = if self.has_header {
            0
        } else {
            self.write_header()
        };
        let ghost started = self@;
        let count_len = self.append_raw(&encode_length(count));
        let payload_len_len = self.append_raw(&encode_length(payload.len()));
        let payload_len = self.append_raw(&payload);
        let marker_len = self.append_marker();
        assert(self.writer@ =~= started.sink + block_bytes(
            Block { count: count as int, payload: payload@ },
            started.marker,
        ));
        assert(old(self)@.sink.len() + header_len + count_len + payload_len_len + payload_len
            + marker_len == self.writer.len());
        header_len + count_len + payload_len_len + payload_len + marker_len
    }

    /// Writes the marker. Returns the number of bytes written.
    fn append_marker(&mut self) -> (written: usize)
        ensures
            final(self)@ == (WriterView {
                sink: old(self)@.sink + old(self)@.marker,
                ..old(self)@
            }),
            written == marker_len(),
    {
        self.writer.extend_from_slice(self.marker.as_slice());
        assert(self.writer@ =~= old(self).writer@ + self.marker@);
        self.marker.len()
    }

    /// Writes a stream of bytes as it is. Returns the number of bytes
    /// written.
    fn append_raw(&mut self, stream: &Vec<u8>) -> (written: usize)
        ensures
            final(self)@ == (WriterView { sink: old(self)@.sink + stream@, ..old(self)@ }),
            written == stream@.len(),
    {
        self.writer.extend_from_slice(stream.as_slice());
        assert(self.writer@ =~= old(self).writer@ + stream@);
        stream.len()
    }

    /// Hands over what the sink holds and leaves the sink empty, for a
    /// caller that sends the bytes on as they are written. The writer goes
    /// on as before: the header is still written once.
    pub fn take_written(&mut self) -> (bytes: Vec<u8>)
        ensures
            bytes@ == old(self)@.sink,
            final(self)@ == (WriterView { sink: Seq::empty(), ..old(self)@ }),
    {
        let mut bytes: Vec<u8> = Vec::new();
        std::mem::swap(&mut self.writer, &mut bytes);
        bytes
    }

    /// Gives the sink back and ends the writer.
    pub fn into_inner(self) -> (sink: Vec<u8>)
        ensures
            sink@ == self@.sink,
    {
        self.writer
    }
}

/// The encodings of a batch, one after the other, or `None` where a value
/// has none.
fn concatenate(values: &Vec<Option<Vec<u8>>>) -> (stream: Option<Vec<u8>>)
    ensures
        match stream {
            Some(bytes) => all_encoded(values@) && bytes@ == concatenated(values@),
            None => !all_encoded(values@),
        },
{
    let mut bytes: Vec<u8> = Vec::new();
    let mut i: usize = 0;
    while i < values.len()
        invariant
            i <= values.len(),
            all_encoded(values@.take(i as int)),
            bytes@ == concatenated(values@.take(i as int)),
        decreases values.len() - i,
    {
        let ghost done = values@.take(i as int);
        let ghost next = values@.take(i + 1);
        assert(next.drop_last() =~= done);
        match &values[i] {
            Some(encoding) => {
                bytes.extend_from_slice(encoding.as_slice());
            },
            None => {
                return None;
            },
        }
        i += 1;
    }
    assert(values@.take(i as int) =~= values@);
    Some(bytes)
}

/// The header's metadata map: the schema's JSON text and the codec's name,
/// each under its key.
fn metadata_stream(schema: &Vec<u8>, codec: Codec) -> (stream: Vec<u8>)
    ensures
        stream@ == metadata_bytes(schema@, codec.name()),
{
    let mut stream = encode_length(2);
    push_length_prefixed(&mut stream, &schema_key_bytes());
    push_length_prefixed(&mut stream, schema);
    push_length_prefixed(&mut stream, &codec_key_bytes());
    push_length_prefixed(&mut stream, &codec.avro());
    let end = encode_length(0);
    let ghost entries = stream@;
    stream.extend_from_slice(end.as_slice());
    assert(stream@ =~= entries + end@);
    proof {
        lemma_metadata_bytes(schema@, codec.name());
    }
    stream
}

/// Appends the length of `bytes` and then `bytes` to `out`.
fn push_length_prefixed(out: &mut Vec<u8>, bytes: &Vec<u8>)
    ensures
        final(out)@ == old(out)@ + length_prefixed(bytes@),
{
    let ghost before = out@;
    let length = encode_length(bytes.len());
    out.extend_from_slice(length.as_slice());
    out.extend_from_slice(bytes.as_slice());
    assert(out@ =~= before + length_prefixed(bytes@));
}

fn magic_bytes() -> (bytes: Vec<u8>)
    ensures
        bytes@ == magic(),
{
    let bytes: Vec<u8> = vec![0x4Fu8, 0x62, 0x6A, 0x01];
    assert(bytes@ =~= magic());
    bytes
}

fn schema_key_bytes() -> (bytes: Vec<u8>)
    ensures
        bytes@ == schema_key(),
{
    let bytes: Vec<u8> = vec![0x61u8, 0x76, 0x72, 0x6F, 0x2E, 0x73, 0x63, 0x68, 0x65, 0x6D, 0x61];
    assert(bytes@ =~= schema_key());
    bytes
}

fn codec_key_bytes() -> (bytes: Vec<u8>)
    ensures
        bytes@ == codec_key(),
{
    let bytes: Vec<u8> = vec![0x61u8, 0x76, 0x72, 0x6F, 0x2E, 0x63, 0x6F, 0x64, 0x65, 0x63];
    assert(bytes@ =~= codec_key());
    bytes
}

/// One byte of the sync marker.
///
/// Trusted: `rand::random` returns some byte; nothing is claimed of which.
#[verifier::external_body]
fn random_byte() -> u8 {
    rand::random::<u8>()
}

} // verus!
