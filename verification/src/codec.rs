//! The codecs that compress a block's payload.

use crate::error::Error;
use libflate::deflate::Encoder;
use snap::write::FrameEncoder;
use std::io::Write;
use vstd::prelude::*;

verus! {

/// `std::io::Error`, the error that the compressors report. It is carried
/// through and never looked into.
#[verifier::external_type_specification]
#[verifier::external_body]
pub struct ExIoError(std::io::Error);

/// What `libflate` makes of `data` with its default options when it writes
/// into memory: the DEFLATE stream, or `None` where it reports an error.
pub uninterp spec fn deflate_stream(data: Seq<u8>) -> Option<Seq<u8>>;

/// What `snap` makes of `data` when it writes into memory: the stream in
/// the Snappy frame format, or `None` where it reports an error.
pub uninterp spec fn snappy_frames(data: Seq<u8>) -> Option<Seq<u8>>;

/// How the payload of a block is compressed. The codec is chosen when a
/// writer is made, and its name goes into the file's header.
#[derive(Clone, Copy, Debug, PartialEq, Eq, Structural)]
pub enum Codec {
    /// The payload is stored as it is.
    Null,
    /// The payload is a DEFLATE stream.
    Deflate,
    /// The payload is a stream in the Snappy frame format.
    Snappy,
}

impl Codec {
    /// The codec's name in the header's metadata: `null`, `deflate` or
    /// `snappy`, in ASCII.
    pub open spec fn name(self) -> Seq<u8> {
        match self {
            Codec::Null => seq![0x6Eu8, 0x75, 0x6C, 0x6C],
            Codec::Deflate => seq![0x64u8, 0x65, 0x66, 0x6C, 0x61, 0x74, 0x65],
            Codec::Snappy => seq![0x73u8, 0x6E, 0x61, 0x70, 0x70, 0x79],
        }
    }

    /// What the codec makes of a whole payload, or `None` where it fails.
    /// `Null` never fails.
    pub open spec fn compressed(self, data: Seq<u8>) -> Option<Seq<u8>> {
        match self {
            Codec::Null => Some(data),
            Codec::Deflate => deflate_stream(data),
            Codec::Snappy => snappy_frames(data),
        }
    }

    /// The value of the header's `avro.codec` entry: the codec's name.
    pub fn avro(self) -> (name: Vec<u8>)
        ensures
            name@ == self.name(),
    {
        let name: Vec<u8> = match self {
            Codec::Null => vec![0x6Eu8, 0x75, 0x6C, 0x6C],
            Codec::Deflate => vec![0x64u8, 0x65, 0x66, 0x6C, 0x61, 0x74, 0x65],
            Codec::Snappy => vec![0x73u8, 0x6E, 0x61, 0x70, 0x70, 0x79],
        };
        assert(name@ =~= self.name());
        name
    }

    /// Compresses `data` as one unit. The call succeeds exactly where the
    /// codec makes a stream of `data`, and then returns that stream; `Null`
    /// hands the data back and never fails.
    pub fn compress(self, data: Vec<u8>) -> (result: Result<Vec<u8>, Error>)
        ensures
            match result {
                Ok(out) => self.compressed(data@) == Some(out@),
                Err(error) => error == Error::Compression && self.compressed(data@) is None,
            },
    {
        match self {
            Codec::Null => Ok(data),
            Codec::Deflate => match deflate(&data) {
                Ok(out) => Ok(out),
                Err(_) => Err(Error::Compression),
            },
            Codec::Snappy => match snappy(&data) {
                Ok(out) => Ok(out),
                Err(_) => Err(Error::Compression),
            },
        }
    }
}

/// Compresses `data` into one DEFLATE stream, finished and flushed.
///
/// Trusted: `libflate::deflate::Encoder::new`, `write_all` and `finish` on a
/// `Vec<u8>` are a function of the bytes written alone, both in whether
/// they report an error and in the stream they make.
#[verifier::external_body]
fn deflate(data: &Vec<u8>) -> (result: Result<Vec<u8>, std::io::Error>)
    ensures
        match result {
            Ok(out) => deflate_stream(data@) == Some(out@),
            Err(_) => deflate_stream(data@) is None,
        },
{
    let mut encoder = Encoder::new(Vec::new());
    encoder.write_all(data.as_slice())?;
    encoder.finish().into_result()
}

/// Compresses `data` into one stream of the Snappy frame format, flushed.
///
/// Trusted: `snap::write::FrameEncoder::new`, `write_all` and `into_inner`
/// on a `Vec<u8>` are a function of the bytes written alone, both in
/// whether they report an error and in the stream they make.
#[verifier::external_body]
fn snappy(data: &Vec<u8>) -> (result: Result<Vec<u8>, std::io::Error>)
    ensures
        match result {
            Ok(out) => snappy_frames(data@) == Some(out@),
            Err(_) => snappy_frames(data@) is None,
        },
{
    let mut encoder = FrameEncoder::new(Vec::new());
    encoder.write_all(data.as_slice())?;
    encoder.into_inner().map_err(|failure| failure.into_error())
}

} // verus!
