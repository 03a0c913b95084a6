//! Writing Avro object container files, and the fixed-width byte form of the
//! decimal logical type.
//!
//! The writer frames already encoded records into blocks: a header with the
//! schema and the codec's name, then for each batch a record count, the
//! length of the compressed payload, the payload and a sync marker. The
//! decimal type compares values across scales and sign-extends the unscaled
//! value to a requested width.

mod bigint;
pub mod codec;
pub mod container;
pub mod decimal;
pub mod error;
pub mod signed_bytes;
pub mod varint;
pub mod writer;

pub use codec::Codec;
pub use decimal::Decimal;
pub use error::Error;
pub use writer::Writer;
