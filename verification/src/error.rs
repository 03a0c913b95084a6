//! The errors that the library reports.

use vstd::prelude::*;

verus! {

/// Why an operation of this library failed.
#[derive(Clone, Copy, Debug, PartialEq, Eq, Structural)]
pub enum Error {
    /// A value of the batch did not match the writer's schema, so it has no
    /// encoding.
    SchemaMismatch,
    /// A fixed width of `requested` bytes was asked for a value whose
    /// shortest two's-complement representation takes `needed` bytes.
    SignExtend { requested: usize, needed: usize },
    /// The codec could not compress a block.
    Compression,
}

} // verus!
