//! Failures of the reader and the writer.

use vstd::prelude::*;
use crate::fourcc::FourCC;

verus! {

/// What can go wrong while a container is read or written.
#[derive(Clone, Copy, Debug, PartialEq, Eq, Structural)]
pub enum Error {
    /// The first twelve bytes are not the opening of a known container.
    HeaderNotRecognized,
    /// The container announces 64-bit sizes but no `ds64` chunk follows its opening.
    MissingRequiredDS64,
    /// A chunk's size field defers to the `ds64` table, which has no entry for it.
    MissingDS64Length(FourCC),
    /// The requested occurrence of a chunk is not in the form.
    ChunkMissing { signature: FourCC },
    /// The byte store ended before the bytes that were asked for.
    UnexpectedEof,
    /// The format states no bytes per sample frame, so that frames cannot be
    /// counted.
    ZeroBlockAlignment,
    /// A chunk was handed to a writer that had been finalized.
    WriterClosed,
    /// The `ds64` chunk has no room for the record of one more long chunk.
    Ds64TableFull,
}

} // verus!
