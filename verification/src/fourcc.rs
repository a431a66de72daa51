//! Four-character chunk identifiers.

use vstd::prelude::*;
use vstd::slice::slice_index_get;

use crate::endian::in_store;
use crate::errors::Error;

verus! {

/// A chunk identifier: four raw bytes, compared byte for byte and by case.
#[derive(Clone, Copy, Debug, PartialEq, Eq, Hash, Structural)]
pub struct FourCC {
    pub b0: u8,
    pub b1: u8,
    pub b2: u8,
    pub b3: u8,
}

/// `RIFF`, the opening of a container with 32-bit sizes.
pub const RIFF_SIG: [u8; 4] = [0x52, 0x49, 0x46, 0x46];

/// `RF64`, the opening of a container with 64-bit sizes.
pub const RF64_SIG: [u8; 4] = [0x52, 0x46, 0x36, 0x34];

/// `BW64`, the other opening of a container with 64-bit sizes.
pub const BW64_SIG: [u8; 4] = [0x42, 0x57, 0x36, 0x34];

/// `WAVE`, the kind of form that this library reads and writes.
pub const WAVE_SIG: [u8; 4] = [0x57, 0x41, 0x56, 0x45];

/// `ds64`, the chunk that carries the 64-bit sizes.
pub const DS64_SIG: [u8; 4] = [0x64, 0x73, 0x36, 0x34];

/// `LIST`, a chunk that groups sub-chunks under a sub-form tag.
pub const LIST_SIG: [u8; 4] = [0x4C, 0x49, 0x53, 0x54];

/// `fmt ` (with a trailing space), the description of the audio format.
pub const FMT__SIG: [u8; 4] = [0x66, 0x6D, 0x74, 0x20];

/// `data`, the audio samples.
pub const DATA_SIG: [u8; 4] = [0x64, 0x61, 0x74, 0x61];

/// `bext`, the broadcast metadata.
pub const BEXT_SIG: [u8; 4] = [0x62, 0x65, 0x78, 0x74];

/// `iXML`, production metadata in XML.
pub const IXML_SIG: [u8; 4] = [0x69, 0x58, 0x4D, 0x4C];

/// `axml`, audio definition metadata in XML.
pub const AXML_SIG: [u8; 4] = [0x61, 0x78, 0x6D, 0x6C];

impl FourCC {
    /// The identifier as a sequence of four bytes.
    pub open spec fn view(&self) -> Seq<u8> {
        seq![self.b0, self.b1, self.b2, self.b3]
    }

    /// The identifier made of `bytes`.
    pub open spec fn spec_make(bytes: [u8; 4]) -> FourCC {
        FourCC { b0: bytes[0], b1: bytes[1], b2: bytes[2], b3: bytes[3] }
    }

    /// The identifier made of `bytes`.
    #[verifier::when_used_as_spec(spec_make)]
    pub fn make(bytes: [u8; 4]) -> (id: FourCC)
        ensures
            id == Self::spec_make(bytes),
    {
        FourCC { b0: bytes[0], b1: bytes[1], b2: bytes[2], b3: bytes[3] }
    }

    /// The four bytes of the identifier, in order.
    pub fn bytes(&self) -> (out: [u8; 4])
        ensures
            out@ == self@,
    {
        let out = [self.b0, self.b1, self.b2, self.b3];
        assert(out@ =~= self@);
        out
    }
}

/// The identifier held by the four bytes of `s` that start at `at`.
pub open spec fn fourcc_at(s: Seq<u8>, at: int) -> FourCC {
    FourCC { b0: s[at], b1: s[at + 1], b2: s[at + 2], b3: s[at + 3] }
}

/// The identifier at `at`, or `UnexpectedEof` where the store ends before it.
pub fn read_fourcc_at(bytes: &[u8], at: u64) -> (r: Result<FourCC, Error>)
    ensures
        in_store(bytes@.len(), at as int, 4) ==> r == Ok::<FourCC, Error>(fourcc_at(bytes@, at as int)),
        !in_store(bytes@.len(), at as int, 4) ==> r == Err::<FourCC, Error>(Error::UnexpectedEof),
{
    let len: u64 = bytes.len() as u64;
    if at > len || len - at < 4 {
        return Err(Error::UnexpectedEof);
    }
    let start: usize = at as usize;
    Ok(
        FourCC {
            b0: *slice_index_get(bytes, start),
            b1: *slice_index_get(bytes, start + 1),
            b2: *slice_index_get(bytes, start + 2),
            b3: *slice_index_get(bytes, start + 3),
        },
    )
}

} // verus!
