//! Reading and writing of RIFF-family audio containers: WAVE, Broadcast-WAVE
//! and their 64-bit forms RF64 and BW64.
//!
//! A container is a byte store made of chunks. The reader finds a chunk by its
//! four-character identifier and its occurrence, resolving the sizes that a
//! `ds64` chunk overrides; the writer appends chunks and moves the container to
//! the 64-bit form as soon as its size no longer fits a 32-bit field.

pub mod ds64;
pub mod endian;
pub mod errors;
pub mod fmt;
pub mod fourcc;
pub mod roundtrip;
pub mod traverse;
pub mod wave;
pub mod writer;

pub use ds64::{Ds64, Ds64Entry, Ds64Table};
pub use errors::Error;
pub use fmt::{ADMAudioID, ChannelDescriptor, ChannelMask, WaveFmt, WaveFmtExtended};
pub use fourcc::FourCC;
pub use wave::{ContainerForm, Wave};
pub use writer::WaveWriter;
