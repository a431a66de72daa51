//! The reader: a byte store read as a WAVE container.
//!
//! A container opens with twelve bytes: the magic `RIFF`, `RF64` or `BW64`,
//! the length of the form in 32 bits, and the form's kind, `WAVE`. Under
//! `RIFF` the length stands as written. Under `RF64` and `BW64` the length is
//! the sentinel, and a `ds64` chunk follows that states the sizes in 64 bits.
//!
//! The reader keeps the store and a cursor, and nothing else: every lookup
//! starts again from the opening bytes.

use vstd::prelude::*;
use vstd::slice::slice_subrange;

use crate::ds64::{
    is_resolved,
    resolve,
    resolved,
    table_of,
    Ds64,
    Ds64Entry,
    Ds64Table,
    SIZE_SENTINEL,
};
use crate::endian::{in_store, le_u16, le_u32, read_u32_at};
use crate::errors::Error;
use crate::fmt::{
    describe_channels,
    describes_channels,
    fmt_channel_mask,
    fmt_extent,
    is_fmt_at,
    read_wave_fmt,
    ChannelDescriptor,
    WaveFmt,
};
use crate::fourcc::{
    fourcc_at,
    read_fourcc_at,
    FourCC,
    AXML_SIG,
    BEXT_SIG,
    BW64_SIG,
    DATA_SIG,
    DS64_SIG,
    FMT__SIG,
    IXML_SIG,
    RF64_SIG,
    RIFF_SIG,
    WAVE_SIG,
};
use crate::traverse::{
    header_at,
    locate_target,
    outcome_of,
    read_header_at,
    scan,
    ChunkHeader,
    Target,
};

verus! {

/// Whether the container `s` states its sizes in 64 bits.
///
/// The twelve opening bytes decide: `RIFF` and `WAVE` open a container with
/// 32-bit sizes; `RF64` or `BW64`, the sentinel length and `WAVE` open one
/// with 64-bit sizes, which must go on with a `ds64` chunk. Anything else is
/// no container.
pub open spec fn detected(s: Seq<u8>) -> Result<bool, Error> {
    if s.len() < 12 {
        Err(Error::UnexpectedEof)
    } else {
        let magic = fourcc_at(s, 0);
        let length_field = le_u32(s, 4);
        let form_kind = fourcc_at(s, 8);
        if (magic == FourCC::make(RF64_SIG) || magic == FourCC::make(BW64_SIG)) && length_field
            == SIZE_SENTINEL && form_kind == FourCC::make(WAVE_SIG) {
            if s.len() < 16 {
                Err(Error::UnexpectedEof)
            } else if fourcc_at(s, 12) == FourCC::make(DS64_SIG) {
                Ok(true)
            } else {
                Err(Error::MissingRequiredDS64)
            }
        } else if magic == FourCC::make(RIFF_SIG) && form_kind == FourCC::make(WAVE_SIG) {
            Ok(false)
        } else {
            Err(Error::HeaderNotRecognized)
        }
    }
}

/// The bytes that the chunks of a container with 32-bit sizes take: the
/// length field less the four bytes of the form's kind.
pub open spec fn standard_budget(s: Seq<u8>) -> int {
    if le_u32(s, 4) < 4 {
        0
    } else {
        le_u32(s, 4) - 4
    }
}

/// How the container `s` is laid out: the insertions that make its override
/// table, the bytes that its chunks take, and the position of its first
/// chunk.
pub open spec fn layout(s: Seq<u8>) -> Result<(Seq<Ds64Entry>, int, int), Error> {
    match detected(s) {
        Err(e) => Err(e),
        Ok(false) => Ok((Seq::empty(), standard_budget(s), 12)),
        Ok(true) => resolved(s, true),
    }
}

/// The range of the match number `occurrence` of `target` in the container
/// `s`: position and length.
pub open spec fn located(s: Seq<u8>, target: Target, occurrence: nat) -> Result<(int, int), Error> {
    match layout(s) {
        Err(e) => Err(e),
        Ok((entries, budget, start)) => scan(s, table_of(entries), start, budget, target, occurrence),
    }
}

/// The bytes of the match number `occurrence` of `target` in the container
/// `s`. The store must hold the whole range.
pub open spec fn content(s: Seq<u8>, target: Target, occurrence: nat) -> Result<Seq<u8>, Error> {
    match located(s, target, occurrence) {
        Err(e) => Err(e),
        Ok((offset, length)) => {
            if in_store(s.len(), offset, length) {
                Ok(s.subrange(offset, offset + length))
            } else {
                Err(Error::UnexpectedEof)
            }
        },
    }
}

/// The size that the `ds64` chunk of `s` states for `ident`. Where the chunk
/// behind the opening bytes is not `ds64`, or cannot be read whole, the
/// failure is that of reading it; where it has no entry for `ident`, the
/// length is missing.
pub open spec fn ds64_length(s: Seq<u8>, ident: FourCC) -> Result<u64, Error> {
    match resolved(s, true) {
        Err(e) => Err(e),
        Ok((entries, _, _)) => {
            if table_of(entries).contains_key(ident) {
                Ok(table_of(entries)[ident])
            } else {
                Err(Error::MissingDS64Length(ident))
            }
        },
    }
}

/// The header of the chunk at `at` of the container `s`. A size field that
/// holds the sentinel is resolved against the container's override table; in
/// a container with 32-bit sizes that table is empty, so that such a chunk
/// has no size.
pub open spec fn immediate_header(s: Seq<u8>, at: int) -> Result<ChunkHeader, Error> {
    if !in_store(s.len(), at, 8) {
        Err(Error::UnexpectedEof)
    } else if le_u32(s, at + 4) != SIZE_SENTINEL {
        header_at(s, Map::empty(), at)
    } else {
        match layout(s) {
            Err(e) => Err(e),
            Ok((entries, _, _)) => header_at(s, table_of(entries), at),
        }
    }
}

/// Position of the format fields of the container `s`: the content of its
/// first `fmt ` chunk, which the store must hold as far as the fields go.
pub open spec fn format_position(s: Seq<u8>) -> Result<int, Error> {
    match located(s, Target::Chunk(FourCC::make(FMT__SIG)), 0) {
        Err(e) => Err(e),
        Ok((offset, _)) => {
            if in_store(s.len(), offset, fmt_extent(s, offset)) {
                Ok(offset)
            } else {
                Err(Error::UnexpectedEof)
            }
        },
    }
}

/// The number of sample frames of the container `s`: the length of its first
/// `data` chunk in units of the format's bytes per sample frame.
pub open spec fn frame_count(s: Seq<u8>) -> Result<u64, Error> {
    match located(s, Target::Chunk(FourCC::make(DATA_SIG)), 0) {
        Err(e) => Err(e),
        Ok((_, length)) => match format_position(s) {
            Err(e) => Err(e),
            Ok(at) => {
                if le_u16(s, at + 12) == 0 {
                    Err(Error::ZeroBlockAlignment)
                } else {
                    Ok((length / le_u16(s, at + 12)) as u64)
                }
            },
        },
    }
}

/// A length and its pad byte, held to what 64 bits can state.
pub open spec fn saturated_displacement(length: u64) -> u64 {
    if length == u64::MAX {
        u64::MAX
    } else {
        (length + length % 2) as u64
    }
}

/// What a reader is at a moment: its store and its cursor.
pub struct WaveState {
    pub bytes: Seq<u8>,
    pub position: nat,
}

/// What one detection does: it tells `answer` from the bytes alone and
/// leaves the reader as it was.
pub open spec fn detection(before: WaveState, after: WaveState, answer: Result<bool, Error>) -> bool {
    &&& after == before
    &&& answer == detected(before.bytes)
}

/// Detecting twice in a row gives the same answer twice, and the cursor
/// stands after each detection where it stood before the first.
pub proof fn lemma_detection_is_idempotent(
    start: WaveState,
    between: WaveState,
    end: WaveState,
    first: Result<bool, Error>,
    second: Result<bool, Error>,
)
    requires
        detection(start, between, first),
        detection(between, end, second),
    ensures
        first == second,
        between.position == start.position,
        end.position == start.position,
        end.bytes == start.bytes,
{
}

/// A chunk longer than a size field can state is read only from a container
/// that has a `ds64` chunk with an entry for the chunk's identifier, and it
/// is read with the length of that entry. A size field that holds the
/// sentinel is refused wherever such an entry is missing: in a container
/// with 32-bit sizes always.
pub proof fn lemma_long_chunk_needs_override(s: Seq<u8>, at: int)
    requires
        in_store(s.len(), at, 8),
    ensures
        immediate_header(s, at) matches Ok(header) ==> (header.resolved_length > 0xFFFF_FFFE ==> {
            &&& detected(s) == Ok::<bool, Error>(true)
            &&& fourcc_at(s, 12) == FourCC::make(DS64_SIG)
            &&& layout(s) matches Ok((entries, _, _))
            &&& table_of(entries).contains_key(header.ident)
            &&& table_of(entries)[header.ident] == header.resolved_length
        }),
        le_u32(s, at + 4) == SIZE_SENTINEL && detected(s) == Ok::<bool, Error>(false)
            ==> immediate_header(s, at) == Err::<ChunkHeader, Error>(
            Error::MissingDS64Length(fourcc_at(s, at)),
        ),
        layout(s) matches Ok((entries, _, _)) ==> (le_u32(s, at + 4) == SIZE_SENTINEL
            && !table_of(entries).contains_key(fourcc_at(s, at)) ==> immediate_header(s, at)
            == Err::<ChunkHeader, Error>(Error::MissingDS64Length(fourcc_at(s, at)))),
        le_u32(s, at + 4) == SIZE_SENTINEL && layout(s) is Err ==> immediate_header(s, at) is Err,
{
}

/// The way a container states its sizes.
#[derive(Debug)]
pub enum ContainerForm {
    /// In 32 bits: the chunks take `form_budget` bytes from position 12.
    Standard { form_budget: u64 },
    /// In 64 bits, by a `ds64` chunk.
    Extended(Ds64),
}

/// A reader of a WAVE container.
pub struct Wave {
    inner: Vec<u8>,
    position: u64,
}

impl View for Wave {
    type V = WaveState;

    closed spec fn view(&self) -> WaveState {
        WaveState { bytes: self.inner@, position: self.position as nat }
    }
}

/// Whether the container in `bytes` states its sizes in 64 bits.
fn detect(bytes: &[u8]) -> (r: Result<bool, Error>)
    ensures
        r == detected(bytes@),
{
    if bytes.len() < 12 {
        return Err(Error::UnexpectedEof);
    }
    let magic = match read_fourcc_at(bytes, 0) {
        Ok(v) => v,
        Err(e) => { return Err(e); },
    };
    let length_field = match read_u32_at(bytes, 4) {
        Ok(v) => v,
        Err(e) => { return Err(e); },
    };
    let form_kind = match read_fourcc_at(bytes, 8) {
        Ok(v) => v,
        Err(e) => { return Err(e); },
    };
    if (magic == FourCC::make(RF64_SIG) || magic == FourCC::make(BW64_SIG)) && length_field
        == SIZE_SENTINEL && form_kind == FourCC::make(WAVE_SIG) {
        match read_fourcc_at(bytes, 12) {
            Err(e) => Err(e),
            Ok(next) => {
                if next == FourCC::make(DS64_SIG) {
                    Ok(true)
                } else {
                    Err(Error::MissingRequiredDS64)
                }
            },
        }
    } else if magic == FourCC::make(RIFF_SIG) && form_kind == FourCC::make(WAVE_SIG) {
        Ok(false)
    } else {
        Err(Error::HeaderNotRecognized)
    }
}

/// The layout of the container in `bytes`.
fn read_layout(bytes: &[u8]) -> (r: Result<Ds64, Error>)
    ensures
        is_resolved(r, layout(bytes@)),
{
    match detect(bytes) {
        Err(e) => Err(e),
        Ok(true) => resolve(bytes, true),
        Ok(false) => {
            let length_field = match read_u32_at(bytes, 4) {
                Ok(v) => v,
                Err(e) => { return Err(e); },
            };
            let form_budget: u64 = if length_field < 4 {
                0
            } else {
                (length_field - 4) as u64
            };
            Ok(Ds64 { table: Ds64Table::new(), form_budget, body_start: 12 })
        },
    }
}

/// The range of the match number `occurrence` of `target` in the container
/// in `bytes`.
fn locate_in(bytes: &[u8], target: Target, occurrence: u32) -> (r: Result<(u64, u64), Error>)
    ensures
        outcome_of(r) == located(bytes@, target, occurrence as nat),
{
    match read_layout(bytes) {
        Err(e) => Err(e),
        Ok(form) => locate_target(
            bytes,
            form.body_start,
            form.form_budget,
            &form.table,
            target,
            occurrence,
        ),
    }
}

impl Wave {
    /// A reader of the store `inner`, with its cursor at the start. Nothing
    /// is read yet.
    pub fn new(inner: Vec<u8>) -> (wave: Wave)
        ensures
            wave@.bytes == inner@,
            wave@.position == 0,
    {
        Wave { inner, position: 0 }
    }

    /// The store, given back.
    pub fn into_inner(self) -> (inner: Vec<u8>)
        ensures
            inner@ == self@.bytes,
    {
        self.inner
    }

    /// A reader of the store `inner`, if its opening bytes are those of a
    /// container, and if a container with 64-bit sizes has its `ds64` chunk.
    pub fn open(inner: Vec<u8>) -> (r: Result<Wave, Error>)
        ensures
            match r {
                Ok(wave) => layout(inner@) is Ok && wave@.bytes == inner@ && wave@.position == 0,
                Err(e) => layout(inner@) == Err::<(Seq<Ds64Entry>, int, int), Error>(e),
            },
    {
        match read_layout(inner.as_slice()) {
            Err(e) => Err(e),
            Ok(_) => Ok(Wave { inner, position: 0 }),
        }
    }

    /// Where the cursor stands.
    pub fn position(&self) -> (position: u64)
        ensures
            position == self@.position,
    {
        self.position
    }

    /// Moves the cursor to `position`, which may lie behind the end of the
    /// store.
    pub fn seek(&mut self, position: u64)
        ensures
            final(self)@.bytes == old(self)@.bytes,
            final(self)@.position == position,
    {
        self.position = position;
    }

    /// Whether the container states its sizes in 64 bits. The reader is left
    /// as it was, cursor included.
    pub fn is_rf64(&mut self) -> (r: Result<bool, Error>)
        ensures
            detection(old(self)@, final(self)@, r),
    {
        detect(self.inner.as_slice())
    }

    /// The way the container states its sizes.
    pub fn detect_form(&self) -> (r: Result<ContainerForm, Error>)
        ensures
            match r {
                Ok(ContainerForm::Standard { form_budget }) => {
                    &&& detected(self@.bytes) == Ok::<bool, Error>(false)
                    &&& form_budget == standard_budget(self@.bytes)
                },
                Ok(ContainerForm::Extended(ds64)) => {
                    &&& detected(self@.bytes) == Ok::<bool, Error>(true)
                    &&& is_resolved(Ok(ds64), layout(self@.bytes))
                },
                Err(e) => layout(self@.bytes) == Err::<(Seq<Ds64Entry>, int, int), Error>(e),
            },
    {
        let is_64bit = match detect(self.inner.as_slice()) {
            Ok(v) => v,
            Err(e) => { return Err(e); },
        };
        match read_layout(self.inner.as_slice()) {
            Err(e) => Err(e),
            Ok(form) => {
                if is_64bit {
                    Ok(ContainerForm::Extended(form))
                } else {
                    Ok(ContainerForm::Standard { form_budget: form.form_budget })
                }
            },
        }
    }

    /// The 64-bit size that the `ds64` chunk states for `ident`; for `RF64`
    /// and `BW64` that is the size of the form, unless a record of the chunk
    /// bears that name. Without a `ds64` chunk behind the opening bytes the
    /// call fails with `MissingRequiredDS64`, without an entry for `ident`
    /// with `MissingDS64Length`. The reader is left as it was, cursor
    /// included.
    pub fn get_ds64_length(&mut self, ident: FourCC) -> (r: Result<u64, Error>)
        ensures
            final(self)@ == old(self)@,
            r == ds64_length(old(self)@.bytes, ident),
    {
        match resolve(self.inner.as_slice(), true) {
            Err(e) => Err(e),
            Ok(ds64) => match ds64.table.get(ident) {
                Some(size) => Ok(size),
                None => Err(Error::MissingDS64Length(ident)),
            },
        }
    }

    /// Reads the chunk header at the cursor: the identifier, the true length
    /// of the content, and the bytes from the content's start to the next
    /// chunk. The cursor then stands at the start of the content; where the
    /// header cannot be read, it stays.
    pub fn read_chunk_header_immediate(&mut self) -> (r: Result<(FourCC, u64, u64), Error>)
        ensures
            final(self)@.bytes == old(self)@.bytes,
            match r {
                Ok((ident, length, displacement)) => {
                    &&& immediate_header(old(self)@.bytes, old(self)@.position as int) matches Ok(
                        header,
                    )
                    &&& header.ident == ident
                    &&& header.resolved_length == length
                    &&& displacement == saturated_displacement(length)
                    &&& final(self)@.position == old(self)@.position + 8
                },
                Err(e) => {
                    &&& immediate_header(old(self)@.bytes, old(self)@.position as int) == Err::<
                        ChunkHeader,
                        Error,
                    >(e)
                    &&& final(self)@.position == old(self)@.position
                },
            },
    {
        let bytes = self.inner.as_slice();
        let len: u64 = bytes.len() as u64;
        let at = self.position;
        if at > len || len - at < 8 {
            return Err(Error::UnexpectedEof);
        }
        let declared = match read_u32_at(bytes, at + 4) {
            Ok(v) => v,
            Err(e) => { return Err(e); },
        };
        let header = if declared != SIZE_SENTINEL {
            let table = Ds64Table::new();
            match read_header_at(bytes, &table, at) {
                Ok(header) => header,
                Err(e) => { return Err(e); },
            }
        } else {
            let form = match read_layout(bytes) {
                Ok(form) => form,
                Err(e) => { return Err(e); },
            };
            match read_header_at(bytes, &form.table, at) {
                Ok(header) => header,
                Err(e) => { return Err(e); },
            }
        };
        let displacement = header.resolved_length.saturating_add(header.resolved_length % 2);
        self.position = at + 8;
        Ok((header.ident, header.resolved_length, displacement))
    }

    /// The content of the chunk `ident` number `occurrence`, counted from
    /// zero among the chunks of that identifier: its position and its true
    /// length. The cursor stays.
    pub fn locate(&self, ident: FourCC, occurrence: u32) -> (r: Result<(u64, u64), Error>)
        ensures
            outcome_of(r) == located(self@.bytes, Target::Chunk(ident), occurrence as nat),
    {
        locate_in(self.inner.as_slice(), Target::Chunk(ident), occurrence)
    }

    /// The `LIST` chunk number `occurrence`, counted from zero among the
    /// `LIST` chunks under the tag `sub_form_identifier`: the position behind
    /// the tag and the length of what follows it. The cursor stays.
    pub fn locate_list(&self, sub_form_identifier: FourCC, occurrence: u32) -> (r: Result<
        (u64, u64),
        Error,
    >)
        ensures
            outcome_of(r) == located(
                self@.bytes,
                Target::ListForm(sub_form_identifier),
                occurrence as nat,
            ),
    {
        locate_in(self.inner.as_slice(), Target::ListForm(sub_form_identifier), occurrence)
    }

    /// The `length` bytes of the store from `offset` on. The cursor stays.
    pub fn read_raw(&self, offset: u64, length: u64) -> (r: Result<Vec<u8>, Error>)
        ensures
            match r {
                Ok(bytes) => {
                    &&& in_store(self@.bytes.len(), offset as int, length as int)
                    &&& bytes@ == self@.bytes.subrange(offset as int, offset + length)
                },
                Err(e) => {
                    &&& !in_store(self@.bytes.len(), offset as int, length as int)
                    &&& e == Error::UnexpectedEof
                },
            },
    {
        let bytes = self.inner.as_slice();
        let len: u64 = bytes.len() as u64;
        if offset > len || len - offset < length {
            return Err(Error::UnexpectedEof);
        }
        let range = slice_subrange(bytes, offset as usize, (offset + length) as usize);
        let mut out: Vec<u8> = Vec::new();
        out.extend_from_slice(range);
        assert(out@ =~= self@.bytes.subrange(offset as int, offset + length));
        Ok(out)
    }

    /// Moves the cursor to the content of the chunk `ident` number `index`
    /// and gives the content's true length. Where there is no such chunk the
    /// cursor stays.
    pub fn seek_chunk(&mut self, ident: FourCC, index: u32) -> (r: Result<u64, Error>)
        ensures
            final(self)@.bytes == old(self)@.bytes,
            match r {
                Ok(length) => {
                    &&& located(old(self)@.bytes, Target::Chunk(ident), index as nat) == Ok::<
                        (int, int),
                        Error,
                    >((final(self)@.position as int, length as int))
                },
                Err(e) => {
                    &&& located(old(self)@.bytes, Target::Chunk(ident), index as nat) == Err::<
                        (int, int),
                        Error,
                    >(e)
                    &&& final(self)@.position == old(self)@.position
                },
            },
    {
        match locate_in(self.inner.as_slice(), Target::Chunk(ident), index) {
            Err(e) => Err(e),
            Ok((offset, length)) => {
                self.position = offset;
                Ok(length)
            },
        }
    }

    /// Reads the content of the chunk `ident` number `at_index` into
    /// `buffer`, in place of what the buffer held, and gives its length. The
    /// cursor then stands behind the content. Where the chunk cannot be read
    /// whole, cursor and buffer stay.
    pub fn read_chunk(&mut self, ident: FourCC, at_index: u32, buffer: &mut Vec<u8>) -> (r: Result<
        usize,
        Error,
    >)
        ensures
            final(self)@.bytes == old(self)@.bytes,
            match r {
                Ok(count) => {
                    &&& content(old(self)@.bytes, Target::Chunk(ident), at_index as nat) == Ok::<
                        Seq<u8>,
                        Error,
                    >(final(buffer)@)
                    &&& count == final(buffer)@.len()
                    &&& located(old(self)@.bytes, Target::Chunk(ident), at_index as nat) matches Ok(
                        (offset, length),
                    )
                    &&& final(self)@.position == offset + length
                },
                Err(e) => {
                    &&& content(old(self)@.bytes, Target::Chunk(ident), at_index as nat) == Err::<
                        Seq<u8>,
                        Error,
                    >(e)
                    &&& final(self)@.position == old(self)@.position
                    &&& final(buffer)@ == old(buffer)@
                },
            },
    {
        let (offset, length) = match locate_in(self.inner.as_slice(), Target::Chunk(ident), at_index) {
            Ok(range) => range,
            Err(e) => { return Err(e); },
        };
        let bytes = self.inner.as_slice();
        let len: u64 = bytes.len() as u64;
        if offset > len || len - offset < length {
            return Err(Error::UnexpectedEof);
        }
        let range = slice_subrange(bytes, offset as usize, (offset + length) as usize);
        buffer.clear();
        buffer.extend_from_slice(range);
        assert(buffer@ =~= self@.bytes.subrange(offset as int, offset + length));
        self.position = offset + length;
        Ok(length as usize)
    }

    /// The audio format: the fields of the first `fmt ` chunk. The cursor
    /// then stands behind the fields; where they cannot be read, it stays.
    pub fn format(&mut self) -> (r: Result<WaveFmt, Error>)
        ensures
            final(self)@.bytes == old(self)@.bytes,
            match r {
                Ok(fmt) => {
                    &&& format_position(old(self)@.bytes) matches Ok(at)
                    &&& is_fmt_at(old(self)@.bytes, at, fmt)
                    &&& final(self)@.position == at + fmt_extent(old(self)@.bytes, at)
                },
                Err(e) => {
                    &&& format_position(old(self)@.bytes) == Err::<int, Error>(e)
                    &&& final(self)@.position == old(self)@.position
                },
            },
    {
        let (offset, _) = match locate_in(
            self.inner.as_slice(),
            Target::Chunk(FourCC::make(FMT__SIG)),
            0,
        ) {
            Ok(range) => range,
            Err(e) => { return Err(e); },
        };
        let len: usize = self.inner.len();
        let fmt = match read_wave_fmt(self.inner.as_slice(), offset) {
            Ok(fmt) => fmt,
            Err(e) => { return Err(e); },
        };
        self.position = if fmt.tag == crate::fmt::WAVE_FORMAT_EXTENSIBLE {
            offset + 40
        } else {
            offset + 16
        };
        Ok(fmt)
    }

    /// The number of sample frames: the length of the first `data` chunk in
    /// units of the format's bytes per sample frame. The cursor then stands
    /// behind the format fields; where there is no answer, it stays.
    pub fn frame_length(&mut self) -> (r: Result<u64, Error>)
        ensures
            final(self)@.bytes == old(self)@.bytes,
            r == frame_count(old(self)@.bytes),
            r is Err ==> final(self)@.position == old(self)@.position,
            r is Ok ==> (format_position(old(self)@.bytes) matches Ok(at) && final(self)@.position
                == at + fmt_extent(old(self)@.bytes, at)),
    {
        let start = self.position;
        let (_, length) = match locate_in(
            self.inner.as_slice(),
            Target::Chunk(FourCC::make(DATA_SIG)),
            0,
        ) {
            Ok(range) => range,
            Err(e) => { return Err(e); },
        };
        let fmt = match self.format() {
            Ok(fmt) => fmt,
            Err(e) => { return Err(e); },
        };
        if fmt.block_alignment == 0 {
            self.position = start;
            return Err(Error::ZeroBlockAlignment);
        }
        Ok(length / (fmt.block_alignment as u64))
    }

    /// The broadcast metadata as it stands in the store: the content of the
    /// first `bext` chunk. The cursor moves as in `read_chunk`.
    pub fn broadcast_extension(&mut self) -> (r: Result<Vec<u8>, Error>)
        ensures
            final(self)@.bytes == old(self)@.bytes,
            match r {
                Ok(bext) => {
                    &&& content(old(self)@.bytes, Target::Chunk(FourCC::make(BEXT_SIG)), 0) == Ok::<
                        Seq<u8>,
                        Error,
                    >(bext@)
                    &&& located(old(self)@.bytes, Target::Chunk(FourCC::make(BEXT_SIG)), 0) matches Ok(
                        (offset, length),
                    )
                    &&& final(self)@.position == offset + length
                },
                Err(e) => {
                    &&& content(old(self)@.bytes, Target::Chunk(FourCC::make(BEXT_SIG)), 0) == Err::<
                        Seq<u8>,
                        Error,
                    >(e)
                    &&& final(self)@.position == old(self)@.position
                },
            },
    {
        let mut bext: Vec<u8> = Vec::new();
        match self.read_chunk(FourCC::make(BEXT_SIG), 0, &mut bext) {
            Ok(_) => Ok(bext),
            Err(e) => Err(e),
        }
    }

    /// The channels of the audio, one descriptor each. The cursor moves as
    /// in `format`.
    pub fn channels(&mut self) -> (r: Result<Vec<ChannelDescriptor>, Error>)
        ensures
            final(self)@.bytes == old(self)@.bytes,
            match r {
                Ok(channels) => {
                    &&& format_position(old(self)@.bytes) matches Ok(at)
                    &&& describes_channels(
                        le_u16(old(self)@.bytes, at + 2) as u16,
                        fmt_channel_mask(old(self)@.bytes, at),
                        channels@,
                    )
                    &&& final(self)@.position == at + fmt_extent(old(self)@.bytes, at)
                },
                Err(e) => {
                    &&& format_position(old(self)@.bytes) == Err::<int, Error>(e)
                    &&& final(self)@.position == old(self)@.position
                },
            },
    {
        let fmt = match self.format() {
            Ok(fmt) => fmt,
            Err(e) => { return Err(e); },
        };
        let channel_mask = match fmt.extended_format {
            Some(extended) => Some(extended.channel_mask),
            None => None,
        };
        Ok(describe_channels(fmt.channel_count, channel_mask))
    }

    /// Reads the content of the first `iXML` chunk into `buffer`, as
    /// `read_chunk` does.
    pub fn read_ixml(&mut self, buffer: &mut Vec<u8>) -> (r: Result<usize, Error>)
        ensures
            final(self)@.bytes == old(self)@.bytes,
            match r {
                Ok(count) => {
                    &&& content(old(self)@.bytes, Target::Chunk(FourCC::make(IXML_SIG)), 0) == Ok::<
                        Seq<u8>,
                        Error,
                    >(final(buffer)@)
                    &&& count == final(buffer)@.len()
                    &&& located(old(self)@.bytes, Target::Chunk(FourCC::make(IXML_SIG)), 0) matches Ok(
                        (offset, length),
                    )
                    &&& final(self)@.position == offset + length
                },
                Err(e) => {
                    &&& content(old(self)@.bytes, Target::Chunk(FourCC::make(IXML_SIG)), 0) == Err::<
                        Seq<u8>,
                        Error,
                    >(e)
                    &&& final(self)@.position == old(self)@.position
                    &&& final(buffer)@ == old(buffer)@
                },
            },
    {
        self.read_chunk(FourCC::make(IXML_SIG), 0, buffer)
    }

    /// Reads the content of the first `axml` chunk into `buffer`, as
    /// `read_chunk` does.
    pub fn read_axml(&mut self, buffer: &mut Vec<u8>) -> (r: Result<usize, Error>)
        ensures
            final(self)@.bytes == old(self)@.bytes,
            match r {
                Ok(count) => {
                    &&& content(old(self)@.bytes, Target::Chunk(FourCC::make(AXML_SIG)), 0) == Ok::<
                        Seq<u8>,
                        Error,
                    >(final(buffer)@)
                    &&& count == final(buffer)@.len()
                    &&& located(old(self)@.bytes, Target::Chunk(FourCC::make(AXML_SIG)), 0) matches Ok(
                        (offset, length),
                    )
                    &&& final(self)@.position == offset + length
                },
                Err(e) => {
                    &&& content(old(self)@.bytes, Target::Chunk(FourCC::make(AXML_SIG)), 0) == Err::<
                        Seq<u8>,
                        Error,
                    >(e)
                    &&& final(self)@.position == old(self)@.position
                    &&& final(buffer)@ == old(buffer)@
                },
            },
    {
        self.read_chunk(FourCC::make(AXML_SIG), 0, buffer)
    }
}

} // verus!
