//! The writer: chunks appended to a new container.
//!
//! A container starts in the 32-bit form: `RIFF`, a length field, `WAVE`, and
//! then the chunks as they are appended. The length field can state no more
//! than `0xFFFFFFFE` bytes. Before a chunk is appended that would take the
//! form over that, the container is promoted: its magic becomes `RF64`, its
//! length field the sentinel, and a `ds64` chunk is set between the opening
//! and the chunks written so far. From then on the `ds64` chunk states the
//! size of the form and of `data` as they are after every chunk. A chunk
//! longer than a size field can state is written with the sentinel in its
//! size field, and its true size goes into the `ds64` table when the writer
//! is finalized.

use vstd::prelude::*;
use vstd::slice::slice_subrange;

use crate::ds64::{padded, Ds64Entry, MAX_PLAIN_SIZE, SIZE_SENTINEL};
use crate::endian::{encode_u32, encode_u64, u32_le_bytes, u64_le_bytes};
use crate::errors::Error;
use crate::fourcc::{FourCC, DATA_SIG, DS64_SIG, RF64_SIG, RIFF_SIG, WAVE_SIG};

verus! {

/// The most records that a `ds64` chunk can carry while its own length still
/// fits its size field.
pub const MAX_DS64_RECORDS: u64 = 357_913_938;

/// A chunk as it was handed to the writer.
pub struct ChunkRecord {
    pub ident: FourCC,
    pub content: Seq<u8>,
}

/// What the size field of a chunk of `length` bytes holds: the length, or
/// the sentinel where the length is more than the field can state.
pub open spec fn declared_length(length: int) -> int {
    if length > MAX_PLAIN_SIZE {
        SIZE_SENTINEL as int
    } else {
        length
    }
}

/// The pad byte behind a content of `length` bytes: one zero byte where the
/// length is odd.
pub open spec fn pad_bytes(length: int) -> Seq<u8> {
    if length % 2 == 1 {
        seq![0u8]
    } else {
        Seq::empty()
    }
}

/// The bytes of one chunk: identifier, size field, content, pad byte.
pub open spec fn chunk_bytes(chunk: ChunkRecord) -> Seq<u8> {
    chunk.ident@ + u32_le_bytes(declared_length(chunk.content.len() as int)) + chunk.content
        + pad_bytes(chunk.content.len() as int)
}

/// The bytes of `chunks`, one chunk behind the other.
pub open spec fn body_bytes(chunks: Seq<ChunkRecord>) -> Seq<u8>
    decreases chunks.len(),
{
    if chunks.len() == 0 {
        Seq::empty()
    } else {
        body_bytes(chunks.drop_last()) + chunk_bytes(chunks.last())
    }
}

/// The records that `chunks` need in the `ds64` table: one for each chunk
/// longer than a size field can state, in the order of the chunks.
pub open spec fn long_records(chunks: Seq<ChunkRecord>) -> Seq<Ds64Entry>
    decreases chunks.len(),
{
    if chunks.len() == 0 {
        Seq::empty()
    } else {
        let before = long_records(chunks.drop_last());
        let last = chunks.last();
        if last.content.len() > MAX_PLAIN_SIZE {
            before.push(Ds64Entry { ident: last.ident, size: last.content.len() as u64 })
        } else {
            before
        }
    }
}

/// The size of the `data` chunk among `chunks`: the length of the last chunk
/// of that name, and zero where there is none.
pub open spec fn data_size_of(chunks: Seq<ChunkRecord>) -> int
    decreases chunks.len(),
{
    if chunks.len() == 0 {
        0
    } else if chunks.last().ident == FourCC::make(DATA_SIG) {
        chunks.last().content.len() as int
    } else {
        data_size_of(chunks.drop_last())
    }
}

/// The bytes of the records of a `ds64` chunk.
pub open spec fn records_bytes(records: Seq<Ds64Entry>) -> Seq<u8>
    decreases records.len(),
{
    if records.len() == 0 {
        Seq::empty()
    } else {
        records_bytes(records.drop_last()) + records.last().ident@ + u64_le_bytes(
            records.last().size as int,
        )
    }
}

/// The bytes of a `ds64` chunk that states `form_size` and `data_size` and
/// carries `records`.
pub open spec fn ds64_chunk_bytes(form_size: int, data_size: int, records: Seq<Ds64Entry>) -> Seq<
    u8,
> {
    FourCC::make(DS64_SIG)@ + u32_le_bytes(28 + 12 * (records.len() as int)) + u64_le_bytes(form_size)
        + u64_le_bytes(data_size) + u64_le_bytes(0) + u32_le_bytes(records.len() as int)
        + records_bytes(records)
}

/// The opening of a container in the 32-bit form whose form takes
/// `form_size` bytes.
pub open spec fn opening_32(form_size: int) -> Seq<u8> {
    FourCC::make(RIFF_SIG)@ + u32_le_bytes(form_size) + FourCC::make(WAVE_SIG)@
}

/// The opening of a container in the 64-bit form, `ds64` chunk included.
pub open spec fn opening_64(form_size: int, data_size: int, records: Seq<Ds64Entry>) -> Seq<u8> {
    FourCC::make(RF64_SIG)@ + u32_le_bytes(SIZE_SENTINEL as int) + FourCC::make(WAVE_SIG)@
        + ds64_chunk_bytes(form_size, data_size, records)
}

/// The container that holds `chunks` when the writer is finalized. The size
/// fields state what is there: in the 32-bit form the length of the form, in
/// the 64-bit form the size of the form, the size of `data`, and one record
/// for each chunk longer than a size field can state.
pub open spec fn container_bytes(chunks: Seq<ChunkRecord>, promoted: bool) -> Seq<u8> {
    let body = body_bytes(chunks);
    if promoted {
        let records = long_records(chunks);
        opening_64(
            4 + 36 + 12 * (records.len() as int) + body.len(),
            data_size_of(chunks),
            records,
        ) + body
    } else {
        opening_32(4 + (body.len() as int)) + body
    }
}

/// The container as a writer holds it. A finalized writer holds the
/// finalized container. Before that the 64-bit form states the size of the
/// form and of `data` as they then are, and its `ds64` chunk carries no
/// record yet; the 32-bit form keeps the length of an empty form in its
/// length field.
pub open spec fn emitted_bytes(chunks: Seq<ChunkRecord>, promoted: bool, closed: bool) -> Seq<u8> {
    let body = body_bytes(chunks);
    if closed {
        container_bytes(chunks, promoted)
    } else if promoted {
        opening_64(4 + 36 + (body.len() as int), data_size_of(chunks), Seq::empty()) + body
    } else {
        opening_32(4) + body
    }
}

/// Whether a writer can hold `chunks` in the form that `promoted` tells: the
/// 32-bit form holds no more than its length field can state, the `ds64`
/// chunk has room for the records, and the container is no longer than a
/// store can be.
pub open spec fn writable(chunks: Seq<ChunkRecord>, promoted: bool) -> bool {
    &&& promoted || 4 + body_bytes(chunks).len() <= MAX_PLAIN_SIZE
    &&& long_records(chunks).len() <= MAX_DS64_RECORDS
    &&& container_bytes(chunks, promoted).len() <= u64::MAX
}

/// Whether a chunk of `content_length` bytes takes a form that holds
/// `bytes_written_in_form` bytes over what the 32-bit form can state.
pub open spec fn crosses(bytes_written_in_form: int, content_length: int) -> bool {
    bytes_written_in_form + 8 + padded(content_length) > MAX_PLAIN_SIZE
}

/// Whether a writer in the 32-bit form must be promoted before it appends a
/// chunk of `content_length` bytes to a form of `bytes_written_in_form`
/// bytes.
pub fn must_promote(bytes_written_in_form: u64, content_length: u64) -> (r: bool)
    ensures
        r == crosses(bytes_written_in_form as int, content_length as int),
{
    if content_length > MAX_PLAIN_SIZE - 8 {
        true
    } else {
        let step: u64 = 8 + content_length + content_length % 2;
        step > MAX_PLAIN_SIZE || bytes_written_in_form > MAX_PLAIN_SIZE - step
    }
}

/// What a writer is at a moment.
pub struct WriterState {
    /// The container as far as it is written out.
    pub emitted: Seq<u8>,
    /// The chunks handed over so far, in order.
    pub chunks: Seq<ChunkRecord>,
    /// Whether the container is in the 64-bit form.
    pub promoted: bool,
    /// Whether the writer was finalized.
    pub closed: bool,
}

impl WriterState {
    /// The bytes of the form so far: all that follows the magic and the
    /// length field.
    pub open spec fn bytes_written_in_form(&self) -> int {
        self.emitted.len() - 8
    }

    /// Whether a writer can be in this state: what is written out is the
    /// container of the chunks, the 32-bit form holds no more than its
    /// length field can state, the `ds64` chunk has room for the records of
    /// the chunks, and the container is no longer than a store can be.
    pub open spec fn valid(&self) -> bool {
        &&& self.emitted == emitted_bytes(self.chunks, self.promoted, self.closed)
        &&& self.promoted || 4 + body_bytes(self.chunks).len() <= MAX_PLAIN_SIZE
        &&& long_records(self.chunks).len() <= MAX_DS64_RECORDS
        &&& self.emitted.len() <= u64::MAX
    }
}

/// A writer of a WAVE container.
pub struct WaveWriter {
    store: Vec<u8>,
    promoted: bool,
    closed: bool,
    data_size: u64,
    pending: Vec<Ds64Entry>,
    chunks: Ghost<Seq<ChunkRecord>>,
}

impl View for WaveWriter {
    type V = WriterState;

    closed spec fn view(&self) -> WriterState {
        WriterState {
            emitted: self.store@,
            chunks: self.chunks@,
            promoted: self.promoted,
            closed: self.closed,
        }
    }
}

/// The records of a `ds64` chunk take twelve bytes each.
pub proof fn lemma_records_bytes_len(records: Seq<Ds64Entry>)
    ensures
        records_bytes(records).len() == 12 * records.len(),
    decreases records.len(),
{
    if records.len() > 0 {
        lemma_records_bytes_len(records.drop_last());
    }
}

/// The 64-bit opening takes 48 bytes and twelve for each record.
pub proof fn lemma_opening_64_len(form_size: int, data_size: int, records: Seq<Ds64Entry>)
    ensures
        opening_64(form_size, data_size, records).len() == 48 + 12 * (records.len() as int),
{
    lemma_records_bytes_len(records);
}

/// Two 64-bit openings that differ in the size of the form differ in the
/// eight bytes from position 20 only.
pub proof fn lemma_form_size_field(form_size: int, data_size: int, records: Seq<Ds64Entry>)
    ensures
        opening_64(form_size, data_size, records) == opening_64(0, data_size, records).subrange(
            0,
            20,
        ) + u64_le_bytes(form_size) + opening_64(0, data_size, records).subrange(
            28,
            48 + 12 * (records.len() as int),
        ),
{
    lemma_records_bytes_len(records);
    assert(opening_64(form_size, data_size, records) =~= opening_64(
        0,
        data_size,
        records,
    ).subrange(0, 20) + u64_le_bytes(form_size) + opening_64(0, data_size, records).subrange(
        28,
        48 + 12 * (records.len() as int),
    ));
}

/// Appending a chunk appends its bytes, and its record if it is long.
pub proof fn lemma_push_chunk(chunks: Seq<ChunkRecord>, chunk: ChunkRecord)
    ensures
        body_bytes(chunks.push(chunk)) == body_bytes(chunks) + chunk_bytes(chunk),
        long_records(chunks.push(chunk)) == if chunk.content.len() > MAX_PLAIN_SIZE {
            long_records(chunks).push(
                Ds64Entry { ident: chunk.ident, size: chunk.content.len() as u64 },
            )
        } else {
            long_records(chunks)
        },
        data_size_of(chunks.push(chunk)) == if chunk.ident == FourCC::make(DATA_SIG) {
            chunk.content.len() as int
        } else {
            data_size_of(chunks)
        },
{
    assert(chunks.push(chunk).drop_last() =~= chunks);
}

/// A store made of an opening and a body holds each in its place.
pub proof fn lemma_two_parts(head: Seq<u8>, body: Seq<u8>)
    ensures
        (head + body).len() == head.len() + body.len(),
        (head + body).subrange(0, head.len() as int) == head,
        (head + body).subrange(head.len() as int, (head + body).len() as int) == body,
{
    assert((head + body).subrange(0, head.len() as int) =~= head);
    assert((head + body).subrange(head.len() as int, (head + body).len() as int) =~= body);
}

/// What is appended to a store is appended to its body.
pub proof fn lemma_grown_tail(head: Seq<u8>, body: Seq<u8>, more: Seq<u8>)
    ensures
        (head + body) + more == head + (body + more),
        ((head + body) + more).subrange(head.len() as int, ((head + body) + more).len() as int)
            == body + more,
{
    assert((head + body) + more =~= head + (body + more));
    lemma_two_parts(head, body + more);
}

/// The length of what a writer holds: the opening of its form and the bytes
/// of its chunks.
pub proof fn lemma_emitted_len(chunks: Seq<ChunkRecord>, promoted: bool, closed: bool)
    ensures
        emitted_bytes(chunks, promoted, closed).len() == body_bytes(chunks).len() + if promoted {
            if closed {
                48 + 12 * long_records(chunks).len()
            } else {
                48
            }
        } else {
            12
        },
{
    let body = body_bytes(chunks);
    let records = long_records(chunks);
    lemma_opening_64_len(4 + 36 + 12 * (records.len() as int) + body.len(), data_size_of(chunks), records);
    lemma_opening_64_len(4 + 36 + (body.len() as int), data_size_of(chunks), Seq::empty());
}

fn push_bytes(store: &mut Vec<u8>, bytes: &[u8])
    ensures
        final(store)@ == old(store)@ + bytes@,
{
    store.extend_from_slice(bytes);
    assert(store@ =~= old(store)@ + bytes@);
}

fn push_fourcc(store: &mut Vec<u8>, ident: FourCC)
    ensures
        final(store)@ == old(store)@ + ident@,
{
    let bytes = ident.bytes();
    push_bytes(store, bytes.as_slice());
}

fn push_u32(store: &mut Vec<u8>, value: u32)
    ensures
        final(store)@ == old(store)@ + u32_le_bytes(value as int),
{
    let bytes = encode_u32(value);
    push_bytes(store, bytes.as_slice());
}

fn push_u64(store: &mut Vec<u8>, value: u64)
    ensures
        final(store)@ == old(store)@ + u64_le_bytes(value as int),
{
    let bytes = encode_u64(value);
    push_bytes(store, bytes.as_slice());
}

/// Appends one chunk to `store`: identifier, size field, content, pad byte.
fn push_chunk(store: &mut Vec<u8>, ident: FourCC, content: &[u8])
    ensures
        final(store)@ == old(store)@ + chunk_bytes(ChunkRecord { ident, content: content@ }),
{
    let length: u64 = content.len() as u64;
    let declared: u32 = if length > MAX_PLAIN_SIZE {
        SIZE_SENTINEL
    } else {
        length as u32
    };
    push_fourcc(store, ident);
    push_u32(store, declared);
    push_bytes(store, content);
    if length % 2 == 1 {
        store.push(0u8);
    }
    assert(store@ =~= old(store)@ + chunk_bytes(ChunkRecord { ident, content: content@ }));
}

/// Writes `bytes` over the bytes of `store` that start at `at`.
fn patch(store: &mut Vec<u8>, at: usize, bytes: &[u8])
    requires
        at + bytes@.len() <= old(store)@.len(),
    ensures
        final(store)@ == old(store)@.subrange(0, at as int) + bytes@ + old(store)@.subrange(
            at + bytes@.len(),
            old(store)@.len() as int,
        ),
{
    let len: usize = store.len();
    let mut i: usize = 0;
    while i < bytes.len()
        invariant
            i <= bytes@.len(),
            at + bytes@.len() <= store@.len(),
            store@.len() == old(store)@.len(),
            store@.len() == len,
            forall|k: int| 0 <= k < at + i ==> store@[k] == if k < at {
                old(store)@[k]
            } else {
                bytes@[k - at]
            },
            forall|k: int| at + i <= k < store@.len() ==> store@[k] == old(store)@[k],
        decreases bytes@.len() - i,
    {
        store[at + i] = bytes[i];
        i = i + 1;
    }
    assert(store@ =~= old(store)@.subrange(0, at as int) + bytes@ + old(store)@.subrange(
        at + bytes@.len(),
        old(store)@.len() as int,
    ));
}

/// Appends the 64-bit opening to `store`.
fn push_opening_64(store: &mut Vec<u8>, form_size: u64, data_size: u64, records: &Vec<Ds64Entry>)
    requires
        28 + 12 * records@.len() <= MAX_PLAIN_SIZE,
    ensures
        final(store)@ == old(store)@ + opening_64(form_size as int, data_size as int, records@),
{
    let count: u32 = records.len() as u32;
    push_fourcc(store, FourCC::make(RF64_SIG));
    push_u32(store, SIZE_SENTINEL);
    push_fourcc(store, FourCC::make(WAVE_SIG));
    push_fourcc(store, FourCC::make(DS64_SIG));
    push_u32(store, 28 + 12 * count);
    push_u64(store, form_size);
    push_u64(store, data_size);
    push_u64(store, 0);
    push_u32(store, count);
    let ghost fixed = store@;
    let mut i: usize = 0;
    while i < records.len()
        invariant
            i <= records@.len(),
            store@ == fixed + records_bytes(records@.take(i as int)),
        decreases records@.len() - i,
    {
        let record = records[i];
        push_fourcc(store, record.ident);
        push_u64(store, record.size);
        i = i + 1;
        proof {
            assert(records@.take(i as int).drop_last() =~= records@.take(i - 1));
            assert(store@ =~= fixed + records_bytes(records@.take(i as int)));
        }
    }
    proof {
        assert(records@.take(records@.len() as int) =~= records@);
        assert(store@ =~= old(store)@ + opening_64(form_size as int, data_size as int, records@));
    }
}

impl WaveWriter {
    /// Whether the writer's parts agree: its state is one that a writer can
    /// be in, and the sizes kept for the `ds64` chunk are those of the
    /// chunks.
    pub closed spec fn wf(&self) -> bool {
        &&& self@.valid()
        &&& self.pending@ == long_records(self.chunks@)
        &&& self.data_size == data_size_of(self.chunks@)
    }

    /// A writer whose parts agree is in a state that a writer can be in.
    pub proof fn lemma_wf_is_valid(&self)
        requires
            self.wf(),
        ensures
            self@.valid(),
            self@.emitted.len() >= 12,
    {
        lemma_emitted_len(self.chunks@, self.promoted, self.closed);
    }

    /// A writer of a new container: the 32-bit opening of an empty form.
    pub fn new() -> (writer: WaveWriter)
        ensures
            writer.wf(),
            writer@.emitted == opening_32(4),
            writer@.chunks == Seq::<ChunkRecord>::empty(),
            !writer@.promoted,
            !writer@.closed,
    {
        let mut store: Vec<u8> = Vec::new();
        push_fourcc(&mut store, FourCC::make(RIFF_SIG));
        push_u32(&mut store, 4);
        push_fourcc(&mut store, FourCC::make(WAVE_SIG));
        let len: usize = store.len();
        assert(store@ =~= opening_32(4));
        assert(store@ =~= opening_32(4) + body_bytes(Seq::<ChunkRecord>::empty()));
        WaveWriter {
            store,
            promoted: false,
            closed: false,
            data_size: 0,
            pending: Vec::new(),
            chunks: Ghost(Seq::empty()),
        }
    }

    /// Whether the container is in the 64-bit form.
    pub fn is_promoted(&self) -> (promoted: bool)
        ensures
            promoted == self@.promoted,
    {
        self.promoted
    }

    /// Whether the writer was finalized.
    pub fn is_closed(&self) -> (closed: bool)
        ensures
            closed == self@.closed,
    {
        self.closed
    }

    /// The bytes of the form so far: all that follows the magic and the
    /// length field.
    pub fn bytes_written_in_form(&self) -> (count: u64)
        requires
            self.wf(),
        ensures
            count == self@.bytes_written_in_form(),
    {
        proof {
            self.lemma_wf_is_valid();
        }
        (self.store.len() - 8) as u64
    }

    /// The container as far as it is written out.
    pub fn emitted(&self) -> (bytes: &[u8])
        ensures
            bytes@ == self@.emitted,
    {
        self.store.as_slice()
    }

    /// The store, given back.
    pub fn into_inner(self) -> (store: Vec<u8>)
        ensures
            store@ == self@.emitted,
    {
        self.store
    }

    /// Writes the 64-bit opening anew over the one that the store holds, so
    /// that it states the sizes as they now are.
    fn refresh_opening_64(&mut self)
        requires
            old(self).promoted,
            !old(self).closed,
            old(self).store@.len() >= 48,
        ensures
            final(self).store@ == opening_64(
                old(self).store@.len() - 8,
                old(self).data_size as int,
                Seq::empty(),
            ) + old(self).store@.subrange(48, old(self).store@.len() as int),
            final(self).promoted == old(self).promoted,
            final(self).closed == old(self).closed,
            final(self).data_size == old(self).data_size,
            final(self).pending == old(self).pending,
            final(self).chunks == old(self).chunks,
    {
        let form_size: u64 = (self.store.len() - 8) as u64;
        let none: Vec<Ds64Entry> = Vec::new();
        let mut opening: Vec<u8> = Vec::new();
        push_opening_64(&mut opening, form_size, self.data_size, &none);
        proof {
            assert(none@ =~= Seq::<Ds64Entry>::empty());
            lemma_opening_64_len(form_size as int, self.data_size as int, none@);
        }
        patch(&mut self.store, 0, opening.as_slice());
        assert(self.store@ =~= opening@ + old(self).store@.subrange(
            48,
            old(self).store@.len() as int,
        ));
    }

    /// Moves the container to the 64-bit form: the magic becomes `RF64`, the
    /// length field the sentinel, and a `ds64` chunk that states the sizes
    /// as they then are goes between the opening and the chunks. A container
    /// already in that form stays as it is.
    pub fn promote(&mut self) -> (r: Result<(), Error>)
        requires
            old(self).wf(),
        ensures
            final(self).wf(),
            final(self)@.chunks == old(self)@.chunks,
            final(self)@.closed == old(self)@.closed,
            match r {
                Ok(()) => {
                    &&& !old(self)@.closed
                    &&& final(self)@.promoted
                    &&& final(self)@.emitted == emitted_bytes(old(self)@.chunks, true, false)
                },
                Err(e) => {
                    &&& old(self)@.closed
                    &&& e == Error::WriterClosed
                    &&& final(self)@ == old(self)@
                },
            },
    {
        if self.closed {
            return Err(Error::WriterClosed);
        }
        if self.promoted {
            return Ok(());
        }
        let ghost body = body_bytes(self.chunks@);
        proof {
            lemma_two_parts(opening_32(4), body);
        }
        let form_size: u64 = (self.store.len() - 8) as u64 + 36;
        let none: Vec<Ds64Entry> = Vec::new();
        let mut store: Vec<u8> = Vec::new();
        push_opening_64(&mut store, form_size, self.data_size, &none);
        let chunks = slice_subrange(self.store.as_slice(), 12, self.store.len());
        push_bytes(&mut store, chunks);
        let len: usize = store.len();
        proof {
            assert(none@ =~= Seq::<Ds64Entry>::empty());
        }
        self.store = store;
        self.promoted = true;
        Ok(())
    }

    /// Appends the chunk `ident` with `content`, and a zero pad byte where
    /// the content has an odd length. A container in the 32-bit form that
    /// the chunk would take over `0xFFFFFFFE` bytes is promoted first. In
    /// the 64-bit form the `ds64` chunk is kept to the sizes of the form and
    /// of `data` as they are with the chunk.
    ///
    /// A finalized writer takes no chunk. Nor does a writer take a chunk
    /// longer than a size field can state once it holds as many of those as
    /// a `ds64` chunk has room for.
    pub fn append_chunk(&mut self, ident: FourCC, content: &[u8]) -> (r: Result<(), Error>)
        requires
            old(self).wf(),
        ensures
            final(self).wf(),
            r is Err <==> old(self)@.closed || (content@.len() > MAX_PLAIN_SIZE && long_records(
                old(self)@.chunks,
            ).len() >= MAX_DS64_RECORDS),
            match r {
                Ok(()) => {
                    let chunk = ChunkRecord { ident, content: content@ };
                    &&& final(self)@.chunks == old(self)@.chunks.push(chunk)
                    &&& !final(self)@.closed
                    &&& final(self)@.promoted == (old(self)@.promoted || crosses(
                        old(self)@.bytes_written_in_form(),
                        content@.len() as int,
                    ))
                    &&& final(self)@.emitted == emitted_bytes(
                        final(self)@.chunks,
                        final(self)@.promoted,
                        false,
                    )
                },
                Err(e) => {
                    &&& final(self)@ == old(self)@
                    &&& e == if old(self)@.closed {
                        Error::WriterClosed
                    } else {
                        Error::Ds64TableFull
                    }
                },
            },
    {
        if self.closed {
            return Err(Error::WriterClosed);
        }
        let length: u64 = content.len() as u64;
        let long: bool = length > MAX_PLAIN_SIZE;
        if long && self.pending.len() as u64 >= MAX_DS64_RECORDS {
            return Err(Error::Ds64TableFull);
        }
        proof {
            self.lemma_wf_is_valid();
        }
        let written: u64 = (self.store.len() - 8) as u64;
        if !self.promoted && must_promote(written, length) {
            if let Err(e) = self.promote() {
                return Err(e);
            }
        }
        self.write_chunk(ident, content);
        Ok(())
    }

    /// Writes a chunk at the end of the store of a writer that has room for
    /// it in its form, and keeps the writer's books.
    fn write_chunk(&mut self, ident: FourCC, content: &[u8])
        requires
            old(self).wf(),
            !old(self).closed,
            old(self).promoted || !crosses(
                old(self)@.bytes_written_in_form(),
                content@.len() as int,
            ),
            content@.len() > MAX_PLAIN_SIZE ==> old(self).pending@.len() < MAX_DS64_RECORDS,
        ensures
            final(self).wf(),
            final(self)@.chunks == old(self)@.chunks.push(
                ChunkRecord { ident, content: content@ },
            ),
            final(self)@.promoted == old(self)@.promoted,
            !final(self)@.closed,
    {
        let ghost chunk = ChunkRecord { ident, content: content@ };
        let ghost body = body_bytes(self.chunks@);
        let ghost data_size = self.data_size as int;
        let length: u64 = content.len() as u64;
        proof {
            lemma_emitted_len(self.chunks@, self.promoted, false);
            lemma_push_chunk(self.chunks@, chunk);
        }
        push_chunk(&mut self.store, ident, content);
        if length > MAX_PLAIN_SIZE {
            self.pending.push(Ds64Entry { ident, size: length });
        }
        if ident == FourCC::make(DATA_SIG) {
            self.data_size = length;
        }
        if self.promoted {
            proof {
                lemma_grown_tail(
                    opening_64(4 + 36 + (body.len() as int), data_size, Seq::empty()),
                    body,
                    chunk_bytes(chunk),
                );
            }
            self.refresh_opening_64();
        } else {
            proof {
                lemma_grown_tail(opening_32(4), body, chunk_bytes(chunk));
            }
        }
        let len: usize = self.store.len();
        self.chunks = Ghost(self.chunks@.push(chunk));
    }

    /// Closes the writer: the size fields of the opening are set to what the
    /// container then holds, and in the 64-bit form the `ds64` chunk gets its
    /// records. A writer is finalized once.
    pub fn finalize(&mut self) -> (r: Result<(), Error>)
        requires
            old(self).wf(),
        ensures
            final(self).wf(),
            final(self)@.chunks == old(self)@.chunks,
            final(self)@.promoted == old(self)@.promoted,
            final(self)@.closed,
            match r {
                Ok(()) => {
                    &&& !old(self)@.closed
                    &&& final(self)@.emitted == container_bytes(
                        old(self)@.chunks,
                        old(self)@.promoted,
                    )
                    &&& writable(old(self)@.chunks, old(self)@.promoted)
                },
                Err(e) => {
                    &&& old(self)@.closed
                    &&& e == Error::WriterClosed
                    &&& final(self)@ == old(self)@
                },
            },
    {
        if self.closed {
            return Err(Error::WriterClosed);
        }
        let ghost body = body_bytes(self.chunks@);
        proof {
            self.lemma_wf_is_valid();
            lemma_emitted_len(self.chunks@, self.promoted, false);
        }
        if !self.promoted {
            let form_size: u32 = (self.store.len() - 8) as u32;
            let field = encode_u32(form_size);
            let ghost before = self.store@;
            proof {
                lemma_two_parts(opening_32(4), body);
            }
            patch(&mut self.store, 4, field.as_slice());
            proof {
                assert forall|k: int| 0 <= k < 12 implies before[k] == opening_32(4)[k] by {
                    assert(before.subrange(0, 12)[k] == before[k]);
                }
                assert(self.store@ =~= opening_32(form_size as int) + before.subrange(
                    12,
                    before.len() as int,
                ));
            }
        } else if self.pending.len() == 0 {
            assert(self.pending@ =~= Seq::<Ds64Entry>::empty());
        } else {
            proof {
                lemma_two_parts(
                    opening_64(4 + 36 + (body.len() as int), self.data_size as int, Seq::empty()),
                    body,
                );
            }
            let chunks = slice_subrange(self.store.as_slice(), 48, self.store.len());
            let mut store: Vec<u8> = Vec::new();
            push_opening_64(&mut store, 0, self.data_size, &self.pending);
            proof {
                lemma_opening_64_len(0, self.data_size as int, self.pending@);
            }
            push_bytes(&mut store, chunks);
            let form_size: u64 = (store.len() - 8) as u64;
            let field = encode_u64(form_size);
            patch(&mut store, 20, field.as_slice());
            proof {
                lemma_opening_64_len(form_size as int, self.data_size as int, self.pending@);
                lemma_form_size_field(form_size as int, self.data_size as int, self.pending@);
                assert(store@ =~= opening_64(form_size as int, self.data_size as int, self.pending@)
                    + body);
            }
            self.store = store;
        }
        self.closed = true;
        let len: usize = self.store.len();
        Ok(())
    }
}

} // verus!
