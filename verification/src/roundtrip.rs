//! What is written is what is read.
//!
//! The container that a finalized writer holds is read back by the reader
//! chunk by chunk: the chunk that was appended as number `k` is found under
//! its identifier, at the occurrence that counts the chunks of that
//! identifier appended before it, with the content that was handed over.
//!
//! One thing stands in the way, and is left out: the `ds64` table states one
//! size for an identifier, so two chunks of one identifier that are both
//! longer than a size field can state must have the same length.

use vstd::prelude::*;

use crate::ds64::{
    ds64_end,
    ds64_entries,
    ds64_form_budget,
    ds64_records,
    padded,
    resolved,
    resolved_size,
    table_of,
    Ds64Entry,
    MAX_PLAIN_SIZE,
    SIZE_SENTINEL,
};
use crate::endian::{
    le_u32,
    le_u64,
    lemma_u32_round_trip,
    lemma_u64_round_trip,
    u32_le_bytes,
    u64_le_bytes,
};
use crate::errors::Error;
use crate::fourcc::{
    fourcc_at,
    FourCC,
    BW64_SIG,
    DS64_SIG,
    RF64_SIG,
    RIFF_SIG,
    WAVE_SIG,
};
use crate::traverse::{header_at, probe, scan, ChunkHeader, Target};
use crate::wave::{content, detected, ds64_length, layout, located, standard_budget};
use crate::writer::{
    body_bytes,
    chunk_bytes,
    container_bytes,
    data_size_of,
    declared_length,
    lemma_opening_64_len,
    lemma_two_parts,
    lemma_records_bytes_len,
    long_records,
    opening_32,
    opening_64,
    records_bytes,
    writable,
    ChunkRecord,
    WriterState,
    MAX_DS64_RECORDS,
};

verus! {

/// The number of chunks among the first `k` of `chunks` that have the
/// identifier `ident`.
pub open spec fn earlier_matches(chunks: Seq<ChunkRecord>, k: int, ident: FourCC) -> nat
    decreases k,
{
    if k <= 0 {
        0
    } else {
        earlier_matches(chunks, k - 1, ident) + if chunks[k - 1].ident == ident {
            1nat
        } else {
            0nat
        }
    }
}

/// Whether the chunks of one identifier that are longer than a size field
/// can state all have one length.
pub open spec fn long_chunks_agree(chunks: Seq<ChunkRecord>) -> bool {
    forall|i: int, j: int|
        0 <= i < chunks.len() && 0 <= j < chunks.len() && chunks[i].ident == chunks[j].ident
            && chunks[i].content.len() > MAX_PLAIN_SIZE && chunks[j].content.len() > MAX_PLAIN_SIZE
            ==> chunks[i].content.len() == chunks[j].content.len()
}

/// The length of the bytes of `chunks`.
pub open spec fn body_len(chunks: Seq<ChunkRecord>) -> int {
    body_bytes(chunks).len() as int
}

/// Position of the first chunk in a finalized container in the 64-bit form:
/// behind the opening and the records of `chunks`.
pub open spec fn records_end(chunks: Seq<ChunkRecord>) -> int {
    48 + 12 * (long_records(chunks).len() as int)
}

/// Position of chunk number `j` in the bytes of `chunks`.
pub open spec fn chunk_start(chunks: Seq<ChunkRecord>, j: int) -> int {
    body_bytes(chunks.take(j)).len() as int
}

/// The bytes of the first `m` chunks open the bytes of all of them.
proof fn lemma_body_prefix(chunks: Seq<ChunkRecord>, m: int)
    requires
        0 <= m <= chunks.len(),
    ensures
        chunk_start(chunks, m) <= body_bytes(chunks).len(),
        body_bytes(chunks).subrange(0, chunk_start(chunks, m)) == body_bytes(chunks.take(m)),
    decreases chunks.len() - m,
{
    if m == chunks.len() {
        assert(chunks.take(m) =~= chunks);
        assert(body_bytes(chunks).subrange(0, chunk_start(chunks, m)) =~= body_bytes(chunks));
    } else {
        lemma_body_prefix(chunks, m + 1);
        assert(chunks.take(m + 1).drop_last() =~= chunks.take(m));
        let longer = body_bytes(chunks.take(m + 1));
        assert(longer == body_bytes(chunks.take(m)) + chunk_bytes(chunks[m]));
        assert(body_bytes(chunks).subrange(0, chunk_start(chunks, m)) =~= longer.subrange(
            0,
            chunk_start(chunks, m),
        ));
        assert(longer.subrange(0, chunk_start(chunks, m)) =~= body_bytes(chunks.take(m)));
    }
}

/// Chunk number `j` stands in the bytes of `chunks` at its start, whole.
proof fn lemma_chunk_in_body(chunks: Seq<ChunkRecord>, j: int)
    requires
        0 <= j < chunks.len(),
    ensures
        chunk_start(chunks, j + 1) == chunk_start(chunks, j) + 8 + padded(
            chunks[j].content.len() as int,
        ),
        chunk_start(chunks, j + 1) <= body_bytes(chunks).len(),
        body_bytes(chunks).subrange(chunk_start(chunks, j), chunk_start(chunks, j + 1))
            == chunk_bytes(chunks[j]),
{
    lemma_body_prefix(chunks, j + 1);
    assert(chunks.take(j + 1).drop_last() =~= chunks.take(j));
    let longer = body_bytes(chunks.take(j + 1));
    assert(longer == body_bytes(chunks.take(j)) + chunk_bytes(chunks[j]));
    assert(body_bytes(chunks).subrange(chunk_start(chunks, j), chunk_start(chunks, j + 1))
        =~= longer.subrange(chunk_start(chunks, j), chunk_start(chunks, j + 1)));
    assert(longer.subrange(chunk_start(chunks, j), chunk_start(chunks, j + 1)) =~= chunk_bytes(
        chunks[j],
    ));
}

/// Four bytes that are those of an identifier read as that identifier.
proof fn lemma_fourcc_round_trip(s: Seq<u8>, at: int, ident: FourCC)
    requires
        0 <= at,
        at + 4 <= s.len(),
        s.subrange(at, at + 4) == ident@,
    ensures
        fourcc_at(s, at) == ident,
{
    assert(s[at] == s.subrange(at, at + 4)[0]);
    assert(s[at + 1] == s.subrange(at, at + 4)[1]);
    assert(s[at + 2] == s.subrange(at, at + 4)[2]);
    assert(s[at + 3] == s.subrange(at, at + 4)[3]);
}

/// Where the bytes of a chunk stand in a store, its header reads as the
/// chunk's identifier and size field, and its content follows the header.
proof fn lemma_chunk_read_back(s: Seq<u8>, at: int, chunk: ChunkRecord)
    requires
        0 <= at,
        at + chunk_bytes(chunk).len() <= s.len(),
        s.subrange(at, at + chunk_bytes(chunk).len()) == chunk_bytes(chunk),
    ensures
        chunk_bytes(chunk).len() == 8 + padded(chunk.content.len() as int),
        fourcc_at(s, at) == chunk.ident,
        le_u32(s, at + 4) == declared_length(chunk.content.len() as int),
        s.subrange(at + 8, at + 8 + chunk.content.len()) == chunk.content,
{
    let bytes = chunk_bytes(chunk);
    let whole = s.subrange(at, at + bytes.len());
    let declared = declared_length(chunk.content.len() as int);
    assert(s.subrange(at, at + 4) =~= chunk.ident@) by {
        assert forall|i: int| 0 <= i < 4 implies s.subrange(at, at + 4)[i] == chunk.ident@[i] by {
            assert(whole[i] == bytes[i]);
        }
    }
    lemma_fourcc_round_trip(s, at, chunk.ident);
    assert(s.subrange(at + 4, at + 8) =~= u32_le_bytes(declared)) by {
        assert forall|i: int| 0 <= i < 4 implies s.subrange(at + 4, at + 8)[i] == u32_le_bytes(
            declared,
        )[i] by {
            assert(whole[i + 4] == bytes[i + 4]);
        }
    }
    lemma_u32_round_trip(declared as u32, s, at + 4);
    assert(s.subrange(at + 8, at + 8 + chunk.content.len()) =~= chunk.content) by {
        assert forall|i: int| 0 <= i < chunk.content.len() implies s.subrange(
            at + 8,
            at + 8 + chunk.content.len(),
        )[i] == chunk.content[i] by {
            assert(whole[i + 8] == bytes[i + 8]);
        }
    }
}

/// The entry that stands last for an identifier is what the table says of it.
proof fn lemma_last_entry_stands(entries: Seq<Ds64Entry>, k: int, ident: FourCC, size: u64)
    requires
        0 <= k < entries.len(),
        entries[k].ident == ident,
        forall|j: int| k <= j < entries.len() && entries[j].ident == ident ==> entries[j].size == size,
    ensures
        table_of(entries).contains_key(ident),
        table_of(entries)[ident] == size,
    decreases entries.len(),
{
    if entries.last().ident != ident {
        lemma_last_entry_stands(entries.drop_last(), k, ident, size);
    }
}

/// A chunk longer than a size field can state has its record.
proof fn lemma_record_of_long_chunk(chunks: Seq<ChunkRecord>, i: int) -> (idx: int)
    requires
        0 <= i < chunks.len(),
        chunks[i].content.len() > MAX_PLAIN_SIZE,
    ensures
        0 <= idx < long_records(chunks).len(),
        long_records(chunks)[idx] == (Ds64Entry {
            ident: chunks[i].ident,
            size: chunks[i].content.len() as u64,
        }),
    decreases chunks.len(),
{
    if i == chunks.len() - 1 {
        long_records(chunks).len() - 1
    } else {
        lemma_record_of_long_chunk(chunks.drop_last(), i)
    }
}

/// A record is that of a chunk longer than a size field can state.
proof fn lemma_chunk_of_record(chunks: Seq<ChunkRecord>, idx: int) -> (i: int)
    requires
        0 <= idx < long_records(chunks).len(),
    ensures
        0 <= i < chunks.len(),
        chunks[i].content.len() > MAX_PLAIN_SIZE,
        long_records(chunks)[idx] == (Ds64Entry {
            ident: chunks[i].ident,
            size: chunks[i].content.len() as u64,
        }),
    decreases chunks.len(),
{
    let before = long_records(chunks.drop_last());
    if chunks.last().content.len() > MAX_PLAIN_SIZE && idx == before.len() {
        chunks.len() - 1
    } else {
        lemma_chunk_of_record(chunks.drop_last(), idx)
    }
}

/// The table made of any entries and then the records of `chunks` states
/// the true length of every chunk that needs it.
proof fn lemma_table_resolves(chunks: Seq<ChunkRecord>, base: Seq<Ds64Entry>, i: int)
    requires
        long_chunks_agree(chunks),
        0 <= i < chunks.len(),
        chunks[i].content.len() > MAX_PLAIN_SIZE,
    ensures
        table_of(base + long_records(chunks)).contains_key(chunks[i].ident),
        table_of(base + long_records(chunks))[chunks[i].ident] == chunks[i].content.len() as u64,
{
    let records = long_records(chunks);
    let entries = base + records;
    let idx = lemma_record_of_long_chunk(chunks, i);
    let k = base.len() + idx;
    let size = chunks[i].content.len() as u64;
    assert(entries[k] == records[idx]);
    assert forall|j: int|
        k <= j < entries.len() && entries[j].ident == chunks[i].ident implies entries[j].size
        == size by {
        let other = lemma_chunk_of_record(chunks, j - base.len());
        assert(entries[j] == records[j - base.len()]);
        assert(chunks[other].content.len() == chunks[i].content.len());
    }
    lemma_last_entry_stands(entries, k, chunks[i].ident, size);
}

/// Whether `table` states the true length of every chunk of `chunks` that is
/// longer than a size field can state.
pub open spec fn resolves(table: Map<FourCC, u64>, chunks: Seq<ChunkRecord>) -> bool {
    forall|i: int|
        0 <= i < chunks.len() && (#[trigger] chunks[i]).content.len() > MAX_PLAIN_SIZE
            ==> table.contains_key(chunks[i].ident) && table[chunks[i].ident]
            == chunks[i].content.len()
}

/// What a lookup of `ident` finds among `chunks` from chunk number `j` on,
/// where the bytes of the chunks start at `start`.
pub open spec fn found_from(
    chunks: Seq<ChunkRecord>,
    start: int,
    j: int,
    ident: FourCC,
    occurrence: nat,
) -> Result<(int, int), Error>
    decreases chunks.len() - j,
{
    if j < 0 || j >= chunks.len() {
        Err(Error::ChunkMissing { signature: ident })
    } else if chunks[j].ident == ident {
        if occurrence == 0 {
            Ok((start + chunk_start(chunks, j) + 8, chunks[j].content.len() as int))
        } else {
            found_from(chunks, start, j + 1, ident, (occurrence - 1) as nat)
        }
    } else {
        found_from(chunks, start, j + 1, ident, occurrence)
    }
}

/// Where the bytes of `chunks` stand in a store from `start` on, chunk
/// number `j` stands at its start behind `start`: its header reads as its
/// identifier and its size field, and its content follows.
proof fn lemma_chunk_in_store(s: Seq<u8>, start: int, chunks: Seq<ChunkRecord>, j: int)
    requires
        0 <= start,
        start + body_len(chunks) <= s.len(),
        s.subrange(start, start + body_len(chunks)) == body_bytes(chunks),
        0 <= j < chunks.len(),
    ensures
        0 <= chunk_start(chunks, j),
        chunk_start(chunks, j + 1) == chunk_start(chunks, j) + 8 + padded(
            chunks[j].content.len() as int,
        ),
        chunk_start(chunks, j + 1) <= body_len(chunks),
        fourcc_at(s, start + chunk_start(chunks, j)) == chunks[j].ident,
        le_u32(s, start + chunk_start(chunks, j) + 4) == declared_length(
            chunks[j].content.len() as int,
        ),
        s.subrange(
            start + chunk_start(chunks, j) + 8,
            start + chunk_start(chunks, j) + 8 + chunks[j].content.len(),
        ) == chunks[j].content,
{
    let body = body_bytes(chunks);
    let chunk = chunks[j];
    let from = chunk_start(chunks, j);
    let at = start + from;
    lemma_chunk_in_body(chunks, j);
    let end = chunk_start(chunks, j + 1);
    assert(chunk_bytes(chunk).len() == end - from);
    assert forall|i: int| 0 <= i < chunk_bytes(chunk).len() implies s.subrange(
        at,
        at + chunk_bytes(chunk).len(),
    )[i] == chunk_bytes(chunk)[i] by {
        assert(s.subrange(start, start + body_len(chunks))[from + i] == s[at + i]);
        assert(body.subrange(from, end)[i] == body[from + i]);
    }
    assert(s.subrange(at, at + chunk_bytes(chunk).len()) =~= chunk_bytes(chunk));
    lemma_chunk_read_back(s, at, chunk);
}

/// The walk over the bytes of `chunks` finds what the chunks hold.
proof fn lemma_scan_finds(
    s: Seq<u8>,
    table: Map<FourCC, u64>,
    start: int,
    chunks: Seq<ChunkRecord>,
    j: int,
    ident: FourCC,
    occurrence: nat,
)
    requires
        0 <= start,
        start + body_len(chunks) <= s.len(),
        s.len() <= u64::MAX,
        s.subrange(start, start + body_len(chunks)) == body_bytes(chunks),
        resolves(table, chunks),
        0 <= j <= chunks.len(),
    ensures
        chunk_start(chunks, j) <= body_len(chunks),
        scan(
            s,
            table,
            start + chunk_start(chunks, j),
            body_len(chunks) - chunk_start(chunks, j),
            Target::Chunk(ident),
            occurrence,
        ) == found_from(chunks, start, j, ident, occurrence),
    decreases chunks.len() - j,
{
    lemma_body_prefix(chunks, j);
    if j == chunks.len() {
        assert(chunks.take(j) =~= chunks);
    } else {
        let chunk = chunks[j];
        let at = start + chunk_start(chunks, j);
        lemma_chunk_in_store(s, start, chunks, j);
        let length = chunk.content.len();
        let declared = declared_length(length as int);
        assert(resolved_size(table, chunk.ident, declared as u32) == Ok::<u64, Error>(
            length as u64,
        ));
        let header = ChunkHeader {
            ident: chunk.ident,
            declared_length: declared as u32,
            resolved_length: length as u64,
        };
        assert(header_at(s, table, at) == Ok::<ChunkHeader, Error>(header));
        assert(header.displacement() == padded(length as int));
        if chunk.ident == ident {
            assert(probe(s, at, header, Target::Chunk(ident)) == Ok::<Option<(int, int)>, Error>(
                Some((at + 8, length as int)),
            ));
            if occurrence > 0 {
                lemma_scan_finds(s, table, start, chunks, j + 1, ident, (occurrence - 1) as nat);
            }
        } else {
            assert(probe(s, at, header, Target::Chunk(ident)) == Ok::<Option<(int, int)>, Error>(
                None,
            ));
            lemma_scan_finds(s, table, start, chunks, j + 1, ident, occurrence);
        }
    }
}

/// The count of matches grows with the chunks counted.
proof fn lemma_earlier_matches_grow(chunks: Seq<ChunkRecord>, j: int, k: int, ident: FourCC)
    requires
        0 <= j <= k,
    ensures
        earlier_matches(chunks, j, ident) <= earlier_matches(chunks, k, ident),
    decreases k - j,
{
    if j < k {
        lemma_earlier_matches_grow(chunks, j, k - 1, ident);
    }
}

/// A lookup that starts at chunk number `j` with the matches between `j` and
/// `k` left to pass finds chunk number `k`.
proof fn lemma_found_is_chunk(chunks: Seq<ChunkRecord>, start: int, j: int, k: int)
    requires
        0 <= j <= k < chunks.len(),
    ensures
        earlier_matches(chunks, j, chunks[k].ident) <= earlier_matches(chunks, k, chunks[k].ident),
        found_from(
            chunks,
            start,
            j,
            chunks[k].ident,
            (earlier_matches(chunks, k, chunks[k].ident) - earlier_matches(
                chunks,
                j,
                chunks[k].ident,
            )) as nat,
        ) == Ok::<(int, int), Error>(
            (start + chunk_start(chunks, k) + 8, chunks[k].content.len() as int),
        ),
    decreases k - j,
{
    let ident = chunks[k].ident;
    lemma_earlier_matches_grow(chunks, j, k, ident);
    if j < k {
        lemma_earlier_matches_grow(chunks, j + 1, k, ident);
        lemma_found_is_chunk(chunks, start, j + 1, k);
    }
}

/// Record number `i` of a `ds64` chunk stands twelve bytes behind the one
/// before it.
proof fn lemma_record_in_bytes(records: Seq<Ds64Entry>, i: int)
    requires
        0 <= i < records.len(),
    ensures
        records_bytes(records).len() == 12 * records.len(),
        records_bytes(records).subrange(12 * i, 12 * i + 4) == records[i].ident@,
        records_bytes(records).subrange(12 * i + 4, 12 * i + 12) == u64_le_bytes(
            records[i].size as int,
        ),
    decreases records.len(),
{
    lemma_records_bytes_len(records);
    lemma_records_bytes_len(records.drop_last());
    let all = records_bytes(records);
    let shorter = records_bytes(records.drop_last());
    if i == records.len() - 1 {
        assert(all.subrange(12 * i, 12 * i + 4) =~= records[i].ident@);
        assert(all.subrange(12 * i + 4, 12 * i + 12) =~= u64_le_bytes(records[i].size as int));
    } else {
        lemma_record_in_bytes(records.drop_last(), i);
        assert(all.subrange(12 * i, 12 * i + 4) =~= shorter.subrange(12 * i, 12 * i + 4));
        assert(all.subrange(12 * i + 4, 12 * i + 12) =~= shorter.subrange(12 * i + 4, 12 * i + 12));
    }
}

/// Position of the first chunk in a finalized container.
pub open spec fn body_start(chunks: Seq<ChunkRecord>, promoted: bool) -> int {
    if promoted {
        records_end(chunks)
    } else {
        12
    }
}

/// Whether `found` is the layout of a finalized container of `chunks`: the
/// chunks take the whole budget from the first chunk's position on, and in
/// the 64-bit form the table is made of three entries and then the records
/// of the chunks.
pub open spec fn is_written_layout(
    found: Result<(Seq<Ds64Entry>, int, int), Error>,
    chunks: Seq<ChunkRecord>,
    promoted: bool,
) -> bool {
    &&& found matches Ok((entries, budget, start))
    &&& budget == body_len(chunks)
    &&& start == body_start(chunks, promoted)
    &&& if promoted {
        entries.len() >= 3 && entries.subrange(3, entries.len() as int) == long_records(chunks)
    } else {
        entries.len() == 0
    }
}

/// How a finalized container in the 32-bit form is laid out.
proof fn lemma_layout_32(chunks: Seq<ChunkRecord>)
    requires
        4 + body_bytes(chunks).len() <= MAX_PLAIN_SIZE,
    ensures
        is_written_layout(layout(container_bytes(chunks, false)), chunks, false),
        container_bytes(chunks, false).len() == 12 + body_len(chunks),
        container_bytes(chunks, false).subrange(12, 12 + body_len(chunks)) == body_bytes(chunks),
{
    let body = body_bytes(chunks);
    let form_size = 4 + body_len(chunks);
    let s = container_bytes(chunks, false);
    let head = opening_32(form_size);
    lemma_two_parts(head, body);
    assert(head.subrange(0, 4) =~= FourCC::make(RIFF_SIG)@);
    assert(head.subrange(4, 8) =~= u32_le_bytes(form_size));
    assert(head.subrange(8, 12) =~= FourCC::make(WAVE_SIG)@);
    lemma_range_in_prefix(s, head, 0, 4);
    lemma_range_in_prefix(s, head, 4, 8);
    lemma_range_in_prefix(s, head, 8, 12);
    lemma_fourcc_round_trip(s, 0, FourCC::make(RIFF_SIG));
    lemma_fourcc_round_trip(s, 8, FourCC::make(WAVE_SIG));
    lemma_u32_round_trip(form_size as u32, s, 4);
    assert(detected(s) == Ok::<bool, Error>(false));
    assert(standard_budget(s) == body_len(chunks));
}

/// The parts of the 64-bit opening, each at its position.
proof fn lemma_opening_64_parts(form_size: int, data_size: int, records: Seq<Ds64Entry>)
    ensures
        ({
            let head = opening_64(form_size, data_size, records);
            let count = records.len() as int;
            &&& head.len() == 48 + 12 * count
            &&& head.subrange(0, 4) == FourCC::make(RF64_SIG)@
            &&& head.subrange(4, 8) == u32_le_bytes(SIZE_SENTINEL as int)
            &&& head.subrange(8, 12) == FourCC::make(WAVE_SIG)@
            &&& head.subrange(12, 16) == FourCC::make(DS64_SIG)@
            &&& head.subrange(16, 20) == u32_le_bytes(28 + 12 * count)
            &&& head.subrange(20, 28) == u64_le_bytes(form_size)
            &&& head.subrange(28, 36) == u64_le_bytes(data_size)
            &&& head.subrange(44, 48) == u32_le_bytes(count)
            &&& head.subrange(48, 48 + 12 * count) == records_bytes(records)
        }),
{
    let head = opening_64(form_size, data_size, records);
    let count = records.len() as int;
    lemma_records_bytes_len(records);
    assert(head.len() == 48 + 12 * count);
    assert(head.subrange(0, 4) =~= FourCC::make(RF64_SIG)@);
    assert(head.subrange(4, 8) =~= u32_le_bytes(SIZE_SENTINEL as int));
    assert(head.subrange(8, 12) =~= FourCC::make(WAVE_SIG)@);
    assert(head.subrange(12, 16) =~= FourCC::make(DS64_SIG)@);
    assert(head.subrange(16, 20) =~= u32_le_bytes(28 + 12 * count));
    assert(head.subrange(20, 28) =~= u64_le_bytes(form_size));
    assert(head.subrange(28, 36) =~= u64_le_bytes(data_size));
    assert(head.subrange(44, 48) =~= u32_le_bytes(count));
    assert(head.subrange(48, 48 + 12 * count) =~= records_bytes(records));
}

/// A range of a store that lies in its opening is that range of the opening.
proof fn lemma_range_in_prefix(s: Seq<u8>, head: Seq<u8>, from: int, to: int)
    requires
        head.len() <= s.len(),
        s.subrange(0, head.len() as int) == head,
        0 <= from <= to <= head.len(),
    ensures
        s.subrange(from, to) == head.subrange(from, to),
{
    assert forall|i: int| 0 <= i < to - from implies s.subrange(from, to)[i] == head.subrange(
        from,
        to,
    )[i] by {
        assert(s.subrange(0, head.len() as int)[from + i] == s[from + i]);
    }
    assert(s.subrange(from, to) =~= head.subrange(from, to));
}

/// The records of a 64-bit opening read back as they were written.
proof fn lemma_records_read_back(s: Seq<u8>, records: Seq<Ds64Entry>)
    requires
        48 + 12 * records.len() <= s.len(),
        s.subrange(48, 48 + 12 * (records.len() as int)) == records_bytes(records),
    ensures
        ds64_records(s, 48, records.len()) == records,
{
    let count = records.len() as int;
    assert forall|i: int| 0 <= i < count implies ds64_records(s, 48, records.len())[i]
        == records[i] by {
        lemma_record_in_bytes(records, i);
        let tail = s.subrange(48, 48 + 12 * count);
        assert(s.subrange(48 + 12 * i, 48 + 12 * i + 4) =~= tail.subrange(12 * i, 12 * i + 4));
        assert(s.subrange(48 + 12 * i + 4, 48 + 12 * i + 12) =~= tail.subrange(
            12 * i + 4,
            12 * i + 12,
        ));
        lemma_fourcc_round_trip(s, 48 + 12 * i, records[i].ident);
        lemma_u64_round_trip(records[i].size, s, 48 + 12 * i + 4);
    }
    assert(ds64_records(s, 48, records.len()) =~= records);
}

/// A store that opens with a 64-bit opening reads as a container with
/// 64-bit sizes whose `ds64` chunk states what the opening was made of.
proof fn lemma_opening_64_read_back(
    s: Seq<u8>,
    form_size: u64,
    data_size: u64,
    records: Seq<Ds64Entry>,
)
    requires
        records.len() <= MAX_DS64_RECORDS,
        opening_64(form_size as int, data_size as int, records).len() <= s.len(),
        s.subrange(0, opening_64(form_size as int, data_size as int, records).len() as int)
            == opening_64(form_size as int, data_size as int, records),
    ensures
        detected(s) == Ok::<bool, Error>(true),
        le_u32(s, 16) == 28 + 12 * records.len(),
        le_u64(s, 20) == form_size,
        le_u64(s, 28) == data_size,
        le_u32(s, 44) == records.len(),
        ds64_records(s, 48, records.len()) == records,
        s.len() >= 48 + 12 * records.len(),
{
    let head = opening_64(form_size as int, data_size as int, records);
    let count = records.len() as int;
    lemma_opening_64_parts(form_size as int, data_size as int, records);
    lemma_range_in_prefix(s, head, 0, 4);
    lemma_range_in_prefix(s, head, 4, 8);
    lemma_range_in_prefix(s, head, 8, 12);
    lemma_range_in_prefix(s, head, 12, 16);
    lemma_range_in_prefix(s, head, 16, 20);
    lemma_range_in_prefix(s, head, 20, 28);
    lemma_range_in_prefix(s, head, 28, 36);
    lemma_range_in_prefix(s, head, 44, 48);
    lemma_range_in_prefix(s, head, 48, 48 + 12 * count);
    lemma_fourcc_round_trip(s, 0, FourCC::make(RF64_SIG));
    lemma_fourcc_round_trip(s, 8, FourCC::make(WAVE_SIG));
    lemma_fourcc_round_trip(s, 12, FourCC::make(DS64_SIG));
    lemma_u32_round_trip(SIZE_SENTINEL, s, 4);
    lemma_u32_round_trip((28 + 12 * count) as u32, s, 16);
    lemma_u64_round_trip(form_size, s, 20);
    lemma_u64_round_trip(data_size, s, 28);
    lemma_u32_round_trip(count as u32, s, 44);
    lemma_records_read_back(s, records);
}

/// What the `ds64` chunk of a store says, told from what its fields read.
proof fn lemma_resolved_from_fields(s: Seq<u8>, records: Seq<Ds64Entry>, budget: int)
    requires
        detected(s) == Ok::<bool, Error>(true),
        0 <= budget,
        le_u32(s, 16) == 28 + 12 * records.len(),
        le_u64(s, 20) == 40 + 12 * records.len() + budget,
        le_u32(s, 44) == records.len(),
        ds64_records(s, 48, records.len()) == records,
        s.len() >= 48 + 12 * records.len(),
    ensures
        layout(s) == Ok::<(Seq<Ds64Entry>, int, int), Error>(
            (ds64_entries(s), budget, 48 + 12 * (records.len() as int)),
        ),
        ds64_entries(s).len() >= 3,
        ds64_entries(s).subrange(3, ds64_entries(s).len() as int) == records,
{
    let count = records.len() as int;
    let entries = ds64_entries(s);
    assert(entries.subrange(3, entries.len() as int) =~= records);
    assert(padded(28 + 12 * count) == 28 + 12 * count);
    assert(ds64_form_budget(s) == budget);
    assert(ds64_end(s) == 48 + 12 * count);
    assert(resolved(s, true) == Ok::<(Seq<Ds64Entry>, int, int), Error>(
        (entries, budget, 48 + 12 * count),
    ));
}

/// How a finalized container in the 64-bit form is laid out.
proof fn lemma_layout_64(chunks: Seq<ChunkRecord>)
    requires
        writable(chunks, true),
    ensures
        is_written_layout(layout(container_bytes(chunks, true)), chunks, true),
        container_bytes(chunks, true).len() == records_end(chunks) + body_len(chunks),
        container_bytes(chunks, true).subrange(
            records_end(chunks),
            records_end(chunks) + body_len(chunks),
        ) == body_bytes(chunks),
{
    let body = body_bytes(chunks);
    let records = long_records(chunks);
    let form_size = 4 + 36 + 12 * (records.len() as int) + body_len(chunks);
    let data_size = data_size_of(chunks);
    let s = container_bytes(chunks, true);
    let head = opening_64(form_size, data_size, records);
    lemma_opening_64_len(form_size, data_size, records);
    lemma_data_size_fits(chunks);
    lemma_two_parts(head, body);
    lemma_opening_64_read_back(s, form_size as u64, data_size as u64, records);
    lemma_resolved_from_fields(s, records, body_len(chunks));
}

/// The size of the `data` chunk is the length of a content or zero.
proof fn lemma_data_size_fits(chunks: Seq<ChunkRecord>)
    ensures
        0 <= data_size_of(chunks),
        data_size_of(chunks) <= body_bytes(chunks).len(),
    decreases chunks.len(),
{
    if chunks.len() > 0 {
        lemma_data_size_fits(chunks.drop_last());
    }
}

/// The table of a finalized container states the true length of every
/// chunk that needs it.
proof fn lemma_written_table_resolves(
    chunks: Seq<ChunkRecord>,
    promoted: bool,
    entries: Seq<Ds64Entry>,
)
    requires
        writable(chunks, promoted),
        long_chunks_agree(chunks),
        promoted ==> entries.len() >= 3 && entries.subrange(3, entries.len() as int)
            == long_records(chunks),
    ensures
        resolves(table_of(entries), chunks),
{
    let table = table_of(entries);
    assert forall|i: int|
        0 <= i < chunks.len() && (#[trigger] chunks[i]).content.len()
            > MAX_PLAIN_SIZE implies table.contains_key(chunks[i].ident) && table[chunks[i].ident]
        == chunks[i].content.len() by {
        lemma_chunk_in_body(chunks, i);
        assert(promoted);
        assert(entries =~= entries.subrange(0, 3) + long_records(chunks));
        lemma_table_resolves(chunks, entries.subrange(0, 3), i);
    }
}

/// The layout of the container that a finalized writer holds, and the place
/// of the chunks in it.
proof fn lemma_written_layout(chunks: Seq<ChunkRecord>, promoted: bool)
    requires
        writable(chunks, promoted),
    ensures
        is_written_layout(layout(container_bytes(chunks, promoted)), chunks, promoted),
        container_bytes(chunks, promoted).len() == body_start(chunks, promoted) + body_len(chunks),
        container_bytes(chunks, promoted).subrange(
            body_start(chunks, promoted),
            body_start(chunks, promoted) + body_len(chunks),
        ) == body_bytes(chunks),
{
    if promoted {
        lemma_layout_64(chunks);
    } else {
        lemma_layout_32(chunks);
    }
}

/// Where the reader finds chunk number `k` in a store whose layout has the
/// bytes of `chunks` as its form.
proof fn lemma_located_in(
    s: Seq<u8>,
    entries: Seq<Ds64Entry>,
    start: int,
    chunks: Seq<ChunkRecord>,
    k: int,
)
    requires
        layout(s) == Ok::<(Seq<Ds64Entry>, int, int), Error>((entries, body_len(chunks), start)),
        resolves(table_of(entries), chunks),
        0 <= start,
        s.len() == start + body_len(chunks),
        s.len() <= u64::MAX,
        s.subrange(start, start + body_len(chunks)) == body_bytes(chunks),
        0 <= k < chunks.len(),
    ensures
        located(s, Target::Chunk(chunks[k].ident), earlier_matches(chunks, k, chunks[k].ident))
            == Ok::<(int, int), Error>(
            (start + chunk_start(chunks, k) + 8, chunks[k].content.len() as int),
        ),
{
    let ident = chunks[k].ident;
    let occurrence = earlier_matches(chunks, k, ident);
    lemma_scan_finds(s, table_of(entries), start, chunks, 0, ident, occurrence);
    assert(chunks.take(0) =~= Seq::<ChunkRecord>::empty());
    assert(chunk_start(chunks, 0) == 0);
    lemma_found_is_chunk(chunks, start, 0, k);
}

/// Where the reader finds the chunk appended as number `k`.
proof fn lemma_written_chunk_is_located(chunks: Seq<ChunkRecord>, promoted: bool, k: int)
    requires
        writable(chunks, promoted),
        long_chunks_agree(chunks),
        0 <= k < chunks.len(),
    ensures
        located(
            container_bytes(chunks, promoted),
            Target::Chunk(chunks[k].ident),
            earlier_matches(chunks, k, chunks[k].ident),
        ) == Ok::<(int, int), Error>(
            (
                body_start(chunks, promoted) + chunk_start(chunks, k) + 8,
                chunks[k].content.len() as int,
            ),
        ),
{
    let s = container_bytes(chunks, promoted);
    lemma_written_layout(chunks, promoted);
    let (entries, budget, start) = layout(s)->Ok_0;
    lemma_written_table_resolves(chunks, promoted, entries);
    lemma_located_in(s, entries, start, chunks, k);
}

/// An entry makes its identifier a key of the table.
proof fn lemma_entry_is_key(entries: Seq<Ds64Entry>, k: int)
    requires
        0 <= k < entries.len(),
    ensures
        table_of(entries).contains_key(entries[k].ident),
    decreases entries.len(),
{
    if k < entries.len() - 1 {
        lemma_entry_is_key(entries.drop_last(), k);
    }
}

/// A chunk longer than a size field can state is written to a container in
/// the 64-bit form only, and the `ds64` chunk of the finalized container has
/// an entry for the chunk's identifier.
pub proof fn lemma_long_chunk_is_overridden(chunks: Seq<ChunkRecord>, promoted: bool, i: int)
    requires
        writable(chunks, promoted),
        0 <= i < chunks.len(),
        chunks[i].content.len() > MAX_PLAIN_SIZE,
    ensures
        promoted,
        detected(container_bytes(chunks, promoted)) == Ok::<bool, Error>(true),
        layout(container_bytes(chunks, promoted)) matches Ok((entries, _, _)) && table_of(
            entries,
        ).contains_key(chunks[i].ident),
{
    lemma_chunk_in_body(chunks, i);
    lemma_layout_64(chunks);
    let (entries, budget, start) = layout(container_bytes(chunks, promoted))->Ok_0;
    let idx = lemma_record_of_long_chunk(chunks, i);
    assert(entries[3 + idx] == entries.subrange(3, entries.len() as int)[idx]);
    lemma_entry_is_key(entries, 3 + idx);
}

/// The records that the `ds64` chunk of a writer in `state` carries: those
/// of its chunks once it is finalized, none before.
pub open spec fn emitted_records(state: WriterState) -> Seq<Ds64Entry> {
    if state.closed {
        long_records(state.chunks)
    } else {
        Seq::empty()
    }
}

/// What a writer in the 64-bit form holds reads as a container with 64-bit
/// sizes whose `ds64` chunk states the bytes of the form and the records
/// that the writer has put there.
proof fn lemma_emitted_reads(state: WriterState)
    requires
        state.valid(),
        state.promoted,
    ensures
        detected(state.emitted) == Ok::<bool, Error>(true),
        le_u64(state.emitted, 20) == state.bytes_written_in_form(),
        0 <= state.bytes_written_in_form() <= u64::MAX,
        resolved(state.emitted, true) matches Ok((entries, _, _)) && entries == ds64_entries(
            state.emitted,
        ),
        ds64_entries(state.emitted).len() >= 3,
        ds64_entries(state.emitted).subrange(3, ds64_entries(state.emitted).len() as int)
            == emitted_records(state),
{
    let chunks = state.chunks;
    let body = body_bytes(chunks);
    let records = emitted_records(state);
    let form_size = 4 + 36 + 12 * (records.len() as int) + body_len(chunks);
    let data_size = data_size_of(chunks);
    let head = opening_64(form_size, data_size, records);
    let s = state.emitted;
    lemma_opening_64_len(form_size, data_size, records);
    lemma_data_size_fits(chunks);
    lemma_two_parts(head, body);
    lemma_opening_64_read_back(s, form_size as u64, data_size as u64, records);
    lemma_resolved_from_fields(s, records, body_len(chunks));
}

/// No record that a writer puts into its `ds64` chunk bears a name that no
/// long chunk bears.
proof fn lemma_records_not_named(state: WriterState, name: FourCC)
    requires
        forall|i: int|
            0 <= i < state.chunks.len() && (#[trigger] state.chunks[i]).content.len()
                > MAX_PLAIN_SIZE ==> state.chunks[i].ident != name,
    ensures
        forall|k: int|
            0 <= k < emitted_records(state).len() ==> (#[trigger] emitted_records(state)[k]).ident
                != name,
{
    assert forall|k: int| 0 <= k < emitted_records(state).len() implies (#[trigger] emitted_records(
        state,
    )[k]).ident != name by {
        let i = lemma_chunk_of_record(state.chunks, k);
    }
}

/// The size of the form stands in the table of a store under each 64-bit
/// magic unless a record bears that name, and the length lookup gives it.
proof fn lemma_form_size_is_looked_up(s: Seq<u8>, records: Seq<Ds64Entry>, magic: FourCC)
    requires
        resolved(s, true) matches Ok((entries, _, _)) && entries == ds64_entries(s),
        ds64_entries(s).subrange(3, ds64_entries(s).len() as int) == records,
        magic == FourCC::make(RF64_SIG) || magic == FourCC::make(BW64_SIG),
        forall|k: int| 0 <= k < records.len() ==> (#[trigger] records[k]).ident != magic,
    ensures
        ds64_length(s, magic) == Ok::<u64, Error>(le_u64(s, 20) as u64),
{
    let entries = ds64_entries(s);
    let form_size = le_u64(s, 20) as u64;
    assert forall|j: int| 3 <= j < entries.len() implies entries[j].ident != magic by {
        assert(entries[j] == entries.subrange(3, entries.len() as int)[j - 3]);
    }
    if magic == FourCC::make(RF64_SIG) {
        lemma_last_entry_stands(entries, 0, magic, form_size);
    } else {
        lemma_last_entry_stands(entries, 1, magic, form_size);
    }
}

/// In the 64-bit form the `ds64` chunk states as the size of the form the
/// bytes that the form holds, at every moment of a writer: after promotion,
/// after each chunk, and when finalized. The reader's length lookup gives
/// that size under the name of either 64-bit magic, unless a chunk longer
/// than a size field can state bears that name, whose record then stands in
/// the finalized container.
pub proof fn lemma_form_size_covers_written(state: WriterState, magic: FourCC)
    requires
        state.valid(),
        state.promoted,
        magic == FourCC::make(RF64_SIG) || magic == FourCC::make(BW64_SIG),
    ensures
        detected(state.emitted) == Ok::<bool, Error>(true),
        le_u64(state.emitted, 20) == state.bytes_written_in_form(),
        (forall|i: int|
            0 <= i < state.chunks.len() && (#[trigger] state.chunks[i]).content.len()
                > MAX_PLAIN_SIZE ==> state.chunks[i].ident != magic) ==> ds64_length(
            state.emitted,
            magic,
        ) == Ok::<u64, Error>(state.bytes_written_in_form() as u64),
{
    lemma_emitted_reads(state);
    if forall|i: int|
        0 <= i < state.chunks.len() && (#[trigger] state.chunks[i]).content.len() > MAX_PLAIN_SIZE
            ==> state.chunks[i].ident != magic {
        lemma_records_not_named(state, magic);
        lemma_form_size_is_looked_up(state.emitted, emitted_records(state), magic);
    }
}

/// A finalized container states the bytes that its form holds: in the
/// 32-bit form in its length field, in the 64-bit form in its `ds64` chunk.
pub proof fn lemma_final_form_size(chunks: Seq<ChunkRecord>, promoted: bool)
    requires
        writable(chunks, promoted),
    ensures
        detected(container_bytes(chunks, promoted)) == Ok::<bool, Error>(promoted),
        promoted ==> le_u64(container_bytes(chunks, promoted), 20) == container_bytes(
            chunks,
            promoted,
        ).len() - 8,
        !promoted ==> le_u32(container_bytes(chunks, promoted), 4) == container_bytes(
            chunks,
            promoted,
        ).len() - 8,
{
    let body = body_bytes(chunks);
    if promoted {
        let records = long_records(chunks);
        let form_size = 4 + 36 + 12 * (records.len() as int) + body_len(chunks);
        let data_size = data_size_of(chunks);
        let head = opening_64(form_size, data_size, records);
        lemma_opening_64_len(form_size, data_size, records);
        lemma_data_size_fits(chunks);
        lemma_two_parts(head, body);
        lemma_opening_64_read_back(head + body, form_size as u64, data_size as u64, records);
    } else {
        lemma_layout_32(chunks);
        let form_size = 4 + body_len(chunks);
        let head = opening_32(form_size);
        lemma_two_parts(head, body);
        assert(head.subrange(4, 8) =~= u32_le_bytes(form_size));
        lemma_range_in_prefix(head + body, head, 4, 8);
        lemma_u32_round_trip(form_size as u32, head + body, 4);
    }
}

/// Writing chunks and reading them back gives what was written: in the
/// container that a finalized writer holds for `chunks`, the chunk appended
/// as number `k` is found under its identifier at the occurrence that counts
/// the chunks of that identifier before it, and its content is, byte for
/// byte, the content that was appended.
pub proof fn lemma_round_trip(chunks: Seq<ChunkRecord>, promoted: bool, k: int)
    requires
        writable(chunks, promoted),
        long_chunks_agree(chunks),
        0 <= k < chunks.len(),
    ensures
        content(
            container_bytes(chunks, promoted),
            Target::Chunk(chunks[k].ident),
            earlier_matches(chunks, k, chunks[k].ident),
        ) == Ok::<Seq<u8>, Error>(chunks[k].content),
{
    let s = container_bytes(chunks, promoted);
    lemma_written_layout(chunks, promoted);
    lemma_written_chunk_is_located(chunks, promoted, k);
    lemma_chunk_in_store(s, body_start(chunks, promoted), chunks, k);
}

} // verus!
