//! The `ds64` chunk: the 64-bit sizes of a container whose 32-bit size fields
//! have overflowed.
//!
//! A container with 64-bit sizes opens with twelve bytes and continues with a
//! `ds64` chunk:
//!
//! | position | bytes | field                                   |
//! |----------|-------|-----------------------------------------|
//! | 12       | 4     | `ds64`                                  |
//! | 16       | 4     | length of the chunk                     |
//! | 20       | 8     | size of the form                        |
//! | 28       | 8     | size of the `data` chunk                |
//! | 36       | 8     | count of sample frames (not used here)  |
//! | 44       | 4     | number of records that follow           |
//! | 48       | 12 each | identifier and size, one per record   |

use vstd::prelude::*;

use crate::endian::{le_u32, le_u64, read_u32_at, read_u64_at};
use crate::errors::Error;
use crate::fourcc::{fourcc_at, read_fourcc_at, FourCC, BW64_SIG, DATA_SIG, DS64_SIG, RF64_SIG};

verus! {

/// The value of a size field that defers to the `ds64` table.
pub const SIZE_SENTINEL: u32 = 0xFFFF_FFFF;

/// The largest size that a 32-bit size field states by itself.
pub const MAX_PLAIN_SIZE: u64 = 0xFFFF_FFFE;

/// Position of the `ds64` chunk: right behind the twelve opening bytes.
pub const DS64_START: u64 = 12;

/// Position of the first record of the `ds64` chunk.
pub const DS64_RECORDS_START: u64 = 48;

/// One size that the table states: `size` bytes for the chunk named `ident`.
#[derive(Clone, Copy, Debug, PartialEq, Eq, Structural)]
pub struct Ds64Entry {
    pub ident: FourCC,
    pub size: u64,
}

/// The mapping built by inserting `entries` in order: of two entries for one
/// identifier the later one stands.
pub open spec fn table_of(entries: Seq<Ds64Entry>) -> Map<FourCC, u64>
    decreases entries.len(),
{
    if entries.len() == 0 {
        Map::empty()
    } else {
        table_of(entries.drop_last()).insert(entries.last().ident, entries.last().size)
    }
}

/// Entries behind the last entry for `ident` do not change what the table
/// says of `ident`.
pub proof fn lemma_table_of_prefix(entries: Seq<Ds64Entry>, k: int, ident: FourCC)
    requires
        0 <= k <= entries.len(),
        forall|j: int| k <= j < entries.len() ==> entries[j].ident != ident,
    ensures
        table_of(entries).contains_key(ident) == table_of(entries.take(k)).contains_key(ident),
        table_of(entries).contains_key(ident) ==> table_of(entries)[ident] == table_of(
            entries.take(k),
        )[ident],
    decreases entries.len(),
{
    if k == entries.len() {
        assert(entries.take(k) =~= entries);
    } else {
        let shorter = entries.drop_last();
        assert(shorter.take(k) =~= entries.take(k));
        lemma_table_of_prefix(shorter, k, ident);
    }
}

/// The override table of a container: a mapping from chunk identifiers to
/// 64-bit sizes, kept as the list of insertions that made it.
#[derive(Debug)]
pub struct Ds64Table {
    pub entries: Vec<Ds64Entry>,
}

impl View for Ds64Table {
    type V = Map<FourCC, u64>;

    open spec fn view(&self) -> Map<FourCC, u64> {
        table_of(self.entries@)
    }
}

impl Ds64Table {
    /// The table without entries.
    pub fn new() -> (table: Ds64Table)
        ensures
            table@ == Map::<FourCC, u64>::empty(),
            table.entries@.len() == 0,
    {
        Ds64Table { entries: Vec::new() }
    }

    /// States `size` for `ident`, in place of what the table said of it before.
    pub fn insert(&mut self, ident: FourCC, size: u64)
        ensures
            final(self)@ == old(self)@.insert(ident, size),
            final(self).entries@ == old(self).entries@.push(Ds64Entry { ident, size }),
    {
        self.entries.push(Ds64Entry { ident, size });
        assert(self.entries@.drop_last() =~= old(self).entries@);
    }

    /// The size that the table states for `ident`, if any.
    pub fn get(&self, ident: FourCC) -> (found: Option<u64>)
        ensures
            found is Some <==> self@.contains_key(ident),
            found matches Some(size) ==> self@[ident] == size,
    {
        let mut k: usize = self.entries.len();
        while k > 0
            invariant
                k <= self.entries@.len(),
                forall|j: int| k <= j < self.entries@.len() ==> self.entries@[j].ident != ident,
            decreases k,
        {
            k = k - 1;
            let entry = self.entries[k];
            if entry.ident == ident {
                proof {
                    lemma_table_of_prefix(self.entries@, k + 1, ident);
                    assert(self.entries@.take(k + 1).drop_last() =~= self.entries@.take(k as int));
                }
                return Some(entry.size);
            }
        }
        proof {
            lemma_table_of_prefix(self.entries@, 0, ident);
        }
        None
    }
}

/// What the size field `declared` of the chunk `ident` stands for: itself, or,
/// where it is the sentinel, the size that `table` states for `ident`. Without
/// such an entry the size cannot be told.
pub open spec fn resolved_size(table: Map<FourCC, u64>, ident: FourCC, declared: u32) -> Result<
    u64,
    Error,
> {
    if declared != SIZE_SENTINEL {
        Ok(declared as u64)
    } else if table.contains_key(ident) {
        Ok(table[ident])
    } else {
        Err(Error::MissingDS64Length(ident))
    }
}

/// The true size of the chunk `ident` whose size field reads `declared`.
pub fn resolve_size(table: &Ds64Table, ident: FourCC, declared: u32) -> (r: Result<u64, Error>)
    ensures
        r == resolved_size(table@, ident, declared),
{
    if declared != SIZE_SENTINEL {
        Ok(declared as u64)
    } else {
        match table.get(ident) {
            Some(size) => Ok(size),
            None => Err(Error::MissingDS64Length(ident)),
        }
    }
}

/// A length and the pad byte that follows an odd one.
pub open spec fn padded(length: int) -> int {
    length + length % 2
}

/// The `count` records of a `ds64` chunk that start at `at`.
pub open spec fn ds64_records(s: Seq<u8>, at: int, count: nat) -> Seq<Ds64Entry> {
    Seq::new(
        count,
        |i: int|
            Ds64Entry { ident: fourcc_at(s, at + 12 * i), size: le_u64(s, at + 12 * i + 4) as u64 },
    )
}

/// The insertions that the `ds64` chunk of `s` makes: the size of the form
/// under both 64-bit openings, the size of `data`, then its records in order.
pub open spec fn ds64_entries(s: Seq<u8>) -> Seq<Ds64Entry> {
    let form_size = le_u64(s, 20) as u64;
    let data_size = le_u64(s, 28) as u64;
    seq![
        Ds64Entry { ident: FourCC::make(RF64_SIG), size: form_size },
        Ds64Entry { ident: FourCC::make(BW64_SIG), size: form_size },
        Ds64Entry { ident: FourCC::make(DATA_SIG), size: data_size },
    ] + ds64_records(s, DS64_RECORDS_START as int, le_u32(s, 44) as nat)
}

/// The bytes of the form that follow the `ds64` chunk of `s`: the size of the
/// form less the form's tag and the whole `ds64` chunk, and nothing where the
/// form is stated smaller than that.
pub open spec fn ds64_form_budget(s: Seq<u8>) -> int {
    let rest = le_u64(s, 20) - (4 + 8 + padded(le_u32(s, 16)));
    if rest < 0 {
        0
    } else {
        rest
    }
}

/// Position of the first chunk behind the `ds64` chunk of `s`.
pub open spec fn ds64_end(s: Seq<u8>) -> int {
    20 + padded(le_u32(s, 16))
}

/// What a container's `ds64` chunk says.
#[derive(Debug)]
pub struct Ds64 {
    /// The sizes that override 32-bit size fields.
    pub table: Ds64Table,
    /// The bytes of the form that follow the `ds64` chunk.
    pub form_budget: u64,
    /// Position of the first chunk behind the `ds64` chunk.
    pub body_start: u64,
}

/// Outcome of reading the `ds64` chunk of `s`.
///
/// A container with 32-bit sizes has none: it has an empty table, and its
/// chunks start right behind the opening. Of a container with 64-bit sizes the
/// chunk behind the opening must be `ds64`, and the store must hold all the
/// records that it announces.
pub open spec fn resolved(s: Seq<u8>, is_64bit_container: bool) -> Result<
    (Seq<Ds64Entry>, int, int),
    Error,
> {
    if !is_64bit_container {
        Ok((Seq::empty(), 0, DS64_START as int))
    } else if s.len() < 16 {
        Err(Error::UnexpectedEof)
    } else if fourcc_at(s, DS64_START as int) != FourCC::make(DS64_SIG) {
        Err(Error::MissingRequiredDS64)
    } else if s.len() < 48 || s.len() < 48 + 12 * le_u32(s, 44) {
        Err(Error::UnexpectedEof)
    } else {
        Ok((ds64_entries(s), ds64_form_budget(s), ds64_end(s)))
    }
}

/// Whether `r` is the outcome `expected`.
pub open spec fn is_resolved(r: Result<Ds64, Error>, expected: Result<(Seq<Ds64Entry>, int, int), Error>) -> bool {
    match (r, expected) {
        (Ok(ds64), Ok((entries, budget, start))) => {
            &&& ds64.table.entries@ =~= entries
            &&& ds64.form_budget as int == budget
            &&& ds64.body_start as int == start
        },
        (Err(e), Err(expected_e)) => e == expected_e,
        _ => false,
    }
}

/// Reads the `ds64` chunk of a container into its override table, together
/// with the budget and the position of the chunks that follow it.
pub fn resolve(bytes: &[u8], is_64bit_container: bool) -> (r: Result<Ds64, Error>)
    ensures
        is_resolved(r, resolved(bytes@, is_64bit_container)),
{
    let mut table = Ds64Table::new();
    if !is_64bit_container {
        return Ok(Ds64 { table, form_budget: 0, body_start: DS64_START });
    }
    let ident = match read_fourcc_at(bytes, DS64_START) {
        Ok(ident) => ident,
        Err(e) => { return Err(e); },
    };
    if ident != FourCC::make(DS64_SIG) {
        return Err(Error::MissingRequiredDS64);
    }
    let chunk_length = match read_u32_at(bytes, 16) {
        Ok(v) => v,
        Err(e) => { return Err(e); },
    };
    let form_size = match read_u64_at(bytes, 20) {
        Ok(v) => v,
        Err(e) => { return Err(e); },
    };
    let data_size = match read_u64_at(bytes, 28) {
        Ok(v) => v,
        Err(e) => { return Err(e); },
    };
    let count = match read_u32_at(bytes, 44) {
        Ok(v) => v,
        Err(e) => { return Err(e); },
    };
    let len: u64 = bytes.len() as u64;
    if (len - DS64_RECORDS_START) / 12 < count as u64 {
        return Err(Error::UnexpectedEof);
    }
    table.insert(FourCC::make(RF64_SIG), form_size);
    table.insert(FourCC::make(BW64_SIG), form_size);
    table.insert(FourCC::make(DATA_SIG), data_size);
    let ghost head = table.entries@;
    let mut i: u32 = 0;
    while i < count
        invariant
            i <= count,
            len == bytes@.len(),
            48 + 12 * (count as int) <= len,
            table.entries@ == head + ds64_records(bytes@, DS64_RECORDS_START as int, i as nat),
        decreases count - i,
    {
        let at: u64 = DS64_RECORDS_START + 12 * (i as u64);
        let record_ident = match read_fourcc_at(bytes, at) {
            Ok(v) => v,
            Err(e) => { return Err(e); },
        };
        let record_size = match read_u64_at(bytes, at + 4) {
            Ok(v) => v,
            Err(e) => { return Err(e); },
        };
        table.insert(record_ident, record_size);
        i = i + 1;
        assert(table.entries@ =~= head + ds64_records(
            bytes@,
            DS64_RECORDS_START as int,
            i as nat,
        ));
    }
    let padded_length: u64 = chunk_length as u64 + (chunk_length % 2) as u64;
    let form_budget = form_size.saturating_sub(12 + padded_length);
    assert(head + ds64_records(bytes@, DS64_RECORDS_START as int, count as nat) =~= ds64_entries(
        bytes@,
    ));
    Ok(Ds64 { table, form_budget, body_start: 20 + padded_length })
}

} // verus!
