//! Finding a chunk in a form.
//!
//! A form is a run of chunks, one behind the other. Each chunk is an
//! identifier of four bytes, a size field of four bytes, its content, and one
//! pad byte where the content has an odd length. A lookup walks the run from
//! its start and counts the chunks that match; it keeps no index, so two
//! lookups on the same bytes always agree.

use vstd::prelude::*;

use crate::ds64::{padded, resolve_size, resolved_size, Ds64Table};
use crate::endian::{in_store, le_u32, read_u32_at};
use crate::errors::Error;
use crate::fourcc::{fourcc_at, read_fourcc_at, FourCC, LIST_SIG};

verus! {

/// The header of a chunk, with the size field as read and as resolved.
#[derive(Clone, Copy, Debug, PartialEq, Eq, Structural)]
pub struct ChunkHeader {
    /// The chunk's identifier.
    pub ident: FourCC,
    /// The size field as it stands in the store.
    pub declared_length: u32,
    /// The length of the content: without the header and without the pad byte.
    pub resolved_length: u64,
}

impl ChunkHeader {
    /// The bytes from the end of the header to the next chunk: the content
    /// and its pad byte.
    pub open spec fn displacement(&self) -> int {
        padded(self.resolved_length as int)
    }
}

/// What a lookup asks for.
#[derive(Clone, Copy, Debug, PartialEq, Eq, Structural)]
pub enum Target {
    /// The chunks with this identifier.
    Chunk(FourCC),
    /// The `LIST` chunks whose content opens with this sub-form tag.
    ListForm(FourCC),
}

impl Target {
    /// The identifier that a failed lookup reports as missing.
    pub open spec fn signature(&self) -> FourCC {
        match *self {
            Target::Chunk(ident) => ident,
            Target::ListForm(sub_form) => sub_form,
        }
    }
}

/// The header of the chunk at `at`, with its size resolved against `table`.
pub open spec fn header_at(s: Seq<u8>, table: Map<FourCC, u64>, at: int) -> Result<
    ChunkHeader,
    Error,
> {
    if !in_store(s.len(), at, 8) {
        Err(Error::UnexpectedEof)
    } else {
        let ident = fourcc_at(s, at);
        let declared_length = le_u32(s, at + 4) as u32;
        match resolved_size(table, ident, declared_length) {
            Ok(resolved_length) => Ok(ChunkHeader { ident, declared_length, resolved_length }),
            Err(e) => Err(e),
        }
    }
}

/// Reads the header of the chunk at `at` and resolves its size.
pub fn read_header_at(bytes: &[u8], table: &Ds64Table, at: u64) -> (r: Result<ChunkHeader, Error>)
    ensures
        r == header_at(bytes@, table@, at as int),
{
    let len: u64 = bytes.len() as u64;
    if at > len || len - at < 8 {
        return Err(Error::UnexpectedEof);
    }
    let ident = match read_fourcc_at(bytes, at) {
        Ok(v) => v,
        Err(e) => { return Err(e); },
    };
    let declared_length = match read_u32_at(bytes, at + 4) {
        Ok(v) => v,
        Err(e) => { return Err(e); },
    };
    match resolve_size(table, ident, declared_length) {
        Ok(resolved_length) => Ok(ChunkHeader { ident, declared_length, resolved_length }),
        Err(e) => Err(e),
    }
}

/// Whether the chunk at `at`, whose header is `header`, is one that `target`
/// asks for, and if so the range of bytes that the lookup gives for it:
/// position and length.
///
/// For a chunk identifier that range is the chunk's content. For a sub-form
/// it is what follows the sub-form tag, so that the length leaves the tag's
/// four bytes out; a `LIST` chunk too short to hold a tag matches nothing,
/// and one whose tag lies behind the end of the store cannot be judged.
pub open spec fn probe(s: Seq<u8>, at: int, header: ChunkHeader, target: Target) -> Result<
    Option<(int, int)>,
    Error,
> {
    match target {
        Target::Chunk(ident) => {
            if header.ident == ident {
                Ok(Some((at + 8, header.resolved_length as int)))
            } else {
                Ok(None)
            }
        },
        Target::ListForm(sub_form) => {
            if header.ident != FourCC::make(LIST_SIG) || header.resolved_length < 4 {
                Ok(None)
            } else if !in_store(s.len(), at + 8, 4) {
                Err(Error::UnexpectedEof)
            } else if fourcc_at(s, at + 8) == sub_form {
                Ok(Some((at + 12, header.resolved_length - 4)))
            } else {
                Ok(None)
            }
        },
    }
}

/// A range of bytes as the executable code holds it, read as two integers.
pub open spec fn range_of(found: Option<(u64, u64)>) -> Option<(int, int)> {
    match found {
        Some((offset, length)) => Some((offset as int, length as int)),
        None => None,
    }
}

/// Tells whether the chunk at `at` matches `target`.
fn probe_chunk(bytes: &[u8], at: u64, header: &ChunkHeader, target: Target) -> (r: Result<
    Option<(u64, u64)>,
    Error,
>)
    requires
        in_store(bytes@.len(), at as int, 8),
    ensures
        match r {
            Ok(found) => probe(bytes@, at as int, *header, target) == Ok::<
                Option<(int, int)>,
                Error,
            >(range_of(found)),
            Err(e) => probe(bytes@, at as int, *header, target) == Err::<
                Option<(int, int)>,
                Error,
            >(e),
        },
{
    let len: usize = bytes.len();
    match target {
        Target::Chunk(ident) => {
            if header.ident == ident {
                Ok(Some((at + 8, header.resolved_length)))
            } else {
                Ok(None)
            }
        },
        Target::ListForm(sub_form) => {
            if header.ident != FourCC::make(LIST_SIG) || header.resolved_length < 4 {
                Ok(None)
            } else {
                match read_fourcc_at(bytes, at + 8) {
                    Err(e) => Err(e),
                    Ok(tag) => {
                        if tag == sub_form {
                            Ok(Some((at + 12, header.resolved_length - 4)))
                        } else {
                            Ok(None)
                        }
                    },
                }
            }
        },
    }
}

/// The lookup itself: the range of the chunk that is the match number
/// `occurrence`, counted from zero, among the chunks that start at `at` and
/// lie within `budget` bytes.
///
/// The walk reads a header, and stops with its range if the chunk is the one
/// asked for. Otherwise it steps over the header, the content and the pad
/// byte, and takes as many bytes off the budget. It ends with `ChunkMissing`
/// once fewer than eight bytes of budget are left, and with the error of the
/// first header that cannot be read or whose size cannot be resolved.
pub open spec fn scan(
    s: Seq<u8>,
    table: Map<FourCC, u64>,
    at: int,
    budget: int,
    target: Target,
    occurrence: nat,
) -> Result<(int, int), Error>
    decreases (if budget < 8 { 0 } else { budget }),
{
    if budget < 8 {
        Err(Error::ChunkMissing { signature: target.signature() })
    } else {
        match header_at(s, table, at) {
            Err(e) => Err(e),
            Ok(header) => {
                let next = at + 8 + header.displacement();
                let rest = budget - (8 + header.displacement());
                match probe(s, at, header, target) {
                    Err(e) => Err(e),
                    Ok(Some(range)) => {
                        if occurrence == 0 {
                            Ok(range)
                        } else {
                            scan(s, table, next, rest, target, (occurrence - 1) as nat)
                        }
                    },
                    Ok(None) => scan(s, table, next, rest, target, occurrence),
                }
            },
        }
    }
}

/// The outcome of a lookup as the executable code holds it, read as integers.
pub open spec fn outcome_of(r: Result<(u64, u64), Error>) -> Result<(int, int), Error> {
    match r {
        Ok((offset, length)) => Ok((offset as int, length as int)),
        Err(e) => Err(e),
    }
}

/// Walks the chunks from `form_start` within `form_byte_budget` bytes and
/// gives the range of the match number `occurrence` of `target`.
pub fn locate_target(
    bytes: &[u8],
    form_start: u64,
    form_byte_budget: u64,
    overrides: &Ds64Table,
    target: Target,
    occurrence: u32,
) -> (r: Result<(u64, u64), Error>)
    ensures
        outcome_of(r) == scan(
            bytes@,
            overrides@,
            form_start as int,
            form_byte_budget as int,
            target,
            occurrence as nat,
        ),
{
    let ghost goal = scan(
        bytes@,
        overrides@,
        form_start as int,
        form_byte_budget as int,
        target,
        occurrence as nat,
    );
    let missing = match target {
        Target::Chunk(ident) => Error::ChunkMissing { signature: ident },
        Target::ListForm(sub_form) => Error::ChunkMissing { signature: sub_form },
    };
    let len: usize = bytes.len();
    let mut at: u64 = form_start;
    let mut remain: u64 = form_byte_budget;
    let mut seen: u32 = 0;
    // Where the walk stands, even behind the last position that 64 bits can hold.
    let ghost mut true_at: int = form_start as int;
    while remain >= 8
        invariant
            seen <= occurrence,
            len == bytes@.len(),
            missing == (Error::ChunkMissing { signature: target.signature() }),
            at as int == true_at || (at == u64::MAX && true_at > u64::MAX),
            goal == scan(
                bytes@,
                overrides@,
                form_start as int,
                form_byte_budget as int,
                target,
                occurrence as nat,
            ),
            goal == scan(bytes@, overrides@, true_at, remain as int, target, (occurrence - seen) as nat),
        decreases remain,
    {
        let header = match read_header_at(bytes, overrides, at) {
            Ok(header) => header,
            Err(e) => { return Err(e); },
        };
        match probe_chunk(bytes, at, &header, target) {
            Err(e) => { return Err(e); },
            Ok(Some(range)) => {
                if seen == occurrence {
                    return Ok(range);
                }
                seen = seen + 1;
            },
            Ok(None) => {},
        }
        let room: u64 = remain - 8;
        let pad: u64 = header.resolved_length % 2;
        if header.resolved_length > room || room - header.resolved_length < pad {
            // The chunk reaches behind the budget: nothing is left to walk.
            assert(scan(
                bytes@,
                overrides@,
                true_at + 8 + header.displacement(),
                remain - (8 + header.displacement()),
                target,
                (occurrence - seen) as nat,
            ) == Err::<(int, int), Error>(missing));
            return Err(missing);
        }
        let displacement: u64 = header.resolved_length + pad;
        remain = room - displacement;
        proof {
            true_at = true_at + 8 + displacement;
        }
        at = (at + 8).saturating_add(displacement);
    }
    Err(missing)
}

/// The content of the chunk `target` number `occurrence`, counted from zero
/// among the chunks of that identifier: its position, right behind the
/// chunk's header, and its true length.
pub fn locate(
    bytes: &[u8],
    form_start: u64,
    form_byte_budget: u64,
    overrides: &Ds64Table,
    target: FourCC,
    occurrence: u32,
) -> (r: Result<(u64, u64), Error>)
    ensures
        outcome_of(r) == scan(
            bytes@,
            overrides@,
            form_start as int,
            form_byte_budget as int,
            Target::Chunk(target),
            occurrence as nat,
        ),
{
    locate_target(bytes, form_start, form_byte_budget, overrides, Target::Chunk(target), occurrence)
}

/// The `LIST` chunk number `occurrence`, counted from zero among the `LIST`
/// chunks whose content opens with the tag `sub_form_identifier`: the
/// position right behind that tag, and the content's length without it.
pub fn locate_list(
    bytes: &[u8],
    form_start: u64,
    form_byte_budget: u64,
    overrides: &Ds64Table,
    sub_form_identifier: FourCC,
    occurrence: u32,
) -> (r: Result<(u64, u64), Error>)
    ensures
        outcome_of(r) == scan(
            bytes@,
            overrides@,
            form_start as int,
            form_byte_budget as int,
            Target::ListForm(sub_form_identifier),
            occurrence as nat,
        ),
{
    locate_target(
        bytes,
        form_start,
        form_byte_budget,
        overrides,
        Target::ListForm(sub_form_identifier),
        occurrence,
    )
}

/// A chunk that the walk meets: where its header stands, and the header.
pub struct Visit {
    pub at: int,
    pub header: ChunkHeader,
}

/// Whether the chunks from `at` on fill `budget` bytes in order: every
/// header can be read and its size resolved, no chunk reaches behind the
/// budget, every content lies in the store, and what is left of the budget
/// behind the last chunk is too short for a header.
pub open spec fn well_formed(s: Seq<u8>, table: Map<FourCC, u64>, at: int, budget: int) -> bool
    decreases (if budget < 8 { 0 } else { budget }),
{
    if budget < 8 {
        0 <= budget
    } else {
        match header_at(s, table, at) {
            Err(_) => false,
            Ok(header) => {
                &&& 8 + header.displacement() <= budget
                &&& at + 8 + header.resolved_length <= s.len()
                &&& well_formed(
                    s,
                    table,
                    at + 8 + header.displacement(),
                    budget - (8 + header.displacement()),
                )
            },
        }
    }
}

/// The chunks that the walk from `at` meets within `budget` bytes, in order.
pub open spec fn walk(s: Seq<u8>, table: Map<FourCC, u64>, at: int, budget: int) -> Seq<Visit>
    decreases (if budget < 8 { 0 } else { budget }),
{
    if budget < 8 {
        Seq::empty()
    } else {
        match header_at(s, table, at) {
            Err(_) => Seq::empty(),
            Ok(header) => seq![Visit { at, header }] + walk(
                s,
                table,
                at + 8 + header.displacement(),
                budget - (8 + header.displacement()),
            ),
        }
    }
}

/// The bytes that the chunks of `run` take: for each its header, its
/// content and its pad byte.
pub open spec fn span(run: Seq<Visit>) -> int
    decreases run.len(),
{
    if run.len() == 0 {
        0
    } else {
        span(run.drop_last()) + 8 + run.last().header.displacement()
    }
}

/// A run with one more chunk in front takes that chunk's bytes more.
proof fn lemma_span_prepend(first: Visit, rest: Seq<Visit>)
    ensures
        span(seq![first] + rest) == 8 + first.header.displacement() + span(rest),
    decreases rest.len(),
{
    let run = seq![first] + rest;
    if rest.len() == 0 {
        assert(run.drop_last() =~= Seq::<Visit>::empty());
        assert(span(run.drop_last()) == 0);
        assert(run.last() == first);
    } else {
        assert(run.drop_last() =~= seq![first] + rest.drop_last());
        assert(run.last() == rest.last());
        lemma_span_prepend(first, rest.drop_last());
    }
}

/// In a well-formed form the chunks stand one behind the other from the
/// form's start, and together they take the whole budget but for fewer than
/// eight bytes: chunk number `k` of the walk stands at the start plus the
/// bytes that the chunks before it take.
pub proof fn lemma_walk_exhausts_budget(s: Seq<u8>, table: Map<FourCC, u64>, at: int, budget: int)
    requires
        well_formed(s, table, at, budget),
    ensures
        span(walk(s, table, at, budget)) <= budget < span(walk(s, table, at, budget)) + 8,
        forall|k: int|
            0 <= k < walk(s, table, at, budget).len() ==> (#[trigger] walk(s, table, at, budget)[k]).at
                == at + span(walk(s, table, at, budget).take(k)),
    decreases (if budget < 8 { 0 } else { budget }),
{
    let run = walk(s, table, at, budget);
    if budget >= 8 {
        let header = header_at(s, table, at)->Ok_0;
        let first = Visit { at, header };
        let next = at + 8 + header.displacement();
        let rest = walk(s, table, next, budget - (8 + header.displacement()));
        lemma_walk_exhausts_budget(s, table, next, budget - (8 + header.displacement()));
        lemma_span_prepend(first, rest);
        assert forall|k: int| 0 <= k < run.len() implies (#[trigger] run[k]).at == at + span(
            run.take(k),
        ) by {
            if k == 0 {
                assert(run.take(0) =~= Seq::<Visit>::empty());
            } else {
                assert(run[k] == rest[k - 1]);
                assert(run.take(k) =~= seq![first] + rest.take(k - 1));
                lemma_span_prepend(first, rest.take(k - 1));
            }
        }
    }
}

/// In a well-formed form a lookup by identifier that succeeds gives a chunk
/// of the walk: the content of a chunk with that identifier, which starts
/// eight bytes behind the chunk's place in the walk. The result is the
/// number of that chunk in the walk.
pub proof fn lemma_located_is_walked(
    s: Seq<u8>,
    table: Map<FourCC, u64>,
    at: int,
    budget: int,
    ident: FourCC,
    occurrence: nat,
) -> (k: int)
    requires
        well_formed(s, table, at, budget),
        scan(s, table, at, budget, Target::Chunk(ident), occurrence) is Ok,
    ensures
        0 <= k < walk(s, table, at, budget).len(),
        walk(s, table, at, budget)[k].header.ident == ident,
        scan(s, table, at, budget, Target::Chunk(ident), occurrence) == Ok::<(int, int), Error>(
            (
                walk(s, table, at, budget)[k].at + 8,
                walk(s, table, at, budget)[k].header.resolved_length as int,
            ),
        ),
    decreases (if budget < 8 { 0 } else { budget }),
{
    let header = header_at(s, table, at)->Ok_0;
    let next = at + 8 + header.displacement();
    let rest = budget - (8 + header.displacement());
    if header.ident == ident && occurrence == 0 {
        0
    } else if header.ident == ident {
        lemma_located_is_walked(s, table, next, rest, ident, (occurrence - 1) as nat) + 1
    } else {
        lemma_located_is_walked(s, table, next, rest, ident, occurrence) + 1
    }
}

/// A chunk whose size field holds the sentinel has a size only by an entry
/// of the table: a resolved length above what a size field can state comes
/// from the table, and without an entry the header is refused, and with it
/// every lookup that has to pass the chunk.
pub proof fn lemma_sentinel_needs_entry(
    s: Seq<u8>,
    table: Map<FourCC, u64>,
    at: int,
    budget: int,
    target: Target,
    occurrence: nat,
)
    requires
        in_store(s.len(), at, 8),
    ensures
        header_at(s, table, at) matches Ok(header) ==> (header.resolved_length > 0xFFFF_FFFE ==> {
            &&& header.declared_length == 0xFFFF_FFFF
            &&& table.contains_key(header.ident)
            &&& table[header.ident] == header.resolved_length
        }),
        le_u32(s, at + 4) == 0xFFFF_FFFF && !table.contains_key(fourcc_at(s, at)) ==> {
            &&& header_at(s, table, at) == Err::<ChunkHeader, Error>(
                Error::MissingDS64Length(fourcc_at(s, at)),
            )
            &&& budget >= 8 ==> scan(s, table, at, budget, target, occurrence) == Err::<
                (int, int),
                Error,
            >(Error::MissingDS64Length(fourcc_at(s, at)))
        },
{
}

} // verus!
