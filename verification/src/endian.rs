//! Little-endian integers in a byte store.
//!
//! Every number in a container is stored least significant byte first. The
//! conversions themselves are done by the `byteorder` crate; this module says
//! what they compute and reads and writes at a position of a store.

use byteorder::ByteOrder;
use byteorder::LittleEndian;
use vstd::prelude::*;
use vstd::slice::slice_subrange;

use crate::errors::Error;

verus! {

/// The number held by the two bytes of `s` that start at `at`.
pub open spec fn le_u16(s: Seq<u8>, at: int) -> int {
    s[at] as int + 0x100 * (s[at + 1] as int)
}

/// The number held by the four bytes of `s` that start at `at`.
pub open spec fn le_u32(s: Seq<u8>, at: int) -> int {
    s[at] as int + 0x100 * (s[at + 1] as int) + 0x1_0000 * (s[at + 2] as int) + 0x100_0000 * (s[at
        + 3] as int)
}

/// The number held by the eight bytes of `s` that start at `at`.
pub open spec fn le_u64(s: Seq<u8>, at: int) -> int {
    le_u32(s, at) + 0x1_0000_0000 * le_u32(s, at + 4)
}

/// The four bytes that hold `value`.
pub open spec fn u32_le_bytes(value: int) -> Seq<u8> {
    seq![
        (value % 0x100) as u8,
        (value / 0x100 % 0x100) as u8,
        (value / 0x1_0000 % 0x100) as u8,
        (value / 0x100_0000 % 0x100) as u8,
    ]
}

/// The eight bytes that hold `value`.
pub open spec fn u64_le_bytes(value: int) -> Seq<u8> {
    u32_le_bytes(value % 0x1_0000_0000) + u32_le_bytes(value / 0x1_0000_0000)
}

/// Reading back the bytes of a 32-bit number gives the number.
pub proof fn lemma_u32_round_trip(value: u32, s: Seq<u8>, at: int)
    requires
        0 <= at,
        at + 4 <= s.len(),
        s.subrange(at, at + 4) == u32_le_bytes(value as int),
    ensures
        le_u32(s, at) == value,
{
    let b = u32_le_bytes(value as int);
    assert(s[at] == s.subrange(at, at + 4)[0]);
    assert(s[at + 1] == s.subrange(at, at + 4)[1]);
    assert(s[at + 2] == s.subrange(at, at + 4)[2]);
    assert(s[at + 3] == s.subrange(at, at + 4)[3]);
}

/// Reading back the bytes of a 64-bit number gives the number.
pub proof fn lemma_u64_round_trip(value: u64, s: Seq<u8>, at: int)
    requires
        0 <= at,
        at + 8 <= s.len(),
        s.subrange(at, at + 8) == u64_le_bytes(value as int),
    ensures
        le_u64(s, at) == value,
{
    let b = u64_le_bytes(value as int);
    let low = (value % 0x1_0000_0000) as u32;
    let high = (value / 0x1_0000_0000) as u32;
    assert(s.subrange(at, at + 4) =~= u32_le_bytes(low as int)) by {
        assert forall|i: int| 0 <= i < 4 implies s.subrange(at, at + 4)[i] == u32_le_bytes(
            low as int,
        )[i] by {
            assert(s.subrange(at, at + 8)[i] == b[i]);
        }
    }
    assert(s.subrange(at + 4, at + 8) =~= u32_le_bytes(high as int)) by {
        assert forall|i: int| 0 <= i < 4 implies s.subrange(at + 4, at + 8)[i] == u32_le_bytes(
            high as int,
        )[i] by {
            assert(s.subrange(at, at + 8)[i + 4] == b[i + 4]);
        }
    }
    lemma_u32_round_trip(low, s, at);
    lemma_u32_round_trip(high, s, at + 4);
}

/// `byteorder::LittleEndian::read_u16`: the number held by the first two bytes
/// of `buf`, least significant byte first. It panics on a shorter buffer, which
/// the precondition leaves out.
#[verifier::external_body]
pub(crate) fn decode_u16(buf: &[u8]) -> (value: u16)
    requires
        buf@.len() >= 2,
    ensures
        value as int == le_u16(buf@, 0),
{
    LittleEndian::read_u16(buf)
}

/// `byteorder::LittleEndian::read_u32`: the number held by the first four bytes
/// of `buf`, least significant byte first. It panics on a shorter buffer, which
/// the precondition leaves out.
#[verifier::external_body]
pub(crate) fn decode_u32(buf: &[u8]) -> (value: u32)
    requires
        buf@.len() >= 4,
    ensures
        value as int == le_u32(buf@, 0),
{
    LittleEndian::read_u32(buf)
}

/// `byteorder::LittleEndian::read_u64`: the number held by the first eight
/// bytes of `buf`, least significant byte first. It panics on a shorter buffer,
/// which the precondition leaves out.
#[verifier::external_body]
pub(crate) fn decode_u64(buf: &[u8]) -> (value: u64)
    requires
        buf@.len() >= 8,
    ensures
        value as int == le_u64(buf@, 0),
{
    LittleEndian::read_u64(buf)
}

/// `byteorder::LittleEndian::write_u32`, on a buffer of four bytes: the bytes
/// that hold `value`, least significant byte first.
#[verifier::external_body]
pub(crate) fn encode_u32(value: u32) -> (bytes: [u8; 4])
    ensures
        bytes@ == u32_le_bytes(value as int),
{
    let mut buf = [0u8; 4];
    LittleEndian::write_u32(&mut buf, value);
    buf
}

/// `byteorder::LittleEndian::write_u64`, on a buffer of eight bytes: the bytes
/// that hold `value`, least significant byte first.
#[verifier::external_body]
pub(crate) fn encode_u64(value: u64) -> (bytes: [u8; 8])
    ensures
        bytes@ == u64_le_bytes(value as int),
{
    let mut buf = [0u8; 8];
    LittleEndian::write_u64(&mut buf, value);
    buf
}

/// Whether `count` bytes can be read from a store of `len` bytes at `at`.
pub open spec fn in_store(len: nat, at: int, count: int) -> bool {
    0 <= at && at + count <= len
}

/// The 16-bit number at `at`, or `UnexpectedEof` where the store ends before it.
pub fn read_u16_at(bytes: &[u8], at: u64) -> (r: Result<u16, Error>)
    ensures
        in_store(bytes@.len(), at as int, 2) ==> r == Ok::<u16, Error>(le_u16(bytes@, at as int) as u16),
        !in_store(bytes@.len(), at as int, 2) ==> r == Err::<u16, Error>(Error::UnexpectedEof),
{
    let len: u64 = bytes.len() as u64;
    if at > len || len - at < 2 {
        return Err(Error::UnexpectedEof);
    }
    let start: usize = at as usize;
    let field = slice_subrange(bytes, start, start + 2);
    Ok(decode_u16(field))
}

/// The 32-bit number at `at`, or `UnexpectedEof` where the store ends before it.
pub fn read_u32_at(bytes: &[u8], at: u64) -> (r: Result<u32, Error>)
    ensures
        in_store(bytes@.len(), at as int, 4) ==> r == Ok::<u32, Error>(le_u32(bytes@, at as int) as u32),
        !in_store(bytes@.len(), at as int, 4) ==> r == Err::<u32, Error>(Error::UnexpectedEof),
{
    let len: u64 = bytes.len() as u64;
    if at > len || len - at < 4 {
        return Err(Error::UnexpectedEof);
    }
    let start: usize = at as usize;
    let field = slice_subrange(bytes, start, start + 4);
    Ok(decode_u32(field))
}

/// The 64-bit number at `at`, or `UnexpectedEof` where the store ends before it.
pub fn read_u64_at(bytes: &[u8], at: u64) -> (r: Result<u64, Error>)
    ensures
        in_store(bytes@.len(), at as int, 8) ==> r == Ok::<u64, Error>(le_u64(bytes@, at as int) as u64),
        !in_store(bytes@.len(), at as int, 8) ==> r == Err::<u64, Error>(Error::UnexpectedEof),
{
    let len: u64 = bytes.len() as u64;
    if at > len || len - at < 8 {
        return Err(Error::UnexpectedEof);
    }
    let start: usize = at as usize;
    let field = slice_subrange(bytes, start, start + 8);
    Ok(decode_u64(field))
}

} // verus!
