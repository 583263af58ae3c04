//! Integers in network byte order.

use byteorder::{ByteOrder, NetworkEndian};
use vstd::prelude::*;

verus! {

/// The two bytes of a 16-bit integer, the most significant first.
pub open spec fn be16(value: int) -> Seq<u8> {
    seq![(value / 256) as u8, (value % 256) as u8]
}

/// The four bytes of a 32-bit integer, the most significant first.
pub open spec fn be32(value: int) -> Seq<u8> {
    seq![
        (value / 0x100_0000) as u8,
        ((value / 0x1_0000) % 256) as u8,
        ((value / 256) % 256) as u8,
        (value % 256) as u8,
    ]
}

/// The 16-bit integer at `at`.
pub open spec fn u16_at(bytes: Seq<u8>, at: int) -> int {
    bytes[at] * 256 + bytes[at + 1]
}

/// The 32-bit integer at `at`.
pub open spec fn u32_at(bytes: Seq<u8>, at: int) -> int {
    bytes[at] * 0x100_0000 + bytes[at + 1] * 0x1_0000 + bytes[at + 2] * 256 + bytes[at + 3]
}

/// The 64-bit integer at `at`.
pub open spec fn u64_at(bytes: Seq<u8>, at: int) -> int {
    u32_at(bytes, at) * 0x1_0000_0000 + u32_at(bytes, at + 4)
}

/// The 128-bit integer at `at`.
pub open spec fn u128_at(bytes: Seq<u8>, at: int) -> int {
    u64_at(bytes, at) * 0x1_0000_0000_0000_0000 + u64_at(bytes, at + 8)
}

/// `len` bytes of zero.
pub open spec fn zeros(len: int) -> Seq<u8> {
    Seq::new(len as nat, |i: int| 0u8)
}

/// What is written as 32 bits is read back.
pub proof fn lemma_be32_round_trip(value: u32)
    ensures
        be32(value as int).len() == 4,
        u32_at(be32(value as int), 0) == value,
{
    assert(value / 0x100_0000 < 256);
    assert(value == (value / 0x100_0000) * 0x100_0000 + ((value / 0x1_0000) % 256) * 0x1_0000 + ((
    value / 256) % 256) * 256 + value % 256) by (bit_vector);
}

/// What is written as 16 bits is read back.
pub proof fn lemma_be16_round_trip(value: u16)
    ensures
        be16(value as int).len() == 2,
        u16_at(be16(value as int), 0) == value,
{
}

/// Read 32 bits in network byte order from the front of `bytes`.
///
/// Calls `NetworkEndian::read_u32` of `byteorder`, which takes the first four
/// bytes, the most significant first. It panics on fewer bytes than that.
#[verifier::external_body]
pub(crate) fn network_u32(bytes: &[u8]) -> (value: u32)
    requires
        bytes@.len() >= 4,
    ensures
        value == u32_at(bytes@, 0),
{
    NetworkEndian::read_u32(bytes)
}

/// Read 16 bits at `at`.
pub fn read_u16(bytes: &[u8], at: usize) -> (value: u16)
    requires
        at + 2 <= bytes@.len(),
    ensures
        value == u16_at(bytes@, at as int),
{
    bytes[at] as u16 * 256 + bytes[at + 1] as u16
}

/// Read 32 bits at `at`.
pub fn read_u32(bytes: &[u8], at: usize) -> (value: u32)
    requires
        at + 4 <= bytes@.len(),
    ensures
        value == u32_at(bytes@, at as int),
{
    bytes[at] as u32 * 0x100_0000 + bytes[at + 1] as u32 * 0x1_0000 + bytes[at + 2] as u32 * 256
        + bytes[at + 3] as u32
}

/// Read 64 bits at `at`.
pub fn read_u64(bytes: &[u8], at: usize) -> (value: u64)
    requires
        at + 8 <= bytes@.len(),
    ensures
        value == u64_at(bytes@, at as int),
{
    assert(bytes.len() <= usize::MAX);
    read_u32(bytes, at) as u64 * 0x1_0000_0000 + read_u32(bytes, at + 4) as u64
}

/// Read 128 bits at `at`.
pub fn read_u128(bytes: &[u8], at: usize) -> (value: u128)
    requires
        at + 16 <= bytes@.len(),
    ensures
        value == u128_at(bytes@, at as int),
{
    assert(bytes.len() <= usize::MAX);
    read_u64(bytes, at) as u128 * 0x1_0000_0000_0000_0000 + read_u64(bytes, at + 8) as u128
}

/// Append 16 bits.
pub fn put_u16(bytes: &mut Vec<u8>, value: u16)
    ensures
        final(bytes)@ == old(bytes)@ + be16(value as int),
{
    bytes.push((value / 256) as u8);
    bytes.push((value % 256) as u8);
    assert(bytes@ =~= old(bytes)@ + be16(value as int));
}

/// Append 32 bits.
pub fn put_u32(bytes: &mut Vec<u8>, value: u32)
    ensures
        final(bytes)@ == old(bytes)@ + be32(value as int),
{
    bytes.push((value / 0x100_0000) as u8);
    bytes.push(((value / 0x1_0000) % 256) as u8);
    bytes.push(((value / 256) % 256) as u8);
    bytes.push((value % 256) as u8);
    assert(bytes@ =~= old(bytes)@ + be32(value as int));
}

/// Append `len` bytes of zero.
pub fn put_zeros(bytes: &mut Vec<u8>, len: usize)
    ensures
        final(bytes)@ == old(bytes)@ + zeros(len as int),
{
    let mut done: usize = 0;
    while done < len
        invariant
            done <= len,
            bytes@ == old(bytes)@ + zeros(done as int),
        decreases len - done,
    {
        bytes.push(0);
        done += 1;
        assert(bytes@ =~= old(bytes)@ + zeros(done as int));
    }
}

/// Append the bytes of a slice.
pub fn put_slice(bytes: &mut Vec<u8>, data: &[u8])
    ensures
        final(bytes)@ == old(bytes)@ + data@,
{
    let mut done: usize = 0;
    assert(bytes@ =~= old(bytes)@ + data@.take(0));
    while done < data.len()
        invariant
            done <= data@.len(),
            bytes@ == old(bytes)@ + data@.take(done as int),
        decreases data@.len() - done,
    {
        bytes.push(data[done]);
        done += 1;
        assert(bytes@ =~= old(bytes)@ + data@.take(done as int));
    }
    assert(data@.take(data@.len() as int) =~= data@);
}

/// Copy `data` over the front of `into`.
pub fn copy_to_front(into: &mut [u8], data: &[u8])
    requires
        data@.len() <= old(into)@.len(),
    ensures
        final(into)@ == data@ + old(into)@.skip(data@.len() as int),
{
    let mut done: usize = 0;
    assert(into@ =~= data@.take(0) + old(into)@.skip(0));
    while done < data.len()
        invariant
            done <= data@.len() <= old(into)@.len(),
            into@ == data@.take(done as int) + old(into)@.skip(done as int),
        decreases data@.len() - done,
    {
        into[done] = data[done];
        done += 1;
        assert(into@ =~= data@.take(done as int) + old(into)@.skip(done as int));
    }
    assert(data@.take(data@.len() as int) =~= data@);
}

/// Whether two byte strings are equal.
pub fn same_bytes(a: &[u8], b: &[u8]) -> (same: bool)
    ensures
        same == (a@ == b@),
{
    if a.len() != b.len() {
        return false;
    }
    let mut index: usize = 0;
    while index < a.len()
        invariant
            a@.len() == b@.len(),
            index <= a@.len(),
            forall|i: int| 0 <= i < index ==> a@[i] == b@[i],
        decreases a@.len() - index,
    {
        if a[index] != b[index] {
            return false;
        }
        index += 1;
    }
    assert(a@ =~= b@);
    true
}

} // verus!
