//! Byte-level views of the source container: fixed-width integer fields
//! read from a raw byte slice, in the byte orders the format uses.

use vstd::prelude::*;

verus! {

/// Big-endian 32-bit value of `data[i .. i + 4]`.
pub open spec fn be32_at(data: Seq<u8>, i: int) -> nat
    recommends
        0 <= i,
        i + 4 <= data.len(),
{
    (data[i] as nat) * 0x1000000 + (data[i + 1] as nat) * 0x10000 + (data[i + 2] as nat) * 0x100
        + (data[i + 3] as nat)
}

/// Little-endian 32-bit value of `data[i .. i + 4]`.
pub open spec fn le32_at(data: Seq<u8>, i: int) -> nat
    recommends
        0 <= i,
        i + 4 <= data.len(),
{
    (data[i] as nat) + (data[i + 1] as nat) * 0x100 + (data[i + 2] as nat) * 0x10000 + (data[i
        + 3] as nat) * 0x1000000
}

/// Little-endian 64-bit value of `data[i .. i + 8]`.
pub open spec fn le64_at(data: Seq<u8>, i: int) -> nat
    recommends
        0 <= i,
        i + 8 <= data.len(),
{
    le32_at(data, i) + le32_at(data, i + 4) * 0x100000000
}

/// The byte at `i`, or zero past the end: a short read leaves the
/// destination buffer in its zero-initialized state.
pub open spec fn byte_or_zero(data: Seq<u8>, i: int) -> u8 {
    if 0 <= i < data.len() {
        data[i]
    } else {
        0
    }
}

/// Little-endian 32-bit value of `data[i .. i + 4]`, zero-padded past the end.
pub open spec fn le32_or_zero(data: Seq<u8>, i: int) -> nat {
    (byte_or_zero(data, i) as nat) + (byte_or_zero(data, i + 1) as nat) * 0x100 + (byte_or_zero(
        data,
        i + 2,
    ) as nat) * 0x10000 + (byte_or_zero(data, i + 3) as nat) * 0x1000000
}

/// The signed 32-bit value whose two's-complement bits hold `u`.
pub open spec fn as_i32(u: nat) -> int
    recommends
        u < 0x100000000,
{
    if u < 0x80000000 {
        u as int
    } else {
        u - 0x100000000
    }
}

pub fn read_be32(data: &[u8], i: usize) -> (r: u32)
    requires
        i + 4 <= data.len(),
    ensures
        r == be32_at(data@, i as int),
{
    (data[i] as u32) * 0x1000000 + (data[i + 1] as u32) * 0x10000 + (data[i + 2] as u32) * 0x100 + (
    data[i + 3] as u32)
}

pub fn read_le32(data: &[u8], i: usize) -> (r: u32)
    requires
        i + 4 <= data.len(),
    ensures
        r == le32_at(data@, i as int),
{
    (data[i] as u32) + (data[i + 1] as u32) * 0x100 + (data[i + 2] as u32) * 0x10000 + (data[i
        + 3] as u32) * 0x1000000
}

pub fn read_le64(data: &[u8], i: usize) -> (r: u64)
    requires
        i + 8 <= data.len(),
    ensures
        r == le64_at(data@, i as int),
{
    (read_le32(data, i) as u64) + (read_le32(data, i + 4) as u64) * 0x100000000
}

pub fn read_byte_or_zero(data: &[u8], i: usize) -> (r: u8)
    ensures
        r == byte_or_zero(data@, i as int),
{
    if i < data.len() {
        data[i]
    } else {
        0
    }
}

pub fn read_le32_or_zero(data: &[u8], i: usize) -> (r: u32)
    requires
        i + 4 <= usize::MAX,
    ensures
        r == le32_or_zero(data@, i as int),
{
    (read_byte_or_zero(data, i) as u32) + (read_byte_or_zero(data, i + 1) as u32) * 0x100 + (
    read_byte_or_zero(data, i + 2) as u32) * 0x10000 + (read_byte_or_zero(data, i + 3) as u32)
        * 0x1000000
}

} // verus!
