//! Byte order: the number that a fixed-size group of bytes stands for.
use vstd::prelude::*;

verus! {

/// The number that two bytes stand for.
pub open spec fn u16_value(bytes: Seq<u8>, big_endian: bool) -> int {
    if big_endian {
        bytes[0] * 0x100 + bytes[1]
    } else {
        bytes[1] * 0x100 + bytes[0]
    }
}

/// The number that four bytes stand for.
pub open spec fn u32_value(bytes: Seq<u8>, big_endian: bool) -> int {
    if big_endian {
        bytes[0] * 0x100_0000 + bytes[1] * 0x1_0000 + bytes[2] * 0x100 + bytes[3]
    } else {
        bytes[3] * 0x100_0000 + bytes[2] * 0x1_0000 + bytes[1] * 0x100 + bytes[0]
    }
}

/// The number that eight bytes stand for.
pub open spec fn u64_value(bytes: Seq<u8>, big_endian: bool) -> int {
    if big_endian {
        bytes[0] * 0x100_0000_0000_0000 + bytes[1] * 0x1_0000_0000_0000 + bytes[2]
            * 0x100_0000_0000 + bytes[3] * 0x1_0000_0000 + bytes[4] * 0x100_0000 + bytes[5]
            * 0x1_0000 + bytes[6] * 0x100 + bytes[7]
    } else {
        bytes[7] * 0x100_0000_0000_0000 + bytes[6] * 0x1_0000_0000_0000 + bytes[5]
            * 0x100_0000_0000 + bytes[4] * 0x1_0000_0000 + bytes[3] * 0x100_0000 + bytes[2]
            * 0x1_0000 + bytes[1] * 0x100 + bytes[0]
    }
}

/// Reads a 16-bit number in the given byte order.
pub fn u16_from_bytes(bytes: &[u8; 2], big_endian: bool) -> (value: u16)
    ensures
        value == u16_value(bytes@, big_endian),
{
    let (high, low) = if big_endian {
        (bytes[0], bytes[1])
    } else {
        (bytes[1], bytes[0])
    };
    (high as u16) * 0x100 + (low as u16)
}

/// Reads a 32-bit number in the given byte order.
pub fn u32_from_bytes(bytes: &[u8; 4], big_endian: bool) -> (value: u32)
    ensures
        value == u32_value(bytes@, big_endian),
{
    let (b3, b2, b1, b0) = if big_endian {
        (bytes[0], bytes[1], bytes[2], bytes[3])
    } else {
        (bytes[3], bytes[2], bytes[1], bytes[0])
    };
    (b3 as u32) * 0x100_0000 + (b2 as u32) * 0x1_0000 + (b1 as u32) * 0x100 + (b0 as u32)
}

/// Reads a 64-bit number in the given byte order.
pub fn u64_from_bytes(bytes: &[u8; 8], big_endian: bool) -> (value: u64)
    ensures
        value == u64_value(bytes@, big_endian),
{
    let (b7, b6, b5, b4, b3, b2, b1, b0) = if big_endian {
        (bytes[0], bytes[1], bytes[2], bytes[3], bytes[4], bytes[5], bytes[6], bytes[7])
    } else {
        (bytes[7], bytes[6], bytes[5], bytes[4], bytes[3], bytes[2], bytes[1], bytes[0])
    };
    (b7 as u64) * 0x100_0000_0000_0000 + (b6 as u64) * 0x1_0000_0000_0000 + (b5 as u64)
        * 0x100_0000_0000 + (b4 as u64) * 0x1_0000_0000 + (b3 as u64) * 0x100_0000 + (b2 as u64)
        * 0x1_0000 + (b1 as u64) * 0x100 + (b0 as u64)
}

} // verus!
