//! Big-endian integer readers shared by the dissectors. Multi-byte header
//! fields are network order, so byte 0 is the most significant.

use vstd::prelude::*;

verus! {

/// The value of a big-endian 16-bit field, as a mathematical integer.
pub open spec fn spec_u16_be(bytes: Seq<u8>) -> int {
    256 * bytes[0] + bytes[1]
}

/// The value of a big-endian 32-bit field, as a mathematical integer.
pub open spec fn spec_u32_be(bytes: Seq<u8>) -> int {
    0x1000000 * bytes[0] + 0x10000 * bytes[1] + 0x100 * bytes[2] + bytes[3]
}

/// Reads a big-endian 16-bit field from the first two bytes.
pub fn two_bytes_to_u16(bytes: &[u8]) -> (r: u16)
    requires
        bytes@.len() == 2,
    ensures
        r == spec_u16_be(bytes@),
{
    256u16 * (bytes[0] as u16) + (bytes[1] as u16)
}

/// Reads a big-endian 32-bit field from the first four bytes.
pub fn four_bytes_to_u32(bytes: &[u8]) -> (r: u32)
    requires
        bytes@.len() == 4,
    ensures
        r == spec_u32_be(bytes@),
{
    0x1000000u32 * (bytes[0] as u32) + 0x10000u32 * (bytes[1] as u32) + 0x100u32 * (bytes[2] as u32)
        + (bytes[3] as u32)
}

} // verus!
