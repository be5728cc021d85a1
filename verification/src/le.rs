//! Little-endian integer fields.

use vstd::prelude::*;

verus! {

/// The four bytes of `value`, least significant first.
pub open spec fn u32_le(value: int) -> Seq<u8> {
    seq![
        (value % 0x100) as u8,
        (value / 0x100 % 0x100) as u8,
        (value / 0x1_0000 % 0x100) as u8,
        (value / 0x100_0000 % 0x100) as u8,
    ]
}

/// The two bytes of `value`, least significant first.
pub open spec fn u16_le(value: int) -> Seq<u8> {
    seq![(value % 0x100) as u8, (value / 0x100 % 0x100) as u8]
}

/// The number that the first four bytes of `bytes` hold, least significant
/// byte first.
pub open spec fn u32_from_le(bytes: Seq<u8>) -> int {
    bytes[0] + bytes[1] * 0x100 + bytes[2] * 0x1_0000 + bytes[3] * 0x100_0000
}

/// Reading back a field that was written gives the number written.
pub proof fn lemma_u32_le_round_trip(value: int)
    requires
        0 <= value <= u32::MAX,
    ensures
        u32_le(value).len() == 4,
        u32_from_le(u32_le(value)) == value,
{
}

/// Splits `value` into its four bytes, least significant first.
pub fn u32_le_bytes(value: u32) -> (bytes: [u8; 4])
    ensures
        bytes@ == u32_le(value as int),
{
    let b0: u8 = (value & 0xff) as u8;
    let b1: u8 = ((value >> 8) & 0xff) as u8;
    let b2: u8 = ((value >> 16) & 0xff) as u8;
    let b3: u8 = ((value >> 24) & 0xff) as u8;
    proof {
        assert(value & 0xff == value % 0x100) by (bit_vector);
        assert((value >> 8) & 0xff == value / 0x100 % 0x100) by (bit_vector);
        assert((value >> 16) & 0xff == value / 0x1_0000 % 0x100) by (bit_vector);
        assert((value >> 24) & 0xff == value / 0x100_0000 % 0x100) by (bit_vector);
    }
    let bytes = [b0, b1, b2, b3];
    assert(bytes@ =~= u32_le(value as int));
    bytes
}

} // verus!
