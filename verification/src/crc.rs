//! The 8-bit checksum of the single-wire bus (polynomial x^8 + x^5 + x^4 + 1,
//! bits taken least significant first).

use vstd::prelude::*;

verus! {

/// The checksum register after one more bit of the message.
pub open spec fn crc8_shift(crc: u8, bit: bool) -> u8 {
    if ((crc & 1) == 1) != bit {
        (crc >> 1) ^ 0x8C
    } else {
        crc >> 1
    }
}

/// The checksum register after the `count` lowest bits of `byte`, lowest
/// first.
pub open spec fn crc8_bits(crc: u8, byte: u8, count: nat) -> u8
    decreases count,
{
    if count == 0 {
        crc
    } else {
        crc8_bits(crc8_shift(crc, (byte & 1) == 1), byte >> 1, (count - 1) as nat)
    }
}

/// The checksum of `data`: the register starts at zero and takes the bytes
/// in order.
pub open spec fn crc8_of(data: Seq<u8>) -> u8
    decreases data.len(),
{
    if data.len() == 0 {
        0
    } else {
        crc8_bits(crc8_of(data.drop_last()), data.last(), 8)
    }
}

/// `one_wire_bus::crc::crc8`: the checksum of `data`. Not proved; the spec
/// functions above restate the loop of that function.
#[verifier::external_body]
pub(crate) fn bus_crc8(data: &[u8]) -> (crc: u8)
    ensures
        crc == crc8_of(data@),
{
    one_wire_bus::crc::crc8(data)
}

} // verus!
