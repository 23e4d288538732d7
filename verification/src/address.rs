//! The 64-bit address of a device: family code, serial number, checksum.

use crate::crc::{bus_crc8, crc8_of};
use crate::error::ErrorKind;
use vstd::prelude::*;

verus! {

/// Byte `index` of `raw`, counted from the least significant, which is the
/// first on the wire.
pub open spec fn byte_at(raw: u64, index: int) -> u8 {
    ((raw >> ((8 * index) as u64)) & 0xff) as u8
}

/// The eight bytes of `raw` in wire order.
pub open spec fn wire_bytes(raw: u64) -> Seq<u8> {
    Seq::new(8, |index: int| byte_at(raw, index))
}

/// The checksum of the leading seven bytes equals the eighth.
pub open spec fn checksum_holds(raw: u64) -> bool {
    crc8_of(wire_bytes(raw).take(7)) == wire_bytes(raw)[7]
}

/// The address of a device whose checksum has been validated.
#[derive(Clone, Copy, Debug, PartialEq, Eq, Structural)]
pub struct DeviceAddress {
    raw: u64,
}

impl View for DeviceAddress {
    type V = u64;

    closed spec fn view(&self) -> u64 {
        self.raw
    }
}

fn split(raw: u64) -> (bytes: [u8; 8])
    ensures
        bytes@ == wire_bytes(raw),
{
    let bytes: [u8; 8] = [
        (raw & 0xff) as u8,
        ((raw >> 8) & 0xff) as u8,
        ((raw >> 16) & 0xff) as u8,
        ((raw >> 24) & 0xff) as u8,
        ((raw >> 32) & 0xff) as u8,
        ((raw >> 40) & 0xff) as u8,
        ((raw >> 48) & 0xff) as u8,
        ((raw >> 56) & 0xff) as u8,
    ];
    proof {
        assert(raw >> 0 == raw) by (bit_vector);
        assert(bytes@ =~= wire_bytes(raw));
    }
    bytes
}

impl DeviceAddress {
    #[verifier::type_invariant]
    spec fn checked(self) -> bool {
        checksum_holds(self.raw)
    }

    /// Accepts `raw` as an address if its checksum holds, and rejects it
    /// with `ChecksumMismatch` if not.
    pub fn from_raw(raw: u64) -> (result: Result<DeviceAddress, ErrorKind>)
        ensures
            checksum_holds(raw) ==> result.is_ok() && result.unwrap()@ == raw,
            !checksum_holds(raw) ==> result == Err::<DeviceAddress, ErrorKind>(
                ErrorKind::ChecksumMismatch,
            ),
    {
        let bytes = split(raw);
        let head: [u8; 7] = [bytes[0], bytes[1], bytes[2], bytes[3], bytes[4], bytes[5], bytes[6]];
        proof {
            assert(head@ =~= wire_bytes(raw).take(7));
        }
        let crc = bus_crc8(head.as_slice());
        if crc == bytes[7] {
            Ok(DeviceAddress { raw })
        } else {
            Err(ErrorKind::ChecksumMismatch)
        }
    }

    /// The address as one number, and the fact that its checksum holds.
    pub fn raw(&self) -> (raw: u64)
        ensures
            raw == self@,
            checksum_holds(raw),
    {
        proof {
            use_type_invariant(self);
        }
        self.raw
    }

    /// The eight bytes in wire order: family code, six bytes of serial
    /// number, checksum.
    pub fn to_bytes(&self) -> (bytes: [u8; 8])
        ensures
            bytes@ == wire_bytes(self@),
            crc8_of(bytes@.take(7)) == bytes@[7],
    {
        proof {
            use_type_invariant(self);
        }
        split(self.raw)
    }

    /// The serial number: the six bytes between family code and checksum,
    /// in wire order.
    pub fn serial(&self) -> (serial: [u8; 6])
        ensures
            serial@ == wire_bytes(self@).subrange(1, 7),
    {
        let bytes = split(self.raw);
        let serial: [u8; 6] = [bytes[1], bytes[2], bytes[3], bytes[4], bytes[5], bytes[6]];
        proof {
            assert(serial@ =~= wire_bytes(self@).subrange(1, 7));
        }
        serial
    }

    /// The checksum: the last byte on the wire, which is the checksum of the
    /// seven bytes before it.
    pub fn checksum(&self) -> (crc: u8)
        ensures
            crc == byte_at(self@, 7),
            crc == crc8_of(wire_bytes(self@).take(7)),
    {
        proof {
            use_type_invariant(self);
        }
        let bytes = split(self.raw);
        bytes[7]
    }

    /// The family code: the first byte on the wire.
    pub fn family_code(&self) -> (code: u8)
        ensures
            code == byte_at(self@, 0),
    {
        let raw: u64 = self.raw;
        proof {
            assert(raw >> 0 == raw) by (bit_vector);
        }
        (raw & 0xff) as u8
    }
}

} // verus!
