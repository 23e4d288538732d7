use onewire_core::address::DeviceAddress;
use onewire_core::error::ErrorKind;

#[test]
fn address_with_matching_checksum_is_accepted() {
    let address = DeviceAddress::from_raw(0x6301_0000_0000_0001).unwrap();
    assert_eq!(address.raw(), 0x6301_0000_0000_0001);
    assert_eq!(address.to_bytes(), [0x01, 0x00, 0x00, 0x00, 0x00, 0x00, 0x01, 0x63]);
    assert_eq!(address.family_code(), 0x01);
    assert_eq!(address.serial(), [0x00, 0x00, 0x00, 0x00, 0x00, 0x01]);
    assert_eq!(address.checksum(), 0x63);
}

#[test]
fn checksum_is_taken_over_the_leading_seven_bytes() {
    for raw in [
        0xccbc_9a78_5634_1209u64,
        0x3400_000f_1e64_ff28,
        0x9e06_0504_0302_0128,
        0xfb00_0000_0000_0010,
        0x0000_0000_0000_0000,
    ] {
        let address = DeviceAddress::from_raw(raw).unwrap();
        let bytes = address.to_bytes();
        assert_eq!(bytes, raw.to_le_bytes());
        assert_eq!(one_wire_bus::crc::crc8(&bytes[..7]), bytes[7]);
        assert_eq!(address.family_code(), bytes[0]);
        assert_eq!(address.serial()[..], bytes[1..7]);
        assert_eq!(address.checksum(), bytes[7]);
    }
}

#[test]
fn address_with_wrong_checksum_is_rejected() {
    assert_eq!(DeviceAddress::from_raw(0x6401_0000_0000_0001), Err(ErrorKind::ChecksumMismatch));
    assert_eq!(DeviceAddress::from_raw(0x6301_0000_0000_0002), Err(ErrorKind::ChecksumMismatch));
    assert_eq!(DeviceAddress::from_raw(0x0100_0000_0000_0001), Err(ErrorKind::ChecksumMismatch));
    assert_eq!(DeviceAddress::from_raw(u64::MAX), Err(ErrorKind::ChecksumMismatch));
}

#[test]
fn every_single_bit_flip_is_rejected() {
    let good: u64 = 0xccbc_9a78_5634_1209;
    for bit in 0..64 {
        assert_eq!(DeviceAddress::from_raw(good ^ (1u64 << bit)), Err(ErrorKind::ChecksumMismatch));
    }
}

#[test]
fn only_a_failed_rearm_is_not_fatal() {
    assert!(ErrorKind::BusTimeout.is_fatal());
    assert!(ErrorKind::BusConflict.is_fatal());
    assert!(ErrorKind::ChecksumMismatch.is_fatal());
    assert!(!ErrorKind::SchedulingFailure.is_fatal());
}
