use onewire_core::address::DeviceAddress;
use onewire_core::error::ErrorKind;
use onewire_core::search::{presence, SearchRun, SearchState};

fn sealed(family: u8, serial: [u8; 6]) -> u64 {
    let mut bytes = [0u8; 8];
    bytes[0] = family;
    bytes[1..7].copy_from_slice(&serial);
    bytes[7] = one_wire_bus::crc::crc8(&bytes[..7]);
    u64::from_le_bytes(bytes)
}

fn bit(value: u64, index: u8) -> bool {
    (value >> index) & 1 == 1
}

/// One pass over a bus on which `devices` answer.
fn pass(
    devices: &[u64],
    seed: Option<&SearchState>,
) -> Result<Option<(DeviceAddress, SearchState)>, ErrorKind> {
    let mut run = match SearchRun::begin(seed) {
        Some(run) => run,
        None => return Ok(None),
    };
    presence(!devices.is_empty())?;
    let mut listening: Vec<u64> = devices.to_vec();
    while !run.is_complete() {
        let index = run.position();
        let id = listening.iter().all(|d| bit(*d, index));
        let complement = listening.iter().all(|d| !bit(*d, index));
        let chosen = run.resolve(id, complement)?;
        listening.retain(|d| bit(*d, index) == chosen);
    }
    run.finish().map(Some)
}

fn enumerate(devices: &[u64]) -> Vec<u64> {
    let mut found = Vec::new();
    let mut state: Option<SearchState> = None;
    loop {
        match pass(devices, state.as_ref()).unwrap() {
            Some((address, next)) => {
                found.push(address.raw());
                state = Some(next);
            }
            None => return found,
        }
        assert!(found.len() <= devices.len());
    }
}

fn wire_order(value: u64) -> u64 {
    value.reverse_bits()
}

#[test]
fn single_device_is_found() {
    let device = sealed(0x01, [0x00, 0x00, 0x00, 0x00, 0x00, 0x01]);
    let (address, state) = pass(&[device], None).unwrap().unwrap();
    assert_eq!(address.to_bytes(), [0x01, 0x00, 0x00, 0x00, 0x00, 0x00, 0x01, 0x63]);
    assert_eq!(address.raw(), device);
    assert_eq!(address.family_code(), 0x01);
    assert_eq!(state.address(), device);
    assert_eq!(state.last_discrepancy(), None);
    assert!(state.is_exhausted());
    assert!(pass(&[device], Some(&state)).unwrap().is_none());
}

#[test]
fn empty_bus_times_out() {
    assert_eq!(presence(false), Err(ErrorKind::BusTimeout));
    assert_eq!(presence(true), Ok(()));
    assert_eq!(pass(&[], None).err(), Some(ErrorKind::BusTimeout));
}

#[test]
fn empty_bus_never_flaps() {
    for _ in 0..100 {
        assert_eq!(pass(&[], None).err(), Some(ErrorKind::BusTimeout));
    }
}

#[test]
fn silent_slots_abort_the_pass() {
    let mut run = SearchRun::begin(None).unwrap();
    assert_eq!(run.resolve(false, true), Ok(false));
    assert_eq!(run.resolve(true, false), Ok(true));
    assert_eq!(run.position(), 2);
    assert_eq!(run.resolve(true, true), Err(ErrorKind::BusConflict));
    assert_eq!(run.position(), 2);
}

#[test]
fn agreed_bits_are_followed() {
    let mut run = SearchRun::begin(None).unwrap();
    assert_eq!(run.position(), 0);
    assert!(!run.is_complete());
    for index in 0..64u8 {
        let one = index % 3 == 0;
        assert_eq!(run.resolve(one, !one), Ok(one));
        assert_eq!(run.position(), index + 1);
    }
    assert!(run.is_complete());
}

#[test]
fn first_pass_takes_the_zero_branch() {
    let mut run = SearchRun::begin(None).unwrap();
    for _ in 0..64 {
        assert_eq!(run.resolve(false, false), Ok(false));
    }
    let (address, state) = run.finish().unwrap();
    assert_eq!(address.raw(), 0);
    assert_eq!(state.last_discrepancy(), Some(63));
}

#[test]
fn next_pass_retraces_and_takes_the_one_branch() {
    let low = sealed(0x09, [0x01, 0, 0, 0, 0, 0]);
    let high = sealed(0x09, [0x03, 0, 0, 0, 0, 0]);
    assert_eq!(low, 0xfb00_0000_0000_0109);
    assert_eq!(high, 0x9500_0000_0000_0309);
    let (first, state) = pass(&[high, low], None).unwrap().unwrap();
    assert_eq!(first.raw(), low);
    assert_eq!(state.last_discrepancy(), Some(9));
    let (second, state) = pass(&[high, low], Some(&state)).unwrap().unwrap();
    assert_eq!(second.raw(), high);
    assert_eq!(state.last_discrepancy(), None);
    assert!(pass(&[high, low], Some(&state)).unwrap().is_none());
}

#[test]
fn corrupted_address_is_discarded() {
    let device = sealed(0x01, [0, 0, 0, 0, 0, 0x01]) ^ (1u64 << 60);
    assert_eq!(pass(&[device], None).err(), Some(ErrorKind::ChecksumMismatch));
}

#[test]
fn every_device_is_found_exactly_once() {
    let mut devices = Vec::new();
    let mut seed: u64 = 0x1234_5678_9abc_def1;
    for _ in 0..40 {
        seed = seed.wrapping_mul(6364136223846793005).wrapping_add(1442695040888963407);
        let s = seed.to_le_bytes();
        devices.push(sealed(s[0] & 0x0f, [s[1], s[2] & 0x03, s[3], 0, s[4] & 0x81, s[5]]));
    }
    devices.sort();
    devices.dedup();
    let found = enumerate(&devices);
    let mut expected = devices.clone();
    expected.sort_by_key(|d| wire_order(*d));
    assert_eq!(found, expected);
}

#[test]
fn found_addresses_carry_a_valid_checksum() {
    let devices = [
        sealed(0x28, [1, 2, 3, 4, 5, 6]),
        sealed(0x28, [0xff, 0x64, 0x1e, 0x0f, 0, 0]),
        sealed(0x10, [0, 0, 0, 0, 0, 0]),
        sealed(0x09, [0x12, 0x34, 0x56, 0x78, 0x9a, 0xbc]),
    ];
    let found = enumerate(&devices);
    assert_eq!(found.len(), 4);
    for raw in found {
        let bytes = raw.to_le_bytes();
        assert_eq!(one_wire_bus::crc::crc8(&bytes[..7]), bytes[7]);
        assert!(devices.contains(&raw));
    }
}
