use remote_screen::transport_clock::{advance_pcr, pcr_offset};

fn packet(base: u64, extension: u16, pid: u16) -> Vec<u8> {
    let mut packet = vec![0x55; 188];
    packet[..6].copy_from_slice(&[
        0x47,
        ((pid >> 8) as u8 & 31) | 0x40,
        pid as u8,
        0x30,
        7,
        0x10,
    ]);
    packet[6..12].copy_from_slice(&[
        (base >> 25) as u8,
        (base >> 17) as u8,
        (base >> 9) as u8,
        (base >> 1) as u8,
        ((base as u8 & 1) << 7) | 0x2a | ((extension >> 8) as u8),
        extension as u8,
    ]);
    packet
}

#[test]
fn zero_advance_keeps_every_byte() {
    let mut bytes = packet(100, 299, 4113);
    let original = bytes.clone();
    assert_eq!(advance_pcr(&mut bytes, 0).unwrap(), 0);
    assert_eq!(bytes, original);
}

#[test]
fn advances_all_pids_preserving_payload_reserved_bits_and_extension() {
    let mut bytes = packet(90000, 257, 4113);
    bytes.extend(packet(180000, 299, 4352));
    let original = bytes.clone();
    assert_eq!(advance_pcr(&mut bytes, 75).unwrap(), 2);
    let mut expected = packet(96750, 257, 4113);
    expected.extend(packet(186750, 299, 4352));
    assert_eq!(bytes, expected);
    for (before, after) in original.chunks(188).zip(bytes.chunks(188)) {
        assert_eq!(&before[..6], &after[..6]);
        assert_eq!(&before[12..], &after[12..]);
    }
}

#[test]
fn wraps_full_pcr_clock_preserving_fractional_extension() {
    let mut bytes = packet((1u64 << 33) - 100, 299, 4352);
    advance_pcr(&mut bytes, 75).unwrap();
    assert_eq!(bytes, packet(6650, 299, 4352));
}

#[test]
fn malformed_batch_does_not_partially_modify_previous_packets() {
    for (length, extension) in [(6, 0), (184, 0), (7, 300)] {
        let mut bytes = packet(100, 0, 4113);
        let mut invalid = packet(200, extension, 4352);
        invalid[4] = length;
        bytes.extend(invalid);
        let original = bytes.clone();
        assert!(advance_pcr(&mut bytes, 75).is_err());
        assert_eq!(bytes, original);
    }
    assert!(advance_pcr(&mut [0x47; 187], 75).is_err());
    assert!(advance_pcr(&mut packet(0, 0, 4113), 126).is_err());
}

#[test]
fn leaves_original_clock_reference_intact() {
    let mut bytes = packet(100, 0, 4113);
    bytes[4] = 13;
    bytes[5] |= 0x08;
    let original = bytes.clone();
    advance_pcr(&mut bytes, 75).unwrap();
    assert_eq!(&bytes[12..], &original[12..]);
}

#[test]
fn advances_add_up() {
    let mut twice = packet(90000, 257, 4113);
    advance_pcr(&mut twice, 50).unwrap();
    advance_pcr(&mut twice, 75).unwrap();
    let mut once = packet(90000, 257, 4113);
    advance_pcr(&mut once, 125).unwrap();
    assert_eq!(twice, once);
}

#[test]
fn clock_references_are_found_where_there_is_one() {
    assert_eq!(pcr_offset(&packet(1, 0, 4113)).unwrap(), Some(6));
    let mut without = packet(1, 0, 4113);
    without[5] = 0;
    assert_eq!(pcr_offset(&without).unwrap(), None);
    let mut payload = packet(1, 0, 4113);
    payload[3] = 0x10;
    assert_eq!(pcr_offset(&payload).unwrap(), None);
    let mut unsynchronised = packet(1, 0, 4113);
    unsynchronised[0] = 0;
    assert!(!pcr_offset(&unsynchronised).unwrap_err().text().is_empty());
}
