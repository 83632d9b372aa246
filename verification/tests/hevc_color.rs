use remote_screen::hevc_color::{
    color_bits, escape, patch_access_unit, patch_sps, unescape, unpack_bits, Bits, HevcError,
};

// Synthetic videotestsrc VA HEVC Main SPS: 1920x1080, SAR 1:1, 60fps.
const SPS_HEX: &str = "42010101600000030090000003000003007ba003c0801107cbb2e491b6affc0004000404000003000400000300f020";

fn fixture() -> Vec<u8> {
    let mut s = vec![0, 0, 0, 1];
    s.extend(
        (0..SPS_HEX.len())
            .step_by(2)
            .map(|i| u8::from_str_radix(&SPS_HEX[i..i + 2], 16).unwrap()),
    );
    s
}

fn bits_of(bytes: &[u8]) -> Vec<bool> {
    bytes
        .iter()
        .flat_map(|b| (0..8).rev().map(move |i| b & (1 << i) != 0))
        .collect()
}

#[test]
fn repairs_real_sps_preserves_other_nals_and_is_idempotent() {
    let mut au = vec![0, 0, 1, 0x46, 1, 0x50];
    au.extend(fixture());
    let tail = [0, 0, 0, 1, 0x26, 1, 0xab, 0x80, 0, 0];
    au.extend(tail);
    let patched = patch_access_unit(&au).unwrap().unwrap();
    assert_eq!(&patched[..6], &au[..6]);
    assert!(patched.ends_with(&tail));
    assert!(patch_access_unit(&patched).unwrap().is_none());
    let original = unescape(&fixture()[6..]).unwrap();
    let patched_rbsp = unescape(&patched[12..patched.len() - tail.len()]).unwrap();
    let before = bits_of(&original);
    let after = bits_of(&patched_rbsp);
    assert_eq!(&before[..239], &after[..239]);
    assert_eq!(&after[239..269], color_bits());
    assert_eq!(&before[240..315], &after[269..344]);
}

#[test]
fn rejects_truncated_sps_and_bad_emulation_prevention() {
    let s = fixture();
    for len in 6..s.len() {
        assert!(patch_access_unit(&s[..len]).is_err(), "length {len}");
    }
    assert!(unescape(&[0, 0, 3]).is_err());
    assert!(unescape(&[0, 0, 3, 4]).is_err());
    assert!(unescape(&[0, 0, 2]).is_err());
    assert!(patch_access_unit(&[0, 0, 1, 0x42]).is_err());
}

#[test]
fn leaves_non_sps_units_byte_identical() {
    assert!(patch_access_unit(&[0, 0, 1, 0x26, 1, 0x80])
        .unwrap()
        .is_none());
}

#[test]
fn handles_absent_vui_and_existing_incorrect_color_fields() {
    let original = fixture();
    let rbsp = unescape(&original[6..]).unwrap();
    let bits = bits_of(&rbsp);
    // Original VUI starts at bit 196, SPS extension at 313, stop at 314.
    let mut no_vui = bits[..196].to_vec();
    no_vui.push(false);
    no_vui.extend_from_slice(&bits[313..315]);
    let mut au = original[..6].to_vec();
    au.extend(escape(&no_vui));
    let patched = patch_access_unit(&au).unwrap().unwrap();
    assert!(patch_access_unit(&patched).unwrap().is_none());
    for color in [vec![true, true, false, true, true, false], vec![true; 30]] {
        let mut wrong = bits[..239].to_vec();
        wrong.extend(color);
        wrong.extend_from_slice(&bits[240..315]);
        let mut au = original[..6].to_vec();
        au.extend(escape(&wrong));
        assert_eq!(
            patch_access_unit(&au).unwrap(),
            patch_access_unit(&original).unwrap()
        );
    }
}

#[test]
fn escape_roundtrip_including_emulated_start_codes() {
    let bytes = [0, 0, 0, 0, 1, 0, 0, 2, 0, 0, 3, 3, 0x80];
    let bits = bits_of(&bytes);
    assert_eq!(unescape(&escape(&bits)).unwrap(), bytes);
}

#[test]
fn escaping_inserts_a_three_behind_two_zeros() {
    assert_eq!(escape(&bits_of(&[0, 0, 1])), vec![0, 0, 3, 1]);
    assert_eq!(escape(&bits_of(&[0, 0, 4])), vec![0, 0, 4]);
    assert_eq!(
        escape(&bits_of(&[0, 0, 0, 0, 0])),
        vec![0, 0, 3, 0, 0, 3, 0]
    );
    // Bits that fill no byte are filled with zeros behind them.
    assert_eq!(escape(&[true, false, true]), vec![0xa0]);
}

#[test]
fn bits_are_read_most_significant_first() {
    let mut r = Bits::new(unpack_bits(&[0b1010_0000, 0xff]));
    assert_eq!(r.take(3), Ok(5));
    assert_eq!(r.flag(), Ok(false));
    assert_eq!(r.skip(4), Ok(()));
    assert_eq!(r.take(8), Ok(0xff));
    assert_eq!(r.position(), 16);
    assert!(r.take(1).is_err());
}

#[test]
fn exponential_golomb_codes_read_back() {
    // 1, 010, 011, 00100 are 0, 1, 2 and 3.
    let mut r = Bits::new(unpack_bits(&[0b1010_0110, 0b0100_0000]));
    assert_eq!(r.ue(), Ok(0));
    assert_eq!(r.ue(), Ok(1));
    assert_eq!(r.ue(), Ok(2));
    assert_eq!(r.ue(), Ok(3));
    let mut r = Bits::new(unpack_bits(&[0b1010_0110]));
    assert_eq!(r.ues(2), Ok(()));
    assert_eq!(r.position(), 4);
    // More than thirty-one zeros are no code.
    assert!(Bits::new(vec![false; 80]).ue().is_err());
}

#[test]
fn a_read_that_fails_leaves_the_cursor_where_it_broke_off() {
    let mut r = Bits::new(unpack_bits(&[0b1010_0000]));
    assert_eq!(r.take(3), Ok(5));
    assert_eq!(r.take(6), Err(HevcError::Truncated));
    assert_eq!(r.position(), 3);
    assert_eq!(r.take(33), Err(HevcError::Truncated));
    assert_eq!(r.position(), 3);
    assert_eq!(r.skip(6), Err(HevcError::Truncated));
    assert_eq!(r.position(), 3);
    assert_eq!(r.skip(5), Ok(()));
    assert_eq!(r.flag(), Err(HevcError::Truncated));
    assert_eq!(r.position(), 8);
    // The zeros run out.
    let mut r = Bits::new(vec![false; 5]);
    assert_eq!(r.ue(), Err(HevcError::Truncated));
    assert_eq!(r.position(), 5);
    // The one is there, the bits behind it are not.
    let mut r = Bits::new(vec![false, false, true, true]);
    assert_eq!(r.ue(), Err(HevcError::Truncated));
    assert_eq!(r.position(), 3);
    // The thirty-second zero is read and refused.
    let mut r = Bits::new(vec![false; 80]);
    assert_eq!(r.ue(), Err(HevcError::InvalidExpGolomb));
    assert_eq!(r.position(), 32);
    // Two codes, then one that breaks off behind its one.
    let mut r = Bits::new(vec![true, false, true, false, false, true]);
    assert_eq!(r.ues(3), Err(HevcError::Truncated));
    assert_eq!(r.position(), 6);
}

#[test]
fn a_patch_replaces_the_color_alone() {
    fn unpadded(bytes: &[u8]) -> Vec<bool> {
        let mut bits = bits_of(bytes);
        while bits.last() == Some(&false) {
            bits.pop();
        }
        bits
    }
    let rbsp = unescape(&fixture()[6..]).unwrap();
    // With a VUI, the color description at bit 239 is replaced.
    let before = unpadded(&rbsp);
    let out = patch_sps(&fixture()[6..]).unwrap().unwrap();
    let mut expected = before[..239].to_vec();
    expected.extend(color_bits());
    expected.extend_from_slice(&before[240..]);
    assert_eq!(unpadded(&unescape(&out).unwrap()), expected);
    // Without one, the flag at bit 196 is replaced by a whole VUI.
    let mut before = before[..196].to_vec();
    before.push(false);
    before.extend_from_slice(&bits_of(&rbsp)[313..315]);
    let out = patch_sps(&escape(&before)).unwrap().unwrap();
    let mut expected = before[..196].to_vec();
    expected.extend([true, false, false]);
    expected.extend(color_bits());
    expected.extend([false; 7]);
    expected.extend_from_slice(&before[197..]);
    assert_eq!(unpadded(&unescape(&out).unwrap()), expected);
    assert_eq!(patch_sps(&out), Ok(None));
}

#[test]
fn a_parameter_set_is_patched_on_its_own() {
    let patched = patch_sps(&fixture()[6..]).unwrap().unwrap();
    assert!(patch_sps(&patched).unwrap().is_none());
    assert!(patch_sps(&[]).is_err());
}

#[test]
fn errors_have_their_messages() {
    let error: HevcError = patch_access_unit(&[0, 0, 1, 0x42]).unwrap_err();
    assert!(!error.text().is_empty());
    let error: HevcError = unescape(&[0, 0, 2]).unwrap_err();
    assert!(!error.text().is_empty());
}
