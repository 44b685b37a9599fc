use paniolo::ch9329::{ascii_to_hid, keyboard_frame, tap, type_frames, MOD_SHIFT};

#[test]
fn keyboard_frame_matches_known_bytes() {
    let f = keyboard_frame(0, [0x04, 0, 0, 0, 0, 0]);
    assert_eq!(f, vec![0x57, 0xAB, 0x00, 0x02, 0x08, 0x00, 0x00, 0x04, 0, 0, 0, 0, 0, 0x10]);
    let sum: u32 = f[..f.len() - 1].iter().map(|&b| b as u32).sum();
    assert_eq!(*f.last().unwrap(), (sum & 0xFF) as u8);
}

#[test]
fn ascii_maps_letters_digits_and_shifted() {
    assert_eq!(ascii_to_hid('a'), Some((0, 0x04)));
    assert_eq!(ascii_to_hid('z'), Some((0, 0x1d)));
    assert_eq!(ascii_to_hid('A'), Some((MOD_SHIFT, 0x04)));
    assert_eq!(ascii_to_hid('1'), Some((0, 0x1e)));
    assert_eq!(ascii_to_hid('0'), Some((0, 0x27)));
    assert_eq!(ascii_to_hid('!'), Some((MOD_SHIFT, 0x1e)));
    assert_eq!(ascii_to_hid(' '), Some((0, 0x2c)));
    assert_eq!(ascii_to_hid('\n'), Some((0, 0x28)));
    assert_eq!(ascii_to_hid('€'), None);
}

#[test]
fn type_frames_emits_press_and_release_per_char() {
    let frames = type_frames("Hi").unwrap();
    assert_eq!(frames.len(), 4);
    assert_eq!(frames[0][5], MOD_SHIFT);
    assert_eq!(frames[1][5], 0);
    assert_eq!(frames[1][7], 0);
}

#[test]
fn type_frames_reports_unsupported_char() {
    assert_eq!(type_frames("ok€"), Err('€'));
}

#[test]
fn every_frame_checksum_is_the_byte_sum_mod_256() {
    for (m, k) in [(0u8, 0x04u8), (MOD_SHIFT, 0x1e), (0, 0x2c), (0xff, 0xff)] {
        let f = keyboard_frame(m, [k, 0, 0, 0, 0, 0]);
        assert_eq!(f.len(), 14);
        let sum: u32 = f[..13].iter().map(|&b| b as u32).sum();
        assert_eq!(f[13] as u32, sum % 256);
    }
}

#[test]
fn a_tap_is_a_press_then_an_all_zero_release() {
    let (press, release) = tap(MOD_SHIFT, 0x04);
    assert_eq!(press[5], MOD_SHIFT);
    assert_eq!(press[7], 0x04);
    assert_eq!(release, keyboard_frame(0, [0; 6]));
}
