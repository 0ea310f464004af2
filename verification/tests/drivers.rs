use gameremap::constants::KEY_MACRO_BASE;
use gameremap::drivers::corsair::gkeys::{decode, keycode, names, K95_REPORT_ID};
use gameremap::drivers::logitech::g502;
use gameremap::drivers::utechsmart::venus;

// ── Corsair K95 G-keys ────────────────────────────────────────────────────────

#[test]
fn test_byte16_keys() {
    let mut data = [0u8; 64];
    data[0] = K95_REPORT_ID;

    data[16] = 0x01; assert_eq!(decode(&data), Some(1 << 0));  // G1
    data[16] = 0x02; assert_eq!(decode(&data), Some(1 << 1));  // G2
    data[16] = 0x40; assert_eq!(decode(&data), Some(1 << 6));  // G7
    data[16] = 0x80; assert_eq!(decode(&data), Some(1 << 7));  // G8
}

#[test]
fn test_byte17_keys() {
    let mut data = [0u8; 64];
    data[0] = K95_REPORT_ID;

    data[17] = 0x01; assert_eq!(decode(&data), Some(1 << 8));  // G9
    data[17] = 0x02; assert_eq!(decode(&data), Some(1 << 9));  // G10
    // bits 2–7 of byte 17 are unused
    data[17] = 0xFC; assert_eq!(decode(&data), Some(0));
}

#[test]
fn test_byte18_keys() {
    let mut data = [0u8; 64];
    data[0] = K95_REPORT_ID;

    data[18] = 0x01; assert_eq!(decode(&data), Some(1 << 10)); // G11
    data[18] = 0x02; assert_eq!(decode(&data), Some(1 << 11)); // G12
    data[18] = 0x40; assert_eq!(decode(&data), Some(1 << 16)); // G17
    data[18] = 0x80; assert_eq!(decode(&data), Some(1 << 17)); // G18
}

#[test]
fn test_simultaneous() {
    let mut data = [0u8; 64];
    data[0] = K95_REPORT_ID;
    // G7 + G8 (same byte)
    data[16] = 0xC0;
    assert_eq!(decode(&data), Some((1 << 6) | (1 << 7)));
    // G8 + G9 across byte16/byte17 boundary
    data[16] = 0x80; data[17] = 0x01;
    assert_eq!(decode(&data), Some((1 << 7) | (1 << 8)));
    // G10 + G11 across byte17/byte18 boundary
    data[16] = 0x00; data[17] = 0x02; data[18] = 0x01;
    assert_eq!(decode(&data), Some((1 << 9) | (1 << 10)));
}

#[test]
fn test_names() {
    assert_eq!(names(0), "—");
    assert_eq!(names(1 << 0),  "G1");
    assert_eq!(names(1 << 6),  "G7");
    assert_eq!(names(1 << 7),  "G8");
    assert_eq!(names(1 << 8),  "G9");
    assert_eq!(names(1 << 9),  "G10");
    assert_eq!(names(1 << 10), "G11");
    assert_eq!(names(1 << 17), "G18");
    assert_eq!(names((1 << 6) | (1 << 7)), "G7+G8");
}

#[test]
fn test_wrong_report_id() {
    let mut data = [0u8; 64];
    data[0] = 0x01;
    data[16] = 0xFF;
    data[17] = 0xFF;
    assert_eq!(decode(&data), None);
}

#[test]
fn gkeys_short_report_is_not_a_gkey_report() {
    let mut data = [0u8; 18];
    data[0] = K95_REPORT_ID;
    assert_eq!(decode(&data), None);
    let mut data = [0u8; 19];
    data[0] = K95_REPORT_ID;
    data[18] = 0x01;
    assert_eq!(decode(&data), Some(1 << 10));
}

#[test]
fn gkeys_all_held() {
    let mut data = [0u8; 19];
    data[0] = K95_REPORT_ID;
    data[16] = 0xFF;
    data[17] = 0xFF;
    data[18] = 0xFF;
    assert_eq!(decode(&data), Some((1 << 18) - 1));
    assert_eq!(
        names((1 << 18) - 1),
        "G1+G2+G3+G4+G5+G6+G7+G8+G9+G10+G11+G12+G13+G14+G15+G16+G17+G18"
    );
}

#[test]
fn gkeys_names_ignore_bits_beyond_g18() {
    assert_eq!(names(1 << 20), "");
    assert_eq!(names((1 << 20) | (1 << 2)), "G3");
}

#[test]
fn gkeys_keycodes() {
    assert_eq!(keycode(0), 0x290);
    assert_eq!(keycode(17), 0x290 + 17);
}

// ── Logitech G502 ─────────────────────────────────────────────────────────────

fn make_g502_report(modifier: u8, keycodes: &[u8]) -> Vec<u8> {
    let mut data = [0u8; 9];
    data[0] = 0x01;
    data[1] = modifier;
    for (i, &k) in keycodes.iter().enumerate().take(6) {
        data[3 + i] = k;
    }
    data.to_vec()
}

#[test]
fn g502_wrong_interface_returns_none() {
    let data = make_g502_report(0x01, &[0x06]);
    assert_eq!(g502::decode(0, &data), None);
    assert_eq!(g502::decode(2, &data), None);
}

#[test]
fn wrong_report_id_returns_none() {
    let mut data = make_g502_report(0x01, &[0x06]);
    data[0] = 0x02;
    assert_eq!(g502::decode(1, &data), None);
}

#[test]
fn too_short_returns_none() {
    assert_eq!(g502::decode(1, &[0x01, 0x01, 0x00]), None);
}

#[test]
fn rear_button_press() {
    let data = make_g502_report(0x01, &[0x06]);
    assert_eq!(g502::decode(1, &data), Some(1 << 0));
}

#[test]
fn forward_button_press() {
    let data = make_g502_report(0x01, &[0x19]);
    assert_eq!(g502::decode(1, &data), Some(1 << 1));
}

#[test]
fn release_report() {
    let data = make_g502_report(0x00, &[]);
    assert_eq!(g502::decode(1, &data), Some(0));
}

#[test]
fn unknown_keycode_ignored() {
    let data = make_g502_report(0x01, &[0xFF]);
    assert_eq!(g502::decode(1, &data), Some(0));
}

#[test]
fn g502_keycode_range() {
    assert_eq!(g502::keycode(0), KEY_MACRO_BASE);
    assert_eq!(g502::keycode(1), KEY_MACRO_BASE + 1);
}

#[test]
fn g502_both_buttons_and_short_reports() {
    let data = make_g502_report(0x01, &[0x19, 0x06]);
    assert_eq!(g502::decode(1, &data), Some(0b11));
    // Four bytes are enough: only byte 3 is scanned.
    assert_eq!(g502::decode(1, &[0x01, 0x01, 0x00, 0x19]), Some(1 << 1));
    // Bytes beyond the ninth are not scanned.
    let mut long = vec![0u8; 12];
    long[0] = 0x01;
    long[10] = 0x06;
    assert_eq!(g502::decode(1, &long), Some(0));
}

// ── UTechSmart Venus ──────────────────────────────────────────────────────────

fn make_venus_report(keycodes: &[u8]) -> Vec<u8> {
    let mut data = [0u8; 8];
    for (i, &k) in keycodes.iter().enumerate().take(6) {
        data[2 + i] = k;
    }
    data.to_vec()
}

#[test]
fn venus_wrong_interface_returns_none() {
    let data = make_venus_report(&[0x1E]);
    assert_eq!(venus::decode(0, &data), None);
    assert_eq!(venus::decode(2, &data), None);
}

#[test]
fn report_too_short_returns_none() {
    assert_eq!(venus::decode(1, &[0x00; 7]), None);
    assert_eq!(venus::decode(1, &[]), None);
}

#[test]
fn button_1_through_10() {
    let expected_hid = [
        0x1E, 0x1F, 0x20, 0x21, 0x22, 0x23, 0x24, 0x25, 0x26, 0x27,
    ];
    for (idx, &hid) in expected_hid.iter().enumerate() {
        let data = make_venus_report(&[hid]);
        assert_eq!(
            venus::decode(1, &data),
            Some(1 << idx),
            "button {} (HID 0x{hid:02X}) should set bit {idx}",
            idx + 1
        );
    }
}

#[test]
fn button_11() {
    let data = make_venus_report(&[0x56]);
    assert_eq!(venus::decode(1, &data), Some(1 << 10));
}

#[test]
fn button_12() {
    let data = make_venus_report(&[0x57]);
    assert_eq!(venus::decode(1, &data), Some(1 << 11));
}

#[test]
fn all_zeros_is_no_buttons() {
    let data = [0u8; 8].to_vec();
    assert_eq!(venus::decode(1, &data), Some(0));
}

#[test]
fn simultaneous_two_buttons() {
    // Button 1 (0x1E) + Button 2 (0x1F)
    let data = make_venus_report(&[0x1E, 0x1F]);
    assert_eq!(venus::decode(1, &data), Some((1 << 0) | (1 << 1)));
}

#[test]
fn simultaneous_non_adjacent() {
    // Button 3 (0x20) + Button 11 (0x56) + Button 12 (0x57)
    let data = make_venus_report(&[0x20, 0x56, 0x57]);
    assert_eq!(venus::decode(1, &data), Some((1 << 2) | (1 << 10) | (1 << 11)));
}

#[test]
fn all_six_slots_with_duplicates_ignored() {
    // Fill all 6 slots: buttons 1–5 + unknown code 0xFF (should be ignored)
    let data = make_venus_report(&[0x1E, 0x1F, 0x20, 0x21, 0x22, 0xFF]);
    assert_eq!(
        venus::decode(1, &data),
        Some((1 << 0) | (1 << 1) | (1 << 2) | (1 << 3) | (1 << 4))
    );
}

#[test]
fn unknown_hid_code_does_not_panic_or_set_bits() {
    let data = make_venus_report(&[0xAA, 0xBB]);
    assert_eq!(venus::decode(1, &data), Some(0));
}

#[test]
fn longer_report_accepted() {
    let mut data = vec![0u8; 16];
    data[2] = 0x1E; // button 1
    assert_eq!(venus::decode(1, &data), Some(1 << 0));
}

#[test]
fn venus_keycode_range() {
    assert_eq!(venus::keycode(0),  KEY_MACRO_BASE);
    assert_eq!(venus::keycode(11), KEY_MACRO_BASE + 11);
}

#[test]
fn venus_repeated_code_sets_one_bit_and_modifier_byte_is_ignored() {
    let mut data = make_venus_report(&[0x20, 0x20]);
    data[0] = 0x1E; // modifier byte, not a slot
    data[1] = 0x1F; // reserved byte, not a slot
    assert_eq!(venus::decode(1, &data), Some(1 << 2));
}
