//! AX.25 address, CRC and frame-building tests.

use aprs_beacon::aprs::{
    build_position_frame, build_position_frame_from, split_callsign_ssid, Coordinate,
    PositionReport,
};
use aprs_beacon::ax25::{build_ui_frame, crc16, encode_callsign, AddressField};

fn test_report() -> PositionReport {
    PositionReport {
        latitude: Coordinate { microdegrees: 49_058_334 },
        longitude: Coordinate { microdegrees: -72_029_167 },
        symbol_table: '/',
        symbol_code: 'b',
        comment: Some(b"PHG0020Test 001234".to_vec()),
        timestamp: None,
        messaging: false,
    }
}

#[test]
fn position_frame_matches_reference_payload() {
    let report = test_report();

    let (dest_call, dest_ssid) = split_callsign_ssid("APZ   ");
    let dest = AddressField::from_text(dest_call, dest_ssid).expect("dest");
    let (src_call, src_ssid) = split_callsign_ssid("N0CALL-7");
    let src = AddressField::from_text(src_call, src_ssid).expect("src");
    let digipeaters = [AddressField::from_text("WIDE1", 1).expect("digi")];

    let frame = build_position_frame_from(&report, dest, src, &digipeaters).expect("frame build");

    let expected: [u8; 63] = [
        130, 160, 180, 64, 64, 64, 96, 156, 96, 134, 130, 152, 152, 110, 174, 146, 136, 138, 98,
        64, 99, 3, 240, 33, 52, 57, 48, 51, 46, 53, 48, 78, 47, 48, 55, 50, 48, 49, 46, 55, 53,
        87, 98, 80, 72, 71, 48, 48, 50, 48, 84, 101, 115, 116, 32, 48, 48, 49, 50, 51, 52, 190,
        179,
    ];

    assert_eq!(frame.as_slice(), &expected);
}

#[test]
fn configured_station_frame_uses_station_addresses() {
    let report = test_report();
    let frame = build_position_frame(&report).expect("frame build");
    // Destination APZ, SSID 0.
    assert_eq!(&frame[0..7], &[130, 160, 180, 64, 64, 64, 96]);
    // Source KI7TUK-1, end-of-address bit clear.
    let ki7tuk: Vec<u8> = b"KI7TUK".iter().map(|c| c << 1).collect();
    assert_eq!(&frame[7..13], ki7tuk.as_slice());
    assert_eq!(frame[13], 0x60 | (1 << 1));
    // Digipeater WIDE1-1, marked last.
    assert_eq!(frame[20], 0x60 | (1 << 1) | 1);
    // Control and PID.
    assert_eq!(frame[21], 0x03);
    assert_eq!(frame[22], 0xF0);
}

#[test]
fn crc16_matches_reference_value() {
    let data: [u8; 18] = [
        0x82, 0xA0, 0xB4, 0x60, 0x60, 0x60, 0xE0, 0x9C, 0x60, 0x86, 0x82, 0x98, 0x98, 0xE3, 0x03,
        0xF0, 0x2C, 0x41,
    ];
    assert_eq!(crc16(&data), 0x4A76);
}

#[test]
fn crc16_of_empty_data_is_complement_of_init() {
    assert_eq!(crc16(&[]), 0x0000);
}

#[test]
fn encode_callsign_uppercases_and_pads() {
    let lower = encode_callsign("n0call", 7).expect("lower");
    let upper = encode_callsign("N0CALL", 7).expect("upper");
    assert_eq!(lower, upper);
    let short = encode_callsign("APZ", 0).expect("short");
    assert_eq!(short, [0x82, 0xA0, 0xB4, 0x40, 0x40, 0x40, 0x60]);
}

#[test]
fn encode_callsign_rejects_non_ascii() {
    assert!(encode_callsign("Ä", 0).is_err());
    assert!(AddressField::from_text("Ä", 0).is_err());
}

#[test]
fn address_field_raw_round_trip() {
    let raw: [u8; 7] = [0x82, 0xA0, 0xB4, 0x40, 0x40, 0x40, 0x60];
    let field = AddressField::from_raw(raw);
    assert_eq!(field.raw(), raw);
}

#[test]
fn split_callsign_ssid_cases() {
    assert_eq!(split_callsign_ssid("KI7TUK-1"), ("KI7TUK", 1));
    assert_eq!(split_callsign_ssid("N0CALL-7"), ("N0CALL", 7));
    // Malformed or out-of-range SSIDs fall back to zero.
    assert_eq!(split_callsign_ssid("X-9a"), ("X", 0));
    assert_eq!(split_callsign_ssid("X-300"), ("X", 0));
    assert_eq!(split_callsign_ssid("X-"), ("X", 0));
    assert_eq!(split_callsign_ssid("X-+12"), ("X", 12));
}

#[test]
fn split_callsign_ssid_trims_the_callsign_text() {
    assert_eq!(split_callsign_ssid("APZ   "), ("APZ", 0));
    assert_eq!(split_callsign_ssid("  KI7TUK -1"), ("KI7TUK", 1));
    assert_eq!(split_callsign_ssid("\tN0CALL\t"), ("N0CALL", 0));
    assert_eq!(split_callsign_ssid("   "), ("", 0));
    // Only the callsign side is trimmed; the SSID text is parsed as is.
    assert_eq!(split_callsign_ssid("X- 1"), ("X", 0));
}

#[test]
fn build_ui_frame_rejects_oversize_inputs() {
    let a = AddressField::from_text("APZ", 0).unwrap();
    let nine = [a; 9];
    assert!(build_ui_frame(a, a, &nine, &[]).is_err());
    let info = [0u8; 257];
    assert!(build_ui_frame(a, a, &[], &info).is_err());
    let info_max = [0u8; 256];
    let frame = build_ui_frame(a, a, &[], &info_max).unwrap();
    assert_eq!(frame.len(), 7 * 2 + 2 + 256 + 2);
}

#[test]
fn build_ui_frame_sets_last_address_bit() {
    let a = AddressField::from_text("APZ", 0).unwrap();
    let b = AddressField::from_text("N0CALL", 7).unwrap();
    // Without digipeaters the source is the last address.
    let frame = build_ui_frame(a, b, &[], &[1, 2, 3]).unwrap();
    assert_eq!(frame[6] & 1, 0);
    assert_eq!(frame[13] & 1, 1);
    assert_eq!(frame[14], 0x03);
    assert_eq!(frame[15], 0xF0);
    assert_eq!(&frame[16..19], &[1, 2, 3]);
}
