//! Coordinate, timestamp and information-field encoding tests.

use aprs_beacon::aprs::{Coordinate, PositionReport, Timestamp};

fn coord_string(micro: i32, lat: bool) -> String {
    let mut out = Vec::new();
    Coordinate { microdegrees: micro }.to_aprs(lat, &mut out);
    String::from_utf8(out).unwrap()
}

#[test]
fn latitude_digits_match_reference_example() {
    // 49.058334 degrees: deg 49, minutes 3, hundredths 50.
    assert_eq!(coord_string(49_058_334, true), "4903.50N");
}

#[test]
fn longitude_digits_match_reference_example() {
    assert_eq!(coord_string(-72_029_167, false), "07201.75W");
}

#[test]
fn hemisphere_letters_follow_sign() {
    assert_eq!(coord_string(-49_058_334, true), "4903.50S");
    assert_eq!(coord_string(72_029_167, false), "07201.75E");
    assert_eq!(coord_string(0, true), "0000.00N");
    assert_eq!(coord_string(0, false), "00000.00E");
}

#[test]
fn coordinate_encoding_is_within_a_hundredth_of_a_minute() {
    // Decode the emitted digits and compare: the error stays below
    // 1/6000 degree, i.e. below 1000/6 microdegrees.
    for &micro in [49_058_334i32, 72_029_167, 1, 999_999, 89_999_999, 0].iter() {
        let s = coord_string(micro, true);
        let b = s.as_bytes();
        let deg = (b[0] - b'0') as i64 * 10 + (b[1] - b'0') as i64;
        let minutes = (b[2] - b'0') as i64 * 10 + (b[3] - b'0') as i64;
        let hh = (b[5] - b'0') as i64 * 10 + (b[6] - b'0') as i64;
        let decoded_times_six = deg * 6_000_000 + minutes * 100_000 + hh * 1_000;
        let err = (micro as i64) * 6 - decoded_times_six;
        assert!(0 <= err && err < 1_000, "micro {} err {}", micro, err);
    }
}

#[test]
fn timestamp_forms() {
    let mut out = Vec::new();
    Timestamp::Dhm { day: 9, hour: 7, minute: 5 }.encode(&mut out);
    assert_eq!(out, b"090705z");
    out.clear();
    Timestamp::Hms { hour: 23, minute: 59, second: 1 }.encode(&mut out);
    assert_eq!(out, b"235901h");
    out.clear();
    Timestamp::LocalTime { hour: 12, minute: 34 }.encode(&mut out);
    assert_eq!(out, b"1234/");
}

fn base_report() -> PositionReport {
    PositionReport {
        latitude: Coordinate { microdegrees: 49_058_334 },
        longitude: Coordinate { microdegrees: -72_029_167 },
        symbol_table: '/',
        symbol_code: 'n',
        comment: None,
        timestamp: None,
        messaging: false,
    }
}

#[test]
fn data_type_identifier_selection() {
    let mut report = base_report();
    let mut out = Vec::new();
    report.encode(&mut out);
    assert_eq!(out[0], b'!');

    report.messaging = true;
    out.clear();
    report.encode(&mut out);
    assert_eq!(out[0], b'=');

    report.timestamp = Some(Timestamp::Dhm { day: 1, hour: 2, minute: 3 });
    out.clear();
    report.encode(&mut out);
    assert_eq!(out[0], b'@');

    report.messaging = false;
    out.clear();
    report.encode(&mut out);
    assert_eq!(out[0], b'/');
}

#[test]
fn info_field_layout() {
    let mut report = base_report();
    report.comment = Some(b"hello".to_vec());
    let mut out = Vec::new();
    report.encode(&mut out);
    assert_eq!(out, b"!4903.50N/07201.75Wnhello");
}
