//! Bitstream and HDLC framing tests.

use aprs_beacon::bitstream::Bitstream;
use aprs_beacon::hdlc::{build_on_air, encode_on_air};

fn pull_all<const N: usize>(bs: &mut Bitstream<N>) -> Vec<bool> {
    let mut out = Vec::new();
    while let Some(bit) = bs.pull_bit() {
        out.push(bit);
    }
    out
}

const FLAG_BITS: [bool; 8] = [false, true, true, true, true, true, true, false];

#[test]
fn bitstream_write_then_read_round_trip() {
    let pattern = [true, false, true, true, false, false, true, false, true, true, true];
    let mut bs = Bitstream::<4>::new();
    for &b in pattern.iter() {
        bs.push_bit(b).unwrap();
    }
    assert_eq!(bs.len_bits(), pattern.len());
    bs.finish().unwrap();
    assert_eq!(bs.len_bits(), pattern.len());
    let bits = pull_all(&mut bs);
    // The first eleven bits read back are exactly the bits written; the
    // rest is the zero padding of the flushed partial byte.
    assert_eq!(&bits[..pattern.len()], &pattern);
    assert_eq!(bits.len(), 16);
    assert!(bits[pattern.len()..].iter().all(|&b| !b));
}

#[test]
fn bitstream_reports_capacity_and_rejects_overflow() {
    let mut bs = Bitstream::<1>::new();
    assert_eq!(bs.capacity_bits(), 8);
    for _ in 0..8 {
        bs.push_bit(true).unwrap();
    }
    assert!(bs.push_bit(true).is_err());
    assert_eq!(bs.len_bits(), 8);
}

#[test]
fn bitstream_finish_is_idempotent_and_pads_to_a_byte() {
    let mut bs = Bitstream::<4>::new();
    for _ in 0..3 {
        bs.push_bit(true).unwrap();
    }
    bs.finish().unwrap();
    let (bytes, len) = bs.as_bytes();
    // Exactly one byte stores the three written bits, zero padded.
    assert_eq!(bytes, &[0x07]);
    assert_eq!(len, 3);
    // A second finish changes nothing.
    bs.finish().unwrap();
    let (bytes, len) = bs.as_bytes();
    assert_eq!(bytes, &[0x07]);
    assert_eq!(len, 3);
}

#[test]
fn bitstream_as_bytes_packs_lsb_first() {
    let mut bs = Bitstream::<2>::new();
    // 0x01 = bit 0 set only.
    for i in 0..8 {
        bs.push_bit(i == 0).unwrap();
    }
    bs.finish().unwrap();
    let (bytes, len) = bs.as_bytes();
    assert_eq!(bytes, &[0x01]);
    assert_eq!(len, 8);
}

#[test]
fn hdlc_all_zero_payload_needs_no_stuffing() {
    // One preamble flag, four zero bytes, one trailing flag: 48 bits.
    let mut bs = encode_on_air::<64>(&[0, 0, 0, 0], 1, 1).expect("encode");
    assert_eq!(bs.len_bits(), 48);
    let bits = pull_all(&mut bs);
    assert_eq!(bits.len(), 48);
    assert_eq!(&bits[0..8], &FLAG_BITS);
    assert!(bits[8..40].iter().all(|&b| !b));
    assert_eq!(&bits[40..48], &FLAG_BITS);
}

#[test]
fn hdlc_stuffs_zero_after_five_ones() {
    // A single 0xFF byte: after the fifth one a zero is stuffed, so the
    // payload region holds exactly nine bits.
    let mut bs = encode_on_air::<64>(&[0xFF], 1, 1).expect("encode");
    assert_eq!(bs.len_bits(), 8 + 9 + 8);
    let bits = pull_all(&mut bs);
    assert_eq!(&bits[0..8], &FLAG_BITS);
    let payload = &bits[8..17];
    assert_eq!(
        payload,
        &[true, true, true, true, true, false, true, true, true],
    );
    assert_eq!(&bits[17..25], &FLAG_BITS);
    // NRZI with an initial mark level: the ones keep the level at mark,
    // the stuffed zero toggles to space, and the final ones hold space.
    let mut level = false;
    let mut levels = Vec::new();
    for &b in payload.iter() {
        if !b {
            level = !level;
        }
        levels.push(level);
    }
    assert_eq!(
        levels,
        vec![false, false, false, false, false, true, true, true, true],
    );
}

#[test]
fn hdlc_flags_are_verbatim_around_stuffed_payload() {
    // 0x7E as payload data gets stuffed (six ones in a row), while the
    // preamble and trailing flags stay exact 01111110 patterns.
    let mut bs = encode_on_air::<64>(&[0x7E], 2, 2).expect("encode");
    let bits = pull_all(&mut bs);
    assert_eq!(&bits[0..8], &FLAG_BITS);
    assert_eq!(&bits[8..16], &FLAG_BITS);
    // Payload 01111110 stuffed: 011111 + stuffed 0 + 10.
    let payload = &bits[16..25];
    assert_eq!(
        payload,
        &[false, true, true, true, true, true, false, true, false],
    );
    assert_eq!(&bits[25..33], &FLAG_BITS);
    assert_eq!(&bits[33..41], &FLAG_BITS);
    // No six consecutive ones anywhere in the payload region.
    for w in payload.windows(6) {
        assert!(w.iter().any(|&b| !b));
    }
}

#[test]
fn build_on_air_wraps_a_frame_with_configured_flags() {
    let frame = [0x12, 0x34, 0x56];
    let mut bs = build_on_air(&frame).expect("build");
    let bits = pull_all(&mut bs);
    // Twenty preamble flags, 24 payload bits (no stuffing for this data),
    // two trailing flags, plus the padding of the final partial byte.
    assert_eq!(bs.len_bits(), 20 * 8 + 24 + 2 * 8);
    for k in 0..20 {
        assert_eq!(&bits[8 * k..8 * k + 8], &FLAG_BITS);
    }
    // 0x12 LSB-first: 01001000.
    assert_eq!(
        &bits[160..168],
        &[false, true, false, false, true, false, false, false],
    );
}

#[test]
fn encode_on_air_rejects_too_small_capacity() {
    assert!(encode_on_air::<2>(&[0, 0, 0, 0], 1, 1).is_err());
    assert!(encode_on_air::<6>(&[0, 0, 0, 0], 1, 1).is_ok());
}
