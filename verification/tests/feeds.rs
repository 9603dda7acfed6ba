use lanline::beast::encode;
use lanline::recent::{push_recent, to_hex, HEX_RING};
use std::collections::VecDeque;

/// Signal byte for an RSSI, as the feed maps dBFS to a linear level.
fn level(rssi_dbfs: f32) -> u8 {
    (10f32.powf(rssi_dbfs / 20.0) * 255.0).clamp(1.0, 255.0) as u8
}

#[test]
fn frames_have_delimiter_type_and_escaping() {
    let f = encode(&[0x8d, 0x1a, 0x00], level(-10.0), 0x0102_0304_0506);
    assert!(f.is_empty());

    let frame = [0u8; 14];
    let b = encode(&frame, level(-10.0), 0x00_00_00_00_00_01);
    assert_eq!(b[0], 0x1a);
    assert_eq!(b[1], 0x33);
}

#[test]
fn escapes_0x1a_in_payload() {
    let mut frame = [0u8; 7];
    frame[0] = 0x1a;
    let b = encode(&frame, level(-6.0), 0);
    let payload = &b[2 + 6 + 1..];
    assert_eq!(payload[0], 0x1a);
    assert_eq!(payload[1], 0x1a);
    assert_eq!(payload[2], 0x00);
}

#[test]
fn timestamp_is_the_low_48_bits_big_endian() {
    let b = encode(&[0x5d, 0, 0, 0, 0, 0, 0], 0x42, 0xFFFF_0102_0304_0506);
    assert_eq!(&b[..9], &[0x1a, 0x32, 0x01, 0x02, 0x03, 0x04, 0x05, 0x06, 0x42]);
    assert_eq!(b.len(), 9 + 7);
    let c = encode(&[1, 2], 0x1a, 0x1a);
    assert_eq!(&c[..], &[0x1a, 0x31, 0, 0, 0, 0, 0, 0x1a, 0x1a, 0x1a, 0x1a, 1, 2]);
}

/// Collapses doubled delimiters, as a feed reader does.
fn unescape(s: &[u8]) -> Vec<u8> {
    let mut out = Vec::new();
    let mut i = 0;
    while i < s.len() {
        out.push(s[i]);
        if s[i] == 0x1a && i + 1 < s.len() && s[i + 1] == 0x1a {
            i += 2;
        } else {
            i += 1;
        }
    }
    out
}

#[test]
fn a_reader_recovers_the_frame() {
    let frame = [0x1a, 0x1a, 0x8d, 0x1a, 0, 1, 2, 3, 4, 5, 6, 7, 8, 0x1a];
    let b = encode(&frame, 200, 0x1a1a);
    let body = unescape(&b[2..]);
    assert_eq!(&body[..6], &[0, 0, 0, 0, 0x1a, 0x1a]);
    assert_eq!(body[6], 200);
    assert_eq!(&body[7..], &frame);
}

#[test]
fn hex_is_lower_case_two_digits_per_byte() {
    assert_eq!(to_hex(&[0x8d, 0x48, 0x40, 0xd6, 0x00, 0x0f]), "8d4840d6000f");
    assert_eq!(to_hex(&[]), "");
}

#[test]
fn recent_ring_drops_the_oldest_when_full() {
    let mut ring: VecDeque<String> = VecDeque::new();
    for i in 0..(HEX_RING + 3) {
        push_recent(&mut ring, i.to_string(), HEX_RING);
    }
    assert_eq!(ring.len(), HEX_RING);
    assert_eq!(ring.front().unwrap(), "3");
    assert_eq!(ring.back().unwrap(), &(HEX_RING + 2).to_string());
    let mut small: VecDeque<u8> = VecDeque::new();
    push_recent(&mut small, 1, 2);
    push_recent(&mut small, 2, 2);
    push_recent(&mut small, 3, 2);
    assert_eq!(small, VecDeque::from(vec![2, 3]));
}
