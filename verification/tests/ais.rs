use lanline::ais::{
    armor, armor_value, fcs_ok, nav_status_label, nmea_checksum, ship_type_label, unarmor,
    unarmor_char, AisMessage, Bits,
};
use lanline::ais_link::{validate, Hdlc};
use lanline::nmea::aivdm;

const TYPE1: &str = "177KQJ5000G?tO`K>RA1wUbN0TKH";

fn fcs_of(octets: &[u8]) -> u16 {
    let mut crc: u16 = 0xFFFF;
    for &b in octets {
        crc ^= b as u16;
        for _ in 0..8 {
            crc = if crc & 1 != 0 { (crc >> 1) ^ 0x8408 } else { crc >> 1 };
        }
    }
    !crc
}

#[test]
fn nmea_checksum_matches() {
    assert_eq!(nmea_checksum("AIVDM,1,1,,B,177KQJ5000G?tO`K>RA1wUbN0TKH,0"), 0x5C);
}

#[test]
fn armor_round_trip() {
    let payload = TYPE1;
    let (bytes, len) = unarmor(payload, 0).unwrap();
    let bits: Vec<bool> = (0..len).map(|i| (bytes[i / 8] >> (7 - i % 8)) & 1 == 1).collect();
    let (again, fill) = armor(&bits);
    assert_eq!(again, payload);
    assert_eq!(fill, 0);
}

#[test]
fn parses_type1_position() {
    let (bytes, len) = unarmor(TYPE1, 0).unwrap();
    let b = Bits::new(&bytes, len);
    let m = AisMessage::parse(&b).unwrap();
    let AisMessage::Position { mmsi, pos } = m else { panic!("{m:?}") };
    assert_eq!(mmsi, 477553000);
    assert_eq!(pos.nav_status, Some(5));
    assert!(!pos.class_b);
    let lat = pos.lat_raw as f64 / 600_000.0;
    let lon = pos.lon_raw as f64 / 600_000.0;
    assert!((lat - 47.5828).abs() < 1e-3, "lat {lat}");
    assert!((lon + 122.3458).abs() < 1e-3, "lon {lon}");
    assert_eq!(pos.sog_tenths_kt.map(|v| v as f64 / 10.0), Some(0.0));
    let cog = pos.cog_tenths_deg.map(|v| v as f64 / 10.0);
    assert!((cog.unwrap() - 51.0).abs() < 0.1, "cog {cog:?}");
    assert_eq!(pos.heading_deg.map(|v| v as f64), Some(181.0));
}

#[test]
fn parses_type5_static() {
    let payload = "55?MbV02;H;s<HtKR20EHE:0@T4@Dn2222222216L961O5Gf0NSQEp6ClRp88888888880";
    let (bytes, len) = unarmor(payload, 2).unwrap();
    let b = Bits::new(&bytes, len);
    let m = AisMessage::parse(&b).unwrap();
    let AisMessage::Static { mmsi, data } = m else { panic!("{m:?}") };
    assert_eq!(mmsi, 351759000);
    assert_eq!(data.imo, Some(9134270));
    assert_eq!(data.callsign.as_deref(), Some("3FOF8"));
    assert_eq!(data.name.as_deref(), Some("EVER DIADEM"));
    assert_eq!(data.ship_type, Some(70));
}

#[test]
fn fcs_residual() {
    let mut octets = vec![0x01, 0x02, 0x03, 0x04];
    let fcs = fcs_of(&octets);
    octets.push((fcs & 0xff) as u8);
    octets.push((fcs >> 8) as u8);
    assert!(fcs_ok(&octets));
    octets[0] ^= 0x01;
    assert!(!fcs_ok(&octets));
}

#[test]
fn aivdm_round_trips_a_known_payload() {
    let (bytes, len) = unarmor(TYPE1, 0).unwrap();
    let s = aivdm(&bytes, len, 'A');
    assert!(s.starts_with("!AIVDM,1,1,,A,177KQJ5000G?tO`K>RA1wUbN0TKH,0*"));
    assert!(s.ends_with("\r\n"));
    let star = s.rfind('*').unwrap();
    assert_eq!(s[star + 1..star + 3].chars().filter(|c| c.is_ascii_hexdigit()).count(), 2);
}

#[test]
fn aivdm_checksum_is_the_body_xor_in_upper_hex() {
    let (bytes, len) = unarmor(TYPE1, 0).unwrap();
    let s = aivdm(&bytes, len, 'B');
    assert_eq!(s, "!AIVDM,1,1,,B,177KQJ5000G?tO`K>RA1wUbN0TKH,0*5C\r\n");
}

#[test]
fn unarmor_refuses_bad_characters_and_fill() {
    assert!(unarmor("177KQJ\u{7f}", 0).is_none());
    assert_eq!(unarmor("1", 7), Some((vec![], 0)));
    let (bytes, len) = unarmor("w", 0).unwrap();
    assert_eq!(len, 6);
    assert_eq!(bytes, vec![0xFC]);
    let (_, len) = unarmor("ww", 2).unwrap();
    assert_eq!(len, 10);
}

#[test]
fn sixbit_alphabet_round_trips() {
    for v in 0u8..64 {
        assert_eq!(unarmor_char(armor_value(v)), Some(v));
    }
    assert_eq!(armor_value(0), b'0');
    assert_eq!(armor_value(40), b'`');
    assert_eq!(unarmor_char(b'X'), Some(40));
    assert_eq!(unarmor_char(b'`'), Some(40));
    assert_eq!(unarmor_char(b'!'), None);
}

#[test]
fn armor_pads_to_whole_characters() {
    let (s, fill) = armor(&[true, false, true]);
    assert_eq!(fill, 3);
    assert_eq!(s, "`");
    let (s, fill) = armor(&[]);
    assert_eq!((s.as_str(), fill), ("", 0));
}

#[test]
fn labels() {
    assert_eq!(ship_type_label(70), "Cargo");
    assert_eq!(ship_type_label(89), "Tanker");
    assert_eq!(ship_type_label(0), "Unknown");
    assert_eq!(nav_status_label(0), "under way (engine)");
    assert_eq!(nav_status_label(5), "moored");
}

#[test]
fn bits_reads_fields_msb_first() {
    let data = [0b1010_0000u8, 0xFF];
    let b = Bits::new(&data, 16);
    assert_eq!(b.len(), 16);
    assert_eq!(b.u(0, 4), 0b1010);
    assert_eq!(b.u(8, 8), 255);
    assert_eq!(b.i(8, 8), -1);
    assert_eq!(b.i(0, 3), -3);
    assert_eq!(b.u(12, 8), 0b1111_0000);
}

/// Sends `octets` + FCS through NRZI and HDLC framing as an AIS station
/// would, then feeds the line levels through the deframer.
fn line_levels(octets: &[u8]) -> Vec<bool> {
    burst_levels(octets, 3)
}

fn burst_levels(octets: &[u8], lead_flags: usize) -> Vec<bool> {
    let mut data = octets.to_vec();
    let f = fcs_of(octets);
    data.push((f & 0xff) as u8);
    data.push((f >> 8) as u8);
    let mut bits = Vec::new();
    for _ in 0..lead_flags {
        bits.extend([false, true, true, true, true, true, true, false]);
    }
    let mut ones = 0;
    for b in &data {
        for i in 0..8 {
            let bit = (b >> i) & 1 == 1;
            bits.push(bit);
            if bit {
                ones += 1;
                if ones == 5 {
                    bits.push(false);
                    ones = 0;
                }
            } else {
                ones = 0;
            }
        }
    }
    bits.extend([false, true, true, true, true, true, true, false]);
    let mut level = false;
    let mut out = Vec::new();
    for bit in bits {
        if !bit {
            level = !level;
        }
        out.push(level);
    }
    out
}

#[test]
fn deframer_recovers_a_frame_that_validates() {
    let (payload, len) = unarmor(TYPE1, 0).unwrap();
    let mut h = Hdlc::new();
    let mut frames = Vec::new();
    for l in line_levels(&payload) {
        if let Some(f) = h.push(l) {
            frames.push(f);
        }
    }
    let good: Vec<_> = frames.iter().filter_map(|f| validate(f)).collect();
    assert_eq!(good.len(), 1);
    assert_eq!(good[0].0, payload);
    assert_eq!(good[0].1, len);
}

#[test]
fn validate_refuses_short_odd_and_corrupt_frames() {
    assert!(validate(&[true; 39]).is_none());
    assert!(validate(&[true; 41]).is_none());
    let mut octets = vec![1u8, 2, 3, 4];
    let f = fcs_of(&octets);
    octets.push((f & 0xff) as u8);
    octets.push((f >> 8) as u8);
    let mut bits: Vec<bool> = octets.iter().flat_map(|b| (0..8).map(move |i| (b >> i) & 1 == 1)).collect();
    let (p, n) = validate(&bits).unwrap();
    assert_eq!(p, vec![1, 2, 3, 4]);
    assert_eq!(n, 32);
    bits[3] = !bits[3];
    assert!(validate(&bits).is_none());
}

#[test]
fn one_burst_gives_exactly_one_frame() {
    let (payload, len) = unarmor(TYPE1, 0).unwrap();
    let mut h = Hdlc::new();
    let frames: Vec<Vec<bool>> = burst_levels(&payload, 1).into_iter().filter_map(|l| h.push(l)).collect();
    assert_eq!(frames.len(), 1);
    assert_eq!(validate(&frames[0]), Some((payload.clone(), len)));
}

#[test]
fn nmea_checksum_of_a_concatenation_is_the_xor() {
    let a = "AIVDM,1,1,,B,";
    let b = "177KQJ5000G?tO`K>RA1wUbN0TKH,0";
    assert_eq!(nmea_checksum(&format!("{a}{b}")), nmea_checksum(a) ^ nmea_checksum(b));
    assert_eq!(nmea_checksum(""), 0);
}
