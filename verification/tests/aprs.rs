use lanline::ax25::{encode_addr, encode_ui, message_info, ui_frame, Ax25Frame};
use lanline::hdlc::{append_fcs, fcs, frame_levels, pack_lsb, validate, Hdlc};

#[test]
fn round_trips_addresses_and_path() {
    let body = encode_ui("APRS", "KZ4AZ-7", &["WIDE1-1", "WIDE2-1"], b"!hello");
    let f = Ax25Frame::parse(&body).unwrap();
    assert_eq!(f.dest, "APRS");
    assert_eq!(f.source, "KZ4AZ-7");
    assert_eq!(f.digipeaters, vec!["WIDE1-1", "WIDE2-1"]);
    assert_eq!(f.info, b"!hello");
    assert_eq!(f.to_tnc2(), "KZ4AZ-7>APRS,WIDE1-1,WIDE2-1:!hello");
}

#[test]
fn rejects_non_ui_and_short_frames() {
    assert!(Ax25Frame::parse(b"too short").is_none());
    let mut body = encode_ui("APRS", "N0CALL", &[], b"x");
    body[14] = 0x00;
    assert!(Ax25Frame::parse(&body).is_none());
}

#[test]
fn message_info_pads_addressee_to_nine() {
    assert_eq!(message_info("KZ4AZ-2", "hi"), b":KZ4AZ-2  :hi");
    assert_eq!(message_info("n0call", "x"), b":N0CALL   :x");
}

#[test]
fn message_info_keeps_long_addressees_whole() {
    assert_eq!(message_info("abcdefghijk", "t"), b":ABCDEFGHIJK:t");
}

#[test]
fn encode_addr_shifts_pads_and_marks_the_last() {
    let a = encode_addr("KZ4AZ-7", false);
    assert_eq!(a, [b'K' << 1, b'Z' << 1, b'4' << 1, b'A' << 1, b'Z' << 1, b' ' << 1, 0x60 | (7 << 1)]);
    let b = encode_addr("APRS", true);
    assert_eq!(b[6], 0x61);
    assert_eq!(b[4], b' ' << 1);
}

#[test]
fn ui_frame_swaps_to_dest_first() {
    assert_eq!(ui_frame("N0CALL", "APRS", &["WIDE2-2"], b"x"), encode_ui("APRS", "N0CALL", &["WIDE2-2"], b"x"));
}

#[test]
fn repeated_digipeaters_carry_a_star() {
    let mut body = encode_ui("APRS", "N0CALL", &["WIDE1-1"], b">hi");
    body[20] |= 0x80;
    let f = Ax25Frame::parse(&body).unwrap();
    assert_eq!(f.digipeaters, vec!["WIDE1-1*"]);
    assert_eq!(f.to_tnc2(), "N0CALL>APRS,WIDE1-1*:>hi");
}

#[test]
fn fcs_is_appended_little_endian_and_checks() {
    let data = [0x01u8, 0x02, 0x03, 0x04];
    let with = append_fcs(&data);
    let f = fcs(&data);
    assert_eq!(with.len(), 6);
    assert_eq!(with[4], (f & 0xff) as u8);
    assert_eq!(with[5], (f >> 8) as u8);
}

#[test]
fn pack_lsb_rebuilds_octets() {
    let bits = [true, false, false, false, false, false, false, false, false, true, false, false, false, false, false, true];
    assert_eq!(pack_lsb(&bits), vec![0x01, 0x82]);
}

#[test]
fn modulated_frame_is_recovered_by_the_deframer() {
    let info = message_info("KZ4AZ-2", "ping from radio 0");
    let frame = ui_frame("KZ4AZ-1", "APZLNL", &[], &info);
    let levels = frame_levels(&frame, 8);
    let mut h = Hdlc::new();
    let mut got = Vec::new();
    for l in levels {
        if let Some(bits) = h.push(l) {
            if let Some(octets) = validate(&bits) {
                got.push(octets);
            }
        }
    }
    assert_eq!(got.len(), 1);
    assert_eq!(got[0], frame);
    let ax = Ax25Frame::parse(&got[0]).unwrap();
    assert_eq!(ax.source, "KZ4AZ-1");
    assert_eq!(ax.dest, "APZLNL");
    assert!(ax.digipeaters.is_empty());
    assert_eq!(ax.info, b":KZ4AZ-2  :ping from radio 0");
}

#[test]
fn validate_refuses_corrupt_frames() {
    let frame = encode_ui("APRS", "N0CALL", &[], b"!hello world");
    let with = append_fcs(&frame);
    let mut bits: Vec<bool> = with.iter().flat_map(|b| (0..8).map(move |i| (b >> i) & 1 == 1)).collect();
    assert_eq!(validate(&bits), Some(frame.clone()));
    bits[30] = !bits[30];
    assert_eq!(validate(&bits), None);
    assert_eq!(validate(&bits[..64]), None);
}

#[test]
fn deframer_hands_out_empties_then_the_packet_then_empties() {
    let frame = encode_ui("APRS", "N0CALL", &["WIDE1-1"], b"!status text here");
    let with = append_fcs(&frame);
    let expected: Vec<bool> = with.iter().flat_map(|b| (0..8).map(move |i| (b >> i) & 1 == 1)).collect();
    let mut h = Hdlc::new();
    let mut outs = Vec::new();
    for l in frame_levels(&frame, 5) {
        if let Some(bits) = h.push(l) {
            outs.push(bits);
        }
    }
    assert_eq!(outs.len(), 3 + 1 + 4);
    for (i, o) in outs.iter().enumerate() {
        if i == 3 {
            assert_eq!(o, &expected);
            assert_eq!(validate(o), Some(frame.clone()));
        } else {
            assert!(o.is_empty());
            assert_eq!(validate(o), None);
        }
    }
}
