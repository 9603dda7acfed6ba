use lanline::mode_s::{crc, fix_single_bit, MeBody, ModeS};

fn hex(s: &str) -> Vec<u8> {
    (0..s.len()).step_by(2).map(|i| u8::from_str_radix(&s[i..i + 2], 16).unwrap()).collect()
}

fn adsb(frame: &str) -> lanline::mode_s::AdsbMessage {
    match ModeS::parse(&hex(frame), true) {
        Some(ModeS::Adsb(m)) => m,
        other => panic!("not adsb: {other:?}"),
    }
}

#[test]
fn crc_of_valid_df17_is_zero() {
    for m in [
        "8D4840D6202CC371C32CE0576098",
        "8D40621D58C382D690C8AC2863A7",
        "8D40621D58C386435CC412692AD6",
        "8D485020994409940838175B284F",
    ] {
        assert_eq!(crc(&hex(m)), 0, "{m}");
    }
}

#[test]
fn identification() {
    let m = adsb("8D4840D6202CC371C32CE0576098");
    assert_eq!(m.icao, 0x48_40D6);
    assert_eq!(m.type_code, 4);
    let MeBody::Identification { callsign, category } = m.body else { panic!("{:?}", m.body) };
    assert_eq!(callsign, "KLM1023");
    assert_eq!(category, "none");
}

#[test]
fn airborne_position_altitude_and_cpr() {
    let even = adsb("8D40621D58C382D690C8AC2863A7");
    let MeBody::AirbornePosition { altitude_ft, cpr_odd, lat_cpr, lon_cpr } = even.body else {
        panic!()
    };
    assert_eq!(altitude_ft, Some(38000));
    assert!(!cpr_odd);
    assert_eq!(lat_cpr, 93000);
    assert_eq!(lon_cpr, 51372);

    let odd = adsb("8D40621D58C386435CC412692AD6");
    let MeBody::AirbornePosition { cpr_odd, lat_cpr, lon_cpr, .. } = odd.body else { panic!() };
    assert!(cpr_odd);
    assert_eq!(lat_cpr, 74158);
    assert_eq!(lon_cpr, 50194);
}

#[test]
fn velocity() {
    let m = adsb("8D485020994409940838175B284F");
    assert_eq!(m.type_code, 19);
    let MeBody::Velocity { ground_velocity_kt, vertical_rate_fpm } = m.body else { panic!() };
    let (east, north) = ground_velocity_kt.unwrap();
    let (e, n) = (east as f64, north as f64);
    let ground_speed_kt = (e * e + n * n).sqrt();
    let mut track_deg = e.atan2(n).to_degrees();
    if track_deg < 0.0 {
        track_deg += 360.0;
    }
    assert!((ground_speed_kt - 159.20).abs() < 0.5, "{ground_speed_kt}");
    assert!((track_deg - 182.88).abs() < 0.5, "{track_deg}");
    assert_eq!(vertical_rate_fpm, Some(-832));
}

#[test]
fn velocity_components_are_exact() {
    let m = adsb("8D485020994409940838175B284F");
    let MeBody::Velocity { ground_velocity_kt, .. } = m.body else { panic!() };
    assert_eq!(ground_velocity_kt, Some((-8, -159)));
}

#[test]
fn single_bit_correction() {
    let mut f = [0u8; 14];
    f.copy_from_slice(&hex("8D4840D6202CC371C32CE0576098"));
    f[5] ^= 0x08;
    assert!(ModeS::parse(&f, false).is_none());
    let fixed = ModeS::parse(&f, true);
    assert!(matches!(fixed, Some(ModeS::Adsb(_))));
}

#[test]
fn rejects_garbage() {
    assert!(ModeS::parse(&hex("8D4840D6202CC371C32CE0576099"), false).is_none());
    let mut two = hex("8D4840D6202CC371C32CE0576098");
    two[2] ^= 0x01;
    two[9] ^= 0x40;
    assert!(ModeS::parse(&two, true).is_none());
    assert!(ModeS::parse(&[0u8; 14], true).is_none());
    assert!(ModeS::parse(&[0xff; 14], true).is_none());
}

#[test]
fn fix_single_bit_repairs_every_position() {
    let good = hex("8D40621D58C382D690C8AC2863A7");
    for bit in 0..112 {
        let mut f = [0u8; 14];
        f.copy_from_slice(&good);
        f[bit / 8] ^= 0x80 >> (bit % 8);
        assert_ne!(crc(&f), 0);
        assert!(fix_single_bit(&mut f), "bit {bit}");
        assert_eq!(&f[..], &good[..]);
    }
}

#[test]
fn fix_single_bit_leaves_unrepairable_frames() {
    let mut f = [0u8; 14];
    f.copy_from_slice(&hex("8D4840D6202CC371C32CE0576098"));
    f[2] ^= 0x01;
    f[9] ^= 0x40;
    let before = f;
    assert!(!fix_single_bit(&mut f));
    assert_eq!(f, before);
}

#[test]
fn crc_is_linear_over_xor() {
    let a = hex("8D4840D6202CC371C32CE0576098");
    let b = hex("8D40621D58C382D690C8AC2863A7");
    let x: Vec<u8> = a.iter().zip(&b).map(|(p, q)| p ^ q).collect();
    assert_eq!(crc(&x), crc(&a) ^ crc(&b));
}

#[test]
fn short_frames_keep_df_and_address() {
    // DF11 all-call reply whose parity field carries the address.
    let mut f = hex("5D4840D6000000");
    let c = crc(&f[..4]);
    f[4] = (c >> 16) as u8;
    f[5] = (c >> 8) as u8;
    f[6] = c as u8;
    match ModeS::parse(&f, false) {
        Some(ModeS::Other { df, icao }) => {
            assert_eq!(df, 11);
            assert_eq!(icao, Some(0x48_40D6));
        }
        other => panic!("{other:?}"),
    }
}

#[test]
fn one_flipped_bit_parses_like_the_original() {
    let good = hex("8D4840D6202CC371C32CE0576098");
    let want = ModeS::parse(&good, true);
    assert!(matches!(want, Some(ModeS::Adsb(_))));
    for bit in 5..112 {
        let mut f = good.clone();
        f[bit / 8] ^= 0x80 >> (bit % 8);
        assert_eq!(ModeS::parse(&f, false), None, "bit {bit}");
        assert_eq!(ModeS::parse(&f, true), want, "bit {bit}");
    }
    assert_eq!(ModeS::parse(&[], true), None);
}
