use lanline::aprs::{
    as_str, parse_compressed, parse_message, parse_mice, parse_uncompressed, AprsPayload, CompressedExt, MicE,
    UncompressedPos,
};
use lanline::ax25::{encode_ui, Ax25Frame};

fn payload(dest: &str, src: &str, info: &[u8]) -> AprsPayload {
    let body = encode_ui(dest, src, &[], info);
    AprsPayload::parse(&Ax25Frame::parse(&body).unwrap())
}

fn mice_lat_lon(m: &MicE) -> (f64, f64) {
    let d = m.lat_digits;
    let lat_deg = d[0] as f64 * 10.0 + d[1] as f64;
    let lat_min = d[2] as f64 * 10.0 + d[3] as f64 + (d[4] as f64 * 10.0 + d[5] as f64) / 100.0;
    let mut lat = lat_deg + lat_min / 60.0;
    if m.south {
        lat = -lat;
    }
    let mut lon = m.lon_deg as f64 + (m.lon_min as f64 + m.lon_hmin as f64 / 100.0) / 60.0;
    if m.west {
        lon = -lon;
    }
    (lat, lon)
}

#[test]
fn status_and_message() {
    match payload("APRS", "N0CALL", b">Net control tonight") {
        AprsPayload::Status(comment) => assert_eq!(comment, "Net control tonight"),
        other => panic!("{other:?}"),
    }
    match payload("APRS", "N0CALL", b":KZ4AZ    :ping{1") {
        AprsPayload::Message(m) => {
            assert_eq!(m.to, "KZ4AZ");
            assert_eq!(m.text, "ping{1");
        }
        other => panic!("{other:?}"),
    }
}

#[test]
fn mice_position_decodes() {
    let p = payload("T1PSST", "KZ4AZ-9", b"`(_fn\"O/`\"4T}");
    let AprsPayload::MicE(m) = p else { panic!("{p:?}") };
    let (lat, lon) = mice_lat_lon(&m);
    assert!(lat.abs() <= 90.0 && lon.abs() <= 180.0);
    assert_eq!(m.lat_digits, [4, 1, 0, 3, 3, 4]);
    assert!(!m.south);
    assert!(m.west);
    assert_eq!(m.symbol_code, b'/');
    assert_eq!(m.symbol_table, b'`');
    assert_eq!(m.altitude_m, Some((b'"' as i64 - 33) * 8281 + (b'4' as i64 - 33) * 91 + (b'T' as i64 - 33) - 10000));
    assert_eq!(m.comment, "");
}

#[test]
fn mice_refuses_bad_destinations_and_short_bodies() {
    assert!(parse_mice("T1PSS", b"(_fn\"O/`").is_none());
    assert!(parse_mice("T1PSSa", b"(_fn\"O/`").is_none());
    assert!(parse_mice("T1PSST", b"(_fn\"O/").is_none());
    assert!(parse_mice("T1PSST-7", b"(_fn\"O/`").is_some());
    // 99 degrees of latitude is out of range.
    assert!(parse_mice("99PSST", b"(_fn\"O/`").is_none());
}

#[test]
fn mice_speed_and_course_use_truncating_arithmetic() {
    // sp = 'l'-28 = 80, dc = '!'-28 = 5, se = '@'-28 = 36.
    let m = parse_mice("T1PSST", b"(_fl!@>/ hello ").unwrap();
    assert_eq!(m.speed_kt, 0);
    assert_eq!(m.course_deg, 536 - 400);
    assert_eq!(m.altitude_m, None);
    assert_eq!(m.comment, "hello");
}

#[test]
fn compressed_position_fields() {
    let c = parse_compressed(b"/5L!!<*e7>7P[ comment").unwrap();
    assert_eq!(c.symbol_table, b'/');
    assert_eq!(c.symbol_code, b'>');
    let y = (b'5' as i64 - 33) * 753571 + (b'L' as i64 - 33) * 8281 + 0 + 0;
    assert_eq!(c.y, y);
    assert_eq!(c.ext, CompressedExt::CourseSpeed { course_deg: (b'7' as i64 - 33) * 4, speed_code: b'P' as i64 - 33 });
    assert_eq!(c.comment, "comment");
    let lat = 90.0 - c.y as f64 / 380926.0;
    let lon = -180.0 + c.x as f64 / 190463.0;
    assert!(lat.abs() <= 90.0 && lon.abs() <= 180.0);
    assert!(parse_compressed(b"5L!!<*e7>7P[").is_none());
    assert!(parse_compressed(b"!5L!!<*e7>7P[").is_none());
}

#[test]
fn positions_dispatch_by_type_byte() {
    assert!(matches!(payload("APRS", "N0CALL", b"!2934.55N/08221.30W>"), AprsPayload::Uncompressed(_)));
    assert!(matches!(payload("APRS", "N0CALL", b"@092345z2934.55N/08221.30W>"), AprsPayload::Uncompressed(_)));
    assert_eq!(payload("APRS", "N0CALL", b"!2934.55X/08221.30W>"), AprsPayload::Other(String::new()));
    assert_eq!(payload("APRS", "N0CALL", b"!2934.55N/08221.30W"), AprsPayload::Other(String::new()));
    assert!(matches!(payload("APRS", "N0CALL", b"=/5L!!<*e7>7P["), AprsPayload::Compressed(_)));
    assert_eq!(payload("APRS", "N0CALL", b"/12"), AprsPayload::Other(String::new()));
    assert_eq!(payload("APRS", "N0CALL", b"  T#005 "), AprsPayload::Other("T#005".to_string()));
    assert_eq!(payload("APRS", "N0CALL", b":short"), AprsPayload::Other(String::new()));
}

#[test]
fn as_str_keeps_utf8_and_drops_the_rest() {
    assert_eq!(as_str("héllo".as_bytes()), "héllo");
    assert_eq!(as_str(&[0xff, 0x41]), "");
    assert_eq!(parse_message("AB       :x \u{3000}".as_bytes()).unwrap().text, "x");
}

/// Degrees, knots and feet of an uncompressed position, read as the
/// caller reads the text fields.
fn uncompressed_numbers(u: &UncompressedPos) -> (f64, f64, Option<(f64, f64)>, Option<f64>) {
    let angle = |deg: &str, min: &str, neg: bool| {
        let v = deg.trim().parse::<f64>().unwrap() + min.parse::<f64>().unwrap() / 60.0;
        if neg { -v } else { v }
    };
    let cs = u.course_speed.as_ref().map(|(c, s)| (c.parse::<f64>().unwrap(), s.parse::<f64>().unwrap()));
    let alt = u.altitude.as_ref().and_then(|a| a.parse::<f64>().ok());
    (angle(&u.lat_deg, &u.lat_min, u.south), angle(&u.lon_deg, &u.lon_min, u.west), cs, alt)
}

#[test]
fn uncompressed_position_with_course_speed_altitude() {
    let u = match payload("APRS", "KZ4AZ", b"!2934.55N/08221.30W>088/036/A=000350 hi") {
        AprsPayload::Uncompressed(u) => u,
        other => panic!("{other:?}"),
    };
    let (lat, lon, cs, alt) = uncompressed_numbers(&u);
    assert!((lat - 29.5758).abs() < 1e-3);
    assert!((lon + 82.355).abs() < 1e-3);
    assert_eq!(u.symbol_table as char, '/');
    assert_eq!(u.symbol_code as char, '>');
    assert_eq!(cs, Some((88.0, 36.0)));
    assert_eq!(alt, Some(350.0));
    assert!(u.comment.contains("hi"));
}

#[test]
fn uncompressed_layout_fields_and_short_altitude() {
    let u = parse_uncompressed(b"2934.55S\\08221.30E#088/036 /A=000350 x ").unwrap();
    assert_eq!(u.lat_deg, "29");
    assert_eq!(u.lat_min, "34.55");
    assert!(u.south);
    assert_eq!(u.symbol_table, b'\\');
    assert_eq!(u.lon_deg, "082");
    assert_eq!(u.lon_min, "21.30");
    assert!(!u.west);
    assert_eq!(u.symbol_code, b'#');
    assert_eq!(u.course_speed, Some(("088".to_string(), "036".to_string())));
    assert_eq!(u.altitude, Some("000350".to_string()));
    assert_eq!(u.comment, "088/036 /A=000350 x");
    // altitude text cut short: no altitude, and no panic
    let u = parse_uncompressed(b"2934.55N/08221.30W>/A=1").unwrap();
    assert_eq!(u.altitude, None);
    assert_eq!(u.course_speed, None);
    assert_eq!(u.comment, "/A=1");
    // a multi-byte character across a field edge is refused, not a panic
    assert!(parse_uncompressed("2\u{e9}34.5N/08221.30W>".as_bytes()).is_none());
    assert!(parse_uncompressed(b"2934.55N/08221.30W").is_none());
}
