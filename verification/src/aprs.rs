//! APRS information-field decoding: the packet kinds, text messages,
//! status reports, and the integer layers of the MIC-E and compressed
//! position encodings (the degrees, knots and feet they stand for are
//! floating-point conversions made by the caller).

use vstd::prelude::*;
use vstd::string::StringSliceAdditionalSpecFns;
use vstd::utf8::{decode_utf8, valid_utf8};
use crate::ax25::{lossy_utf8, utf8_lossy};
use crate::text::{
    trim_white, chars_of, string_from_chars, trim_by, trim_end_by, trim_end_white_vec, trim_white_vec,
    unicode_white_space,
};

verus! {

/// What an APRS packet carries.
#[derive(Debug, Clone, Copy, PartialEq, Eq, Structural)]
pub enum AprsKind {
    Position,
    Status,
    Message,
    Other,
}

/// `std::str::from_utf8`: the bytes as a string slice exactly when they
/// are valid UTF-8.
#[verifier::external_body]
fn str_from_utf8(b: &[u8]) -> (r: Option<&str>)
    ensures
        r is Some <==> valid_utf8(b@),
        r matches Some(s) ==> s.spec_bytes() == b@,
{
    std::str::from_utf8(b).ok()
}

/// The text of a byte string: its decoding when it is valid UTF-8, else
/// nothing.
pub open spec fn text_of(b: Seq<u8>) -> Seq<char> {
    if valid_utf8(b) {
        decode_utf8(b)
    } else {
        Seq::empty()
    }
}

/// The bytes as text, or `""` when they are not UTF-8.
pub fn as_str(b: &[u8]) -> (s: &str)
    ensures
        s@ == text_of(b@),
{
    match str_from_utf8(b) {
        Some(s) => {
            proof {
                vstd::utf8::encode_utf8_decode_utf8(s@);
            }
            s
        },
        None => {
            proof {
                reveal_strlit("");
            }
            ""
        },
    }
}

/// The sub-slice `b[lo..hi]`.
fn sub_slice(b: &[u8], lo: usize, hi: usize) -> (r: &[u8])
    requires
        lo <= hi <= b@.len(),
    ensures
        r@ == b@.subrange(lo as int, hi as int),
{
    vstd::slice::slice_subrange(b, lo, hi)
}

/// A text message: addressee and text.
#[derive(Debug, Clone, PartialEq, Eq)]
pub struct AprsMessage {
    pub to: String,
    pub text: String,
}

/// `:ADDRESSEE:text` (the addressee padded to nine characters): the
/// addressee trimmed and the text without trailing white space; `None`
/// unless the body is UTF-8 of at least 11 bytes with `:` at byte 9.
pub open spec fn message_of(body: Seq<u8>) -> Option<(Seq<char>, Seq<char>)> {
    if valid_utf8(body) && body.len() >= 11 && body[9] == 58 {
        Some(
            (
                trim_by(text_of(body.subrange(0, 9)), unicode_white_space()),
                trim_end_by(text_of(body.subrange(10, body.len() as int)), unicode_white_space()),
            ),
        )
    } else {
        None
    }
}

/// Decodes the body of a `:` message packet.
pub fn parse_message(body: &[u8]) -> (r: Option<AprsMessage>)
    ensures
        match r {
            Some(m) => message_of(body@) == Some((m.to@, m.text@)),
            None => message_of(body@) is None,
        },
{
    let s = as_str(body);
    if !(str_from_utf8(body).is_some() && body.len() >= 11 && body[9] == 58u8) {
        return None;
    }
    let to_chars = chars_of(as_str(sub_slice(body, 0, 9)));
    let to = trim_white_vec(&to_chars);
    let text_chars = chars_of(as_str(sub_slice(body, 10, body.len())));
    let text = trim_end_white_vec(&text_chars);
    Some(AprsMessage { to: string_from_chars(to.as_slice()), text: string_from_chars(text.as_slice()) })
}

/// A status report's text: the body, lossily decoded, trimmed.
pub fn status_text(body: &[u8]) -> (s: String)
    ensures
        s@ == trim_by(lossy_utf8(body@), unicode_white_space()),
        valid_utf8(body@) ==> s@ == trim_by(decode_utf8(body@), unicode_white_space()),
{
    let t = utf8_lossy(body);
    let c = chars_of(t.as_str());
    let tr = trim_white_vec(&c);
    string_from_chars(tr.as_slice())
}

// --- MIC-E ------------------------------------------------------------------

/// The digit a MIC-E destination character carries: `0-9`, `A-J`, `P-Y`
/// give 0..9; `K`, `L`, `Z` stand for 0; anything else is not MIC-E.
pub open spec fn mice_digit(c: u8) -> Option<u8> {
    if 48 <= c <= 57 {
        Some((c - 48) as u8)
    } else if 65 <= c <= 74 {
        Some((c - 65) as u8)
    } else if 80 <= c <= 89 {
        Some((c - 80) as u8)
    } else if c == 75 || c == 76 || c == 90 {
        Some(0u8)
    } else {
        None
    }
}

/// Whether a MIC-E destination character is a "standard" one (`0-9`, `L`,
/// `P-Z`), which sets the message bit it carries the other way.
pub open spec fn mice_std(c: u8) -> bool {
    (48 <= c <= 57) || c == 76 || (80 <= c <= 90)
}

/// Index of the first `-` in `b`, or its length.
pub open spec fn dash_or_end(b: Seq<u8>) -> int
    decreases b.len(),
{
    if b.len() == 0 {
        0
    } else if b[0] == 45 {
        0
    } else {
        1 + dash_or_end(b.drop_first())
    }
}

/// The destination callsign's first six bytes before any SSID.
pub open spec fn mice_call(dest: Seq<u8>) -> Seq<u8> {
    let k = dash_or_end(dest);
    if k <= 6 {
        dest.take(k)
    } else {
        dest.take(6)
    }
}

/// Rust's `a / b` for `b > 0` (towards zero).
pub open spec fn div_trunc(a: int, b: int) -> int {
    if a >= 0 {
        a / b
    } else {
        -((-a) / b)
    }
}

/// Rust's `a % b` for `b > 0` (sign of `a`).
pub open spec fn rem_trunc(a: int, b: int) -> int {
    a - b * div_trunc(a, b)
}

/// The integer content of a MIC-E position.
#[derive(Debug, Clone, PartialEq, Eq)]
pub struct MicE {
    /// Latitude digits DDMMhh from the destination call.
    pub lat_digits: [u8; 6],
    pub south: bool,
    pub lon_deg: i32,
    pub lon_min: i32,
    /// Hundredths of a minute of longitude.
    pub lon_hmin: i32,
    pub west: bool,
    pub speed_kt: i32,
    pub course_deg: i32,
    pub symbol_code: u8,
    pub symbol_table: u8,
    /// Altitude in metres from the optional `xxx}` field.
    pub altitude_m: Option<i64>,
    pub comment: String,
}

/// Latitude in hundredths of a minute from the six digits.
pub open spec fn lat_hmin(d: Seq<u8>) -> int {
    6000 * (10 * d[0] + d[1]) + 100 * (10 * d[2] + d[3]) + 10 * d[4] + d[5]
}

/// Longitude degrees: +100 with the offset bit, then the 180..199 folds.
pub open spec fn mice_lon_deg(b0: u8, offset: bool) -> int {
    let d = b0 - 28 + (if offset { 100int } else { 0int });
    if 180 <= d <= 189 {
        d - 80
    } else if 190 <= d <= 199 {
        d - 190
    } else {
        d
    }
}

/// Longitude minutes (60 and up wrap down by 60).
pub open spec fn mice_lon_min(b1: u8) -> int {
    let m = b1 - 28;
    if m >= 60 {
        m - 60
    } else {
        m
    }
}

/// Base-91 digit value.
pub open spec fn b91(c: u8) -> int {
    c - 33
}

/// Whether the MIC-E position lies within ±90° / ±180° (compared exactly,
/// in hundredths of a minute).
pub open spec fn mice_in_range(call: Seq<u8>, body: Seq<u8>) -> bool {
    let digits = call.map_values(|c: u8| mice_digit(c)->0);
    let lon = 6000 * mice_lon_deg(body[0], mice_std(call[4])) + 100 * mice_lon_min(body[1]) + (
    body[2] - 28);
    lat_hmin(digits) <= 540000 && -1080000 <= lon <= 1080000
}

/// When a MIC-E packet decodes: a six-byte destination of MIC-E
/// characters, a body of at least 8 bytes, and a position in range.
pub open spec fn mice_ok(dest: Seq<u8>, body: Seq<u8>) -> bool {
    let call = mice_call(dest);
    &&& call.len() == 6
    &&& body.len() >= 8
    &&& forall|i: int| 0 <= i < 6 ==> #[trigger] mice_digit(call[i]) is Some
    &&& mice_in_range(call, body)
}

/// The fields a decodable MIC-E packet carries.
pub open spec fn mice_fields(dest: Seq<u8>, body: Seq<u8>, m: MicE) -> bool {
    let call = mice_call(dest);
    let sp = body[3] - 28;
    let dc = body[4] - 28;
    let se = body[5] - 28;
    let speed = sp * 10 + div_trunc(dc, 10);
    let course = rem_trunc(dc, 10) * 100 + se;
    let rest = body.subrange(8, body.len() as int);
    &&& forall|i: int| 0 <= i < 6 ==> #[trigger] m.lat_digits@[i] == mice_digit(call[i])->0
    &&& m.south == !mice_std(call[3])
    &&& m.west == mice_std(call[5])
    &&& m.lon_deg == mice_lon_deg(body[0], mice_std(call[4]))
    &&& m.lon_min == mice_lon_min(body[1])
    &&& m.lon_hmin == body[2] - 28
    &&& m.speed_kt == (if speed >= 800 { speed - 800 } else { speed })
    &&& m.course_deg == (if course >= 400 { course - 400 } else { course })
    &&& m.symbol_code == body[6]
    &&& m.symbol_table == body[7]
    &&& if rest.len() >= 4 && rest[3] == 125 {
        &&& m.altitude_m matches Some(a) && a == b91(rest[0]) * 8281 + b91(rest[1]) * 91 + b91(
            rest[2],
        ) - 10000
        &&& m.comment@ == (if valid_utf8(rest) {
            trim_by(text_of(rest.subrange(4, rest.len() as int)), unicode_white_space())
        } else {
            Seq::<char>::empty()
        })
    } else {
        &&& m.altitude_m is None
        &&& m.comment@ == trim_by(text_of(rest), unicode_white_space())
    }
}

/// MIC-E longitude degrees: the first body byte less 28 is the degree
/// count, to which a standard fifth destination character (`0-9`, `L`,
/// `P-Z`) adds 100; the encoding's two folds then map 180..189 to 100..109
/// and 190..199 to 0..9. So with the offset a station at 100..179 degrees
/// (byte 28..107) reads back 100..179, and without it 10..99 stays as is.
pub proof fn lemma_mice_longitude_degrees(dest: Seq<u8>, body: Seq<u8>, m: MicE)
    requires
        mice_ok(dest, body),
        mice_fields(dest, body, m),
    ensures
        ({
            let d = body[0] - 28;
            let offset = mice_std(mice_call(dest)[4]);
            &&& offset && 0 <= d <= 79 ==> m.lon_deg == d + 100
            &&& offset && 80 <= d <= 89 ==> m.lon_deg == d + 20
            &&& offset && 90 <= d <= 99 ==> m.lon_deg == d - 90
            &&& !offset && 0 <= d <= 179 ==> m.lon_deg == d
            &&& !offset && 180 <= d <= 189 ==> m.lon_deg == d - 80
            &&& !offset && 190 <= d <= 199 ==> m.lon_deg == d - 190
        }),
{
}

/// MIC-E speed and course, for the usual bytes (28 and up): speed is
/// `SP * 10 + DC / 10` knots and course `(DC % 10) * 100 + SE` degrees, where
/// `SP`, `DC`, `SE` are body bytes 3, 4 and 5 less 28; speeds of 800 and
/// more and courses of 400 and more are folded down by 800 and 400.
pub proof fn lemma_mice_speed_course(dest: Seq<u8>, body: Seq<u8>, m: MicE)
    requires
        mice_ok(dest, body),
        mice_fields(dest, body, m),
        body[3] >= 28 && body[4] >= 28 && body[5] >= 28,
    ensures
        ({
            let sp = body[3] - 28;
            let dc = body[4] - 28;
            let se = body[5] - 28;
            let speed = 10 * sp + dc / 10;
            let course = 100 * (dc % 10) + se;
            &&& m.speed_kt == (if speed >= 800 { speed - 800 } else { speed })
            &&& m.course_deg == (if course >= 400 { course - 400 } else { course })
        }),
{
}

/// A compressed position's coordinates are four-digit base-91 numbers,
/// most significant digit first: `y` from bytes 1..5 and `x` from bytes
/// 5..9 (each byte less 33 is a digit), the table byte 0 and symbol code
/// byte 9 taken as they are.
pub proof fn lemma_compressed_coordinates(body: Seq<u8>, c: Compressed)
    requires
        compressed_ok(body),
        compressed_fields(body, c),
    ensures
        c.y == (((body[1] - 33) * 91 + (body[2] - 33)) * 91 + (body[3] - 33)) * 91 + (body[4] - 33),
        c.x == (((body[5] - 33) * 91 + (body[6] - 33)) * 91 + (body[7] - 33)) * 91 + (body[8] - 33),
        c.symbol_table == body[0],
        c.symbol_code == body[9],
{
}

/// An uncompressed position reads latitude degrees and minutes from bytes
/// 0..2 and 2..7 with the hemisphere letter at byte 7 (`S` south), the
/// symbol table at byte 8, longitude degrees and minutes from bytes 9..12
/// and 12..17 with `W` west at byte 17, and the symbol code at byte 18.
pub proof fn lemma_uncompressed_layout(b: Seq<u8>, u: UncompressedPos)
    requires
        uncompressed_ok(b),
        uncompressed_fields(b, u),
    ensures
        u.south <==> b[7] == 83,
        !u.south ==> b[7] == 78,
        u.west <==> b[17] == 87,
        !u.west ==> b[17] == 69,
        u.symbol_table == b[8],
        u.symbol_code == b[18],
        u.lat_deg@ == decode_utf8(b.subrange(0, 2)),
        u.lat_min@ == decode_utf8(b.subrange(2, 7)),
        u.lon_deg@ == decode_utf8(b.subrange(9, 12)),
        u.lon_min@ == decode_utf8(b.subrange(12, 17)),
{
}

/// A compressed position's altitude code is a two-digit base-91 number whose
/// most significant digit is byte 10: when byte 10 is not a space and the
/// compression-type byte 12 marks an altitude, `cs` is
/// `(body[10] - 33) * 91 + (body[11] - 33)`, so that `cs / 91` and `cs % 91`
/// give back the two digits; otherwise bytes 10 and 11 are the course (in
/// units of 4 degrees) and the speed code.
pub proof fn lemma_compressed_extension(body: Seq<u8>, c: Compressed)
    requires
        compressed_ok(body),
        compressed_fields(body, c),
    ensures
        body[10] == 32 ==> c.ext == CompressedExt::Nothing,
        body[10] != 32 && body[12] & 0x18 == 0x10 ==> c.ext == (CompressedExt::Altitude {
            cs: ((body[10] - 33) * 91 + (body[11] - 33)) as i64,
        }),
        body[10] != 32 && body[12] & 0x18 == 0x10 && 33 <= body[10] < 124 && 33 <= body[11] < 124
            ==> (c.ext matches CompressedExt::Altitude { cs } && cs / 91 == body[10] - 33 && cs % 91
            == body[11] - 33),
        body[10] != 32 && body[12] & 0x18 != 0x10 ==> c.ext == (CompressedExt::CourseSpeed {
            course_deg: (4 * (body[10] - 33)) as i64,
            speed_code: (body[11] - 33) as i64,
        }),
{
}

fn mice_digit_exec(c: u8) -> (r: Option<u8>)
    ensures
        r == mice_digit(c),
{
    if 48 <= c && c <= 57 {
        Some(c - 48)
    } else if 65 <= c && c <= 74 {
        Some(c - 65)
    } else if 80 <= c && c <= 89 {
        Some(c - 80)
    } else if c == 75 || c == 76 || c == 90 {
        Some(0)
    } else {
        None
    }
}

fn mice_std_exec(c: u8) -> (r: bool)
    ensures
        r == mice_std(c),
{
    (48 <= c && c <= 57) || c == 76 || (80 <= c && c <= 90)
}

/// The bytes of `dest` up to the first `-`, at most six.
fn call_bytes(dest: &str) -> (v: Vec<u8>)
    ensures
        v@ == mice_call(dest.spec_bytes()),
{
    let b = dest.as_bytes();
    let mut k: usize = 0;
    while k < b.len() && b[k] != 45u8
        invariant
            k <= b@.len(),
            b@ == dest.spec_bytes(),
            forall|j: int| 0 <= j < k ==> b@[j] != 45,
        decreases b.len() - k,
    {
        k = k + 1;
    }
    proof {
        lemma_dash_or_end(b@, k as int);
    }
    let n = if k <= 6 { k } else { 6 };
    let mut v: Vec<u8> = Vec::new();
    let mut i: usize = 0;
    while i < n
        invariant
            i <= n <= b@.len(),
            v@ == b@.take(i as int),
        decreases n - i,
    {
        v.push(b[i]);
        proof {
            assert(v@ =~= b@.take(i + 1));
        }
        i = i + 1;
    }
    v
}

/// `dash_or_end` is the first `-`.
proof fn lemma_dash_or_end(b: Seq<u8>, k: int)
    requires
        0 <= k <= b.len(),
        forall|j: int| 0 <= j < k ==> b[j] != 45,
        k == b.len() || b[k] == 45,
    ensures
        dash_or_end(b) == k,
    decreases b.len(),
{
    if b.len() > 0 && k > 0 {
        lemma_dash_or_end(b.drop_first(), k - 1);
    }
}

/// Rust's truncating `/ 10` and `% 10`.
fn div_rem10(a: i32) -> (r: (i32, i32))
    requires
        -1000 <= a <= 1000,
    ensures
        r.0 == div_trunc(a as int, 10),
        r.1 == rem_trunc(a as int, 10),
{
    if a >= 0 {
        (a / 10, a % 10)
    } else {
        let p = -a;
        (-(p / 10), -(p % 10))
    }
}

/// Decodes a MIC-E packet (`dest` is the AX.25 destination, `body` the
/// information field after its type byte): `None` when the destination is
/// not six MIC-E characters, the body is short, or the position is out of
/// range.
pub fn parse_mice(dest: &str, body: &[u8]) -> (r: Option<MicE>)
    ensures
        r is Some <==> mice_ok(dest.spec_bytes(), body@),
        r matches Some(m) ==> mice_fields(dest.spec_bytes(), body@, m),
{
    let call = call_bytes(dest);
    if call.len() != 6 || body.len() < 8 {
        return None;
    }
    let mut digits: [u8; 6] = [0u8; 6];
    let mut i: usize = 0;
    while i < 6
        invariant
            i <= 6,
            call@.len() == 6,
            call@ == mice_call(dest.spec_bytes()),
            body@.len() >= 8,
            forall|j: int| 0 <= j < i ==> #[trigger] mice_digit(call@[j]) == Some(digits@[j]),
        decreases 6 - i,
    {
        match mice_digit_exec(call[i]) {
            Some(d) => {
                digits[i] = d;
            },
            None => {
                proof {
                    assert(mice_digit(call@[i as int]) is None);
                    assert(!(forall|j: int| 0 <= j < 6 ==> #[trigger] mice_digit(call@[j]) is Some));
                }
                return None;
            },
        }
        i = i + 1;
    }
    let south = !mice_std_exec(call[3]);
    let offset = mice_std_exec(call[4]);
    let west = mice_std_exec(call[5]);
    let d0: i32 = body[0] as i32 - 28;
    let m0: i32 = body[1] as i32 - 28;
    let h0: i32 = body[2] as i32 - 28;
    let mut lon_deg: i32 = d0 + if offset { 100 } else { 0 };
    if 180 <= lon_deg && lon_deg <= 189 {
        lon_deg = lon_deg - 80;
    } else if 190 <= lon_deg && lon_deg <= 199 {
        lon_deg = lon_deg - 190;
    }
    let mut lon_min: i32 = m0;
    if lon_min >= 60 {
        lon_min = lon_min - 60;
    }
    let lat_total: u32 = 6000 * (10 * digits[0] as u32 + digits[1] as u32) + 100 * (10
        * digits[2] as u32 + digits[3] as u32) + 10 * digits[4] as u32 + digits[5] as u32;
    let lon_total: i64 = 6000 * (lon_deg as i64) + 100 * (lon_min as i64) + h0 as i64;
    proof {
        let dv = call@.map_values(|c: u8| mice_digit(c)->0);
        assert(dv =~= digits@);
    }
    if lat_total > 540000 || lon_total < -1080000 || lon_total > 1080000 {
        return None;
    }
    let sp: i32 = body[3] as i32 - 28;
    let dc: i32 = body[4] as i32 - 28;
    let se: i32 = body[5] as i32 - 28;
    let (q, rm) = div_rem10(dc);
    let mut speed: i32 = sp * 10 + q;
    if speed >= 800 {
        speed = speed - 800;
    }
    let mut course: i32 = rm * 100 + se;
    if course >= 400 {
        course = course - 400;
    }
    let rest = sub_slice(body, 8, body.len());
    let altitude_m: Option<i64>;
    let comment: String;
    if rest.len() >= 4 && rest[3] == 125u8 {
        altitude_m = Some(
            (rest[0] as i64 - 33) * 8281 + (rest[1] as i64 - 33) * 91 + (rest[2] as i64 - 33) - 10000,
        );
        if str_from_utf8(rest).is_some() {
            let c = chars_of(as_str(sub_slice(rest, 4, rest.len())));
            let t = trim_white_vec(&c);
            comment = string_from_chars(t.as_slice());
        } else {
            comment = string_from_chars(&[]);
            proof {
                assert(comment@ =~= Seq::<char>::empty());
            }
        }
    } else {
        altitude_m = None;
        let c = chars_of(as_str(rest));
        let t = trim_white_vec(&c);
        comment = string_from_chars(t.as_slice());
    }
    Some(MicE {
        lat_digits: digits,
        south,
        lon_deg,
        lon_min,
        lon_hmin: h0,
        west,
        speed_kt: speed,
        course_deg: course,
        symbol_code: body[6],
        symbol_table: body[7],
        altitude_m,
        comment,
    })
}

// --- compressed positions ----------------------------------------------------

/// The optional course/speed or altitude of a compressed position.
#[derive(Debug, Clone, Copy, PartialEq, Eq, Structural)]
pub enum CompressedExt {
    /// Bytes 10-11 were spaces.
    Nothing,
    /// Altitude `1.002^cs` feet.
    Altitude { cs: i64 },
    /// Course in degrees and speed code (`1.08^code - 1` knots).
    CourseSpeed { course_deg: i64, speed_code: i64 },
}

/// The integer content of a compressed position `/YYYYXXXX$cs…`.
#[derive(Debug, Clone, PartialEq, Eq)]
pub struct Compressed {
    /// Latitude is `90 - y / 380926` degrees.
    pub y: i64,
    /// Longitude is `-180 + x / 190463` degrees.
    pub x: i64,
    pub symbol_table: u8,
    pub symbol_code: u8,
    pub ext: CompressedExt,
    pub comment: String,
}

/// A compressed position's symbol-table byte: `/`, `\`, `A-Z` or `a-j`.
pub open spec fn compressed_table(c: u8) -> bool {
    c == 47 || c == 92 || (65 <= c <= 90) || (97 <= c <= 106)
}

/// Four base-91 digits, most significant first.
pub open spec fn b91_4(b: Seq<u8>, at: int) -> int {
    b91(b[at]) * 753571 + b91(b[at + 1]) * 8281 + b91(b[at + 2]) * 91 + b91(b[at + 3])
}

/// When a body is read as a compressed position: 13 bytes or more, a table
/// byte, and both coordinates within range.
pub open spec fn compressed_ok(body: Seq<u8>) -> bool {
    body.len() >= 13 && compressed_table(body[0]) && 0 <= b91_4(body, 1) <= 380926 * 90 && 0
        <= b91_4(body, 5) <= 190463 * 180
}

/// The fields of a compressed position.
pub open spec fn compressed_fields(body: Seq<u8>, c: Compressed) -> bool {
    &&& c.y == b91_4(body, 1)
    &&& c.x == b91_4(body, 5)
    &&& c.symbol_table == body[0]
    &&& c.symbol_code == body[9]
    &&& c.ext == (if body[10] == 32 {
        CompressedExt::Nothing
    } else if body[12] & 0x18 == 0x10 {
        CompressedExt::Altitude { cs: (b91(body[10]) * 91 + b91(body[11])) as i64 }
    } else {
        CompressedExt::CourseSpeed {
            course_deg: (b91(body[10]) * 4) as i64,
            speed_code: b91(body[11]) as i64,
        }
    })
    &&& c.comment@ == trim_by(text_of(body.subrange(13, body.len() as int)), unicode_white_space())
}

fn b91_4_exec(b: &[u8], at: usize) -> (v: i64)
    requires
        at + 4 <= b@.len(),
    ensures
        v == b91_4(b@, at as int),
{
    (b[at] as i64 - 33) * 753571 + (b[at + 1] as i64 - 33) * 8281 + (b[at + 2] as i64 - 33) * 91 + (
    b[at + 3] as i64 - 33)
}

/// Reads `body` as a compressed position; `None` when it is not one (the
/// caller then tries the uncompressed form).
pub fn parse_compressed(body: &[u8]) -> (r: Option<Compressed>)
    ensures
        r is Some <==> compressed_ok(body@),
        r matches Some(c) ==> compressed_fields(body@, c),
{
    if body.len() < 13 {
        return None;
    }
    let t = body[0];
    if !(t == 47u8 || t == 92u8 || (65 <= t && t <= 90) || (97 <= t && t <= 106)) {
        return None;
    }
    let y = b91_4_exec(body, 1);
    let x = b91_4_exec(body, 5);
    if !(0 <= y && y <= 380926 * 90 && 0 <= x && x <= 190463 * 180) {
        return None;
    }
    let c1 = body[10];
    let c2 = body[11];
    let ext = if c1 == 32u8 {
        CompressedExt::Nothing
    } else if body[12] & 0x18u8 == 0x10u8 {
        CompressedExt::Altitude { cs: (c1 as i64 - 33) * 91 + (c2 as i64 - 33) }
    } else {
        CompressedExt::CourseSpeed { course_deg: (c1 as i64 - 33) * 4, speed_code: c2 as i64 - 33 }
    };
    let cs = chars_of(as_str(sub_slice(body, 13, body.len())));
    let tr = trim_white_vec(&cs);
    Some(Compressed { y, x, symbol_table: t, symbol_code: body[9], ext, comment: string_from_chars(tr.as_slice()) })
}

// --- uncompressed position ---------------------------------------------------

/// The layout of an uncompressed position `DDMM.mmN/DDDMM.mmW$…`: its
/// fields as text and letters. The numbers in the text fields are read by
/// the caller (they are decimal fractions, parsed as floating point).
#[derive(Debug, Clone, PartialEq, Eq)]
pub struct UncompressedPos {
    /// Bytes 0..2: the latitude degrees.
    pub lat_deg: String,
    /// Bytes 2..7: the latitude minutes.
    pub lat_min: String,
    /// Byte 7 is `S` (else `N`).
    pub south: bool,
    pub symbol_table: u8,
    /// Bytes 9..12: the longitude degrees.
    pub lon_deg: String,
    /// Bytes 12..17: the longitude minutes.
    pub lon_min: String,
    /// Byte 17 is `W` (else `E`).
    pub west: bool,
    pub symbol_code: u8,
    /// `CSE/SPD` right after the symbol: the course and speed text.
    pub course_speed: Option<(String, String)>,
    /// The six characters after the first `/A=` of the remainder.
    pub altitude: Option<String>,
    /// The remainder after the symbol, trimmed.
    pub comment: String,
}

/// Bytes `lo..hi` of `b` are UTF-8.
pub open spec fn utf8_at(b: Seq<u8>, lo: int, hi: int) -> bool {
    valid_utf8(b.subrange(lo, hi))
}

/// The text of bytes `lo..hi` of `b`.
pub open spec fn text_at(b: Seq<u8>, lo: int, hi: int) -> Seq<char> {
    decode_utf8(b.subrange(lo, hi))
}

/// Whether `b` has the layout of an uncompressed position: 19 bytes at
/// least, hemisphere letters `N`/`S` at byte 7 and `E`/`W` at byte 17, and
/// degree and minute fields that are text of their own.
pub open spec fn uncompressed_ok(b: Seq<u8>) -> bool {
    &&& b.len() >= 19
    &&& utf8_at(b, 0, 2) && utf8_at(b, 2, 7)
    &&& (b[7] == 78 || b[7] == 83)
    &&& utf8_at(b, 9, 12) && utf8_at(b, 12, 17)
    &&& (b[17] == 69 || b[17] == 87)
}

/// `/A=` starts at byte `i` of `r`.
pub open spec fn alt_marker_at(r: Seq<u8>, i: int) -> bool {
    0 <= i && i + 3 <= r.len() && r[i] == 47 && r[i + 1] == 65 && r[i + 2] == 61
}

/// The first `/A=` of `r` starts at byte `i`.
pub open spec fn first_alt_marker(r: Seq<u8>, i: int) -> bool {
    alt_marker_at(r, i) && forall|j: int| 0 <= j < i ==> !alt_marker_at(r, j)
}

/// `CSE/SPD` at the start of the remainder: three bytes, `/`, three bytes.
pub open spec fn course_speed_of(r: Seq<u8>) -> Option<(Seq<char>, Seq<char>)> {
    if r.len() >= 7 && r[3] == 47 {
        Some((text_of(r.subrange(0, 3)), text_of(r.subrange(4, 7))))
    } else {
        None
    }
}

/// The altitude text: the six bytes after the first `/A=` of a UTF-8
/// remainder, where all six are there and are text of their own.
pub open spec fn altitude_of(r: Seq<u8>) -> Option<Seq<char>> {
    if valid_utf8(r) && exists|i: int| first_alt_marker(r, i) {
        let i = choose|i: int| first_alt_marker(r, i);
        if i + 9 <= r.len() && utf8_at(r, i + 3, i + 9) {
            Some(text_at(r, i + 3, i + 9))
        } else {
            None
        }
    } else {
        None
    }
}

/// The views of an optional pair of strings.
pub open spec fn pair_view(p: Option<(String, String)>) -> Option<(Seq<char>, Seq<char>)> {
    match p {
        Some((a, b)) => Some((a@, b@)),
        None => None,
    }
}

/// The view of an optional string.
pub open spec fn opt_text_view(p: Option<String>) -> Option<Seq<char>> {
    match p {
        Some(a) => Some(a@),
        None => None,
    }
}

/// The fields of the uncompressed position `b`.
pub open spec fn uncompressed_fields(b: Seq<u8>, u: UncompressedPos) -> bool {
    let r = b.subrange(19, b.len() as int);
    &&& u.lat_deg@ == text_at(b, 0, 2)
    &&& u.lat_min@ == text_at(b, 2, 7)
    &&& u.south == (b[7] == 83)
    &&& u.symbol_table == b[8]
    &&& u.lon_deg@ == text_at(b, 9, 12)
    &&& u.lon_min@ == text_at(b, 12, 17)
    &&& u.west == (b[17] == 87)
    &&& u.symbol_code == b[18]
    &&& pair_view(u.course_speed) == course_speed_of(r)
    &&& opt_text_view(u.altitude) == altitude_of(r)
    &&& u.comment@ == trim_by(text_of(r), unicode_white_space())
}

/// The text of bytes `lo..hi`, where they are UTF-8.
fn field_at(b: &[u8], lo: usize, hi: usize) -> (r: Option<String>)
    requires
        lo <= hi <= b@.len(),
    ensures
        r is Some <==> utf8_at(b@, lo as int, hi as int),
        r matches Some(s) ==> s@ == text_at(b@, lo as int, hi as int),
{
    let part = sub_slice(b, lo, hi);
    if str_from_utf8(part).is_some() {
        Some(as_str(part).to_owned())
    } else {
        None
    }
}

/// Where the first `/A=` of `r` starts.
fn find_alt_marker(r: &[u8]) -> (k: Option<usize>)
    ensures
        match k {
            Some(i) => first_alt_marker(r@, i as int),
            None => forall|j: int| !alt_marker_at(r@, j),
        },
{
    let mut i: usize = 0;
    while i <= r.len() && r.len() - i >= 3
        invariant
            i <= r@.len(),
            forall|j: int| 0 <= j < i ==> !alt_marker_at(r@, j),
        decreases r.len() - i,
    {
        if r[i] == 47u8 && r[i + 1] == 65u8 && r[i + 2] == 61u8 {
            return Some(i);
        }
        i = i + 1;
    }
    None
}

proof fn lemma_first_alt_marker_unique(r: Seq<u8>, i: int, j: int)
    requires
        first_alt_marker(r, i),
        first_alt_marker(r, j),
    ensures
        i == j,
{
    if i < j {
        assert(alt_marker_at(r, i));
    } else if j < i {
        assert(alt_marker_at(r, j));
    }
}

/// The altitude text of a remainder.
fn altitude_text(r: &[u8]) -> (a: Option<String>)
    ensures
        opt_text_view(a) == altitude_of(r@),
{
    if str_from_utf8(r).is_none() {
        return None;
    }
    match find_alt_marker(r) {
        Some(i) => {
            proof {
                let c = choose|k: int| first_alt_marker(r@, k);
                lemma_first_alt_marker_unique(r@, i as int, c);
            }
            if r.len() - i >= 9 {
                field_at(r, i + 3, i + 9)
            } else {
                None
            }
        },
        None => None,
    }
}

/// Reads the layout of an uncompressed position; `None` when `body` does
/// not have it. Returns normally on every input.
pub fn parse_uncompressed(body: &[u8]) -> (r: Option<UncompressedPos>)
    ensures
        match r {
            Some(u) => uncompressed_ok(body@) && uncompressed_fields(body@, u),
            None => !uncompressed_ok(body@),
        },
{
    if body.len() < 19 {
        return None;
    }
    let lat_deg = match field_at(body, 0, 2) {
        Some(t) => t,
        None => return None,
    };
    let lat_min = match field_at(body, 2, 7) {
        Some(t) => t,
        None => return None,
    };
    if !(body[7] == 78u8 || body[7] == 83u8) {
        return None;
    }
    let lon_deg = match field_at(body, 9, 12) {
        Some(t) => t,
        None => return None,
    };
    let lon_min = match field_at(body, 12, 17) {
        Some(t) => t,
        None => return None,
    };
    if !(body[17] == 69u8 || body[17] == 87u8) {
        return None;
    }
    let rest = sub_slice(body, 19, body.len());
    let course_speed = if rest.len() >= 7 && rest[3] == 47u8 {
        Some((as_str(sub_slice(rest, 0, 3)).to_owned(), as_str(sub_slice(rest, 4, 7)).to_owned()))
    } else {
        None
    };
    let altitude = altitude_text(rest);
    let comment = trim_white(as_str(rest));
    Some(UncompressedPos {
        lat_deg,
        lat_min,
        south: body[7] == 83u8,
        symbol_table: body[8],
        lon_deg,
        lon_min,
        west: body[17] == 87u8,
        symbol_code: body[18],
        course_speed,
        altitude,
        comment: string_from_chars(comment.as_slice()),
    })
}

// --- the information field ---------------------------------------------------

/// What an information field holds, as far as it can be decoded without
/// floating point.
#[derive(Debug, Clone, PartialEq, Eq)]
pub enum AprsPayload {
    /// A compressed position.
    Compressed(Compressed),
    /// The layout of an uncompressed `DDMM.mmN/DDDMM.mmW$…` position.
    Uncompressed(UncompressedPos),
    /// A MIC-E position.
    MicE(MicE),
    /// A status report and its text.
    Status(String),
    /// A text message.
    Message(AprsMessage),
    /// Anything else, with the text kept (empty when a recognised packet
    /// type failed to decode).
    Other(String),
}

/// The payload a recognised-but-undecodable packet leaves.
pub open spec fn other_empty(p: AprsPayload) -> bool {
    p matches AprsPayload::Other(t) && t@.len() == 0
}

/// How an information field is read, by its data-type byte.
pub open spec fn payload_of(dest: Seq<u8>, info: Seq<u8>, p: AprsPayload) -> bool {
    if info.len() == 0 {
        other_empty(p)
    } else {
        let dti = info[0];
        let body = info.subrange(1, info.len() as int);
        if dti == 33 || dti == 61 {
            if compressed_ok(body) {
                p matches AprsPayload::Compressed(c) && compressed_fields(body, c)
            } else if uncompressed_ok(body) {
                p matches AprsPayload::Uncompressed(u) && uncompressed_fields(body, u)
            } else {
                other_empty(p)
            }
        } else if dti == 47 || dti == 64 {
            if body.len() > 7 {
                let pos = body.subrange(7, body.len() as int);
                if compressed_ok(pos) {
                    p matches AprsPayload::Compressed(c) && compressed_fields(pos, c)
                } else if uncompressed_ok(pos) {
                    p matches AprsPayload::Uncompressed(u) && uncompressed_fields(pos, u)
                } else {
                    other_empty(p)
                }
            } else {
                other_empty(p)
            }
        } else if dti == 96 || dti == 39 {
            if mice_ok(dest, body) {
                p matches AprsPayload::MicE(m) && mice_fields(dest, body, m)
            } else {
                other_empty(p)
            }
        } else if dti == 62 {
            p matches AprsPayload::Status(t) && t@ == trim_by(lossy_utf8(body), unicode_white_space())
        } else if dti == 58 {
            match message_of(body) {
                Some((to, text)) => p matches AprsPayload::Message(m) && m.to@ == to && m.text@ == text,
                None => other_empty(p),
            }
        } else {
            p matches AprsPayload::Other(t) && t@ == trim_by(lossy_utf8(info), unicode_white_space())
        }
    }
}

fn no_text() -> (s: String)
    ensures
        s@.len() == 0,
{
    string_from_chars(&[])
}

impl AprsPayload {
    /// Reads the information field of an APRS frame; MIC-E needs the
    /// destination call, where its latitude lives.
    pub fn parse(frame: &crate::ax25::Ax25Frame) -> (p: Self)
        ensures
            payload_of(vstd::utf8::encode_utf8(frame.dest@), frame.info@, p),
    {
        let info = frame.info.as_slice();
        if info.len() == 0 {
            return AprsPayload::Other(no_text());
        }
        let dti = info[0];
        let body = sub_slice(info, 1, info.len());
        if dti == 33u8 || dti == 61u8 {
            match parse_compressed(body) {
                Some(c) => AprsPayload::Compressed(c),
                None => match parse_uncompressed(body) {
                    Some(u) => AprsPayload::Uncompressed(u),
                    None => AprsPayload::Other(no_text()),
                },
            }
        } else if dti == 47u8 || dti == 64u8 {
            if body.len() > 7 {
                let pos = sub_slice(body, 7, body.len());
                match parse_compressed(pos) {
                    Some(c) => AprsPayload::Compressed(c),
                    None => match parse_uncompressed(pos) {
                        Some(u) => AprsPayload::Uncompressed(u),
                        None => AprsPayload::Other(no_text()),
                    },
                }
            } else {
                AprsPayload::Other(no_text())
            }
        } else if dti == 96u8 || dti == 39u8 {
            match parse_mice(frame.dest.as_str(), body) {
                Some(m) => AprsPayload::MicE(m),
                None => AprsPayload::Other(no_text()),
            }
        } else if dti == 62u8 {
            AprsPayload::Status(status_text(body))
        } else if dti == 58u8 {
            match parse_message(body) {
                Some(m) => AprsPayload::Message(m),
                None => AprsPayload::Other(no_text()),
            }
        } else {
            AprsPayload::Other(status_text(info))
        }
    }
}

} // verus!
