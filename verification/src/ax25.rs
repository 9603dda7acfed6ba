//! AX.25 UI frames, just enough for APRS: the address fields (source,
//! destination, digipeater path) and the raw information bytes, decoded and
//! built.

use vstd::prelude::*;
use vstd::string::StringSliceAdditionalSpecFns;
use vstd::utf8::encode_utf8;
use crate::text::{digit_char, lemma_ascii_bytes, append_str, ascii_upper, ascii_upper_char, chars_of, push_decimal, spec_decimal, string_from_chars};

verus! {

/// A decoded AX.25 UI frame.
#[derive(Debug, Clone, PartialEq, Eq)]
pub struct Ax25Frame {
    pub dest: String,
    pub source: String,
    /// Digipeater path, each already suffixed with `*` if it has the
    /// "has-been-repeated" bit set.
    pub digipeaters: Vec<String>,
    pub info: Vec<u8>,
}

/// The mathematical content of a UI frame.
pub struct Ax25View {
    pub dest: Seq<char>,
    pub source: Seq<char>,
    pub digipeaters: Seq<Seq<char>>,
    pub info: Seq<u8>,
}

impl View for Ax25Frame {
    type V = Ax25View;

    open spec fn view(&self) -> Ax25View {
        Ax25View {
            dest: self.dest@,
            source: self.source@,
            digipeaters: self.digipeaters@.map_values(|s: String| s@),
            info: self.info@,
        }
    }
}

/// The callsign character an address octet carries (7-bit ASCII, shifted
/// left by one).
pub open spec fn addr_char(b: u8) -> char {
    (b >> 1u8) as char
}

/// ASCII letter or digit.
pub open spec fn is_alnum(c: char) -> bool {
    ('A' <= c <= 'Z') || ('a' <= c <= 'z') || ('0' <= c <= '9')
}

fn is_alnum_exec(c: char) -> (r: bool)
    ensures
        r == is_alnum(c),
{
    ('A' <= c && c <= 'Z') || ('a' <= c && c <= 'z') || ('0' <= c && c <= '9')
}

/// The callsign letters of the first `k` octets of an address, spaces
/// skipped.
pub open spec fn call_chars(a: Seq<u8>, k: nat) -> Seq<char>
    decreases k,
{
    if k == 0 {
        Seq::empty()
    } else if addr_char(a[k - 1]) == ' ' {
        call_chars(a, (k - 1) as nat)
    } else {
        call_chars(a, (k - 1) as nat).push(addr_char(a[k - 1]))
    }
}

/// The SSID nibble of an address.
pub open spec fn addr_ssid(a: Seq<u8>) -> u8 {
    (a[6] >> 1u8) & 0x0Fu8
}

/// An address field decodes: 7 octets whose six callsign positions hold
/// letters, digits or spaces, at least one non-space.
pub open spec fn addr_ok(a: Seq<u8>) -> bool {
    &&& a.len() >= 7
    &&& forall|i: int| 0 <= i < 6 ==> addr_char(#[trigger] a[i]) == ' ' || is_alnum(addr_char(a[i]))
    &&& call_chars(a, 6).len() > 0
}

/// `CALL` or `CALL-SSID` (SSID 0 is not shown).
pub open spec fn addr_text(a: Seq<u8>) -> Seq<char> {
    if addr_ssid(a) != 0 {
        call_chars(a, 6) + seq!['-'] + spec_decimal(addr_ssid(a) as nat)
    } else {
        call_chars(a, 6)
    }
}

/// Address-extension bit: this is the last address of the header.
pub open spec fn addr_last(a: Seq<u8>) -> bool {
    a[6] & 0x01u8 != 0
}

/// "Has been repeated" (H) bit.
pub open spec fn addr_repeated(a: Seq<u8>) -> bool {
    a[6] & 0x80u8 != 0
}

/// Decode one address field (7 octets). Returns `(callsign[-ssid], last, repeated)`.
fn decode_addr(a: &[u8]) -> (r: Option<(String, bool, bool)>)
    ensures
        r is Some <==> addr_ok(a@),
        r matches Some((call, last, rep)) ==> call@ == addr_text(a@) && last == addr_last(a@)
            && rep == addr_repeated(a@),
{
    if a.len() < 7 {
        return None;
    }
    let mut call: Vec<char> = Vec::new();
    let mut i: usize = 0;
    while i < 6
        invariant
            i <= 6,
            a@.len() >= 7,
            call@ == call_chars(a@, i as nat),
            forall|j: int| 0 <= j < i ==> addr_char(#[trigger] a@[j]) == ' ' || is_alnum(
                addr_char(a@[j]),
            ),
        decreases 6 - i,
    {
        let c = (a[i] >> 1u8) as char;
        if c != ' ' {
            if !is_alnum_exec(c) {
                return None;
            }
            call.push(c);
        }
        i = i + 1;
    }
    if call.len() == 0 {
        return None;
    }
    let ssid = (a[6] >> 1u8) & 0x0F;
    if ssid != 0 {
        call.push('-');
        push_decimal(&mut call, ssid as u64);
        proof {
            assert(call@ =~= call_chars(a@, 6) + seq!['-'] + spec_decimal(ssid as nat));
        }
    }
    let last = a[6] & 0x01 != 0;
    let repeated = a[6] & 0x80 != 0;
    Some((string_from_chars(call.as_slice()), last, repeated))
}

/// The 7 octets of address number `i` of the header.
pub open spec fn addr_at(o: Seq<u8>, i: int) -> Seq<u8> {
    o.subrange(7 * i, 7 * i + 7)
}

/// `o` is a UI frame with `k` digipeaters: destination, source and `k`
/// path addresses decode, the extension bit marks exactly the last of them,
/// at most 8 digipeaters, and the control octet after the header is UI
/// (0x03) with a PID octet following it.
pub open spec fn ui_shape(o: Seq<u8>, k: nat) -> bool {
    &&& o.len() >= 15
    &&& k <= 8
    &&& 7 * (k + 2) + 2 <= o.len()
    &&& forall|i: int| 0 <= i < k + 2 ==> addr_ok(#[trigger] addr_at(o, i))
    &&& forall|i: int| 0 <= i < k + 2 ==> (addr_last(#[trigger] addr_at(o, i)) <==> (i == k + 1))
    &&& o[7 * (k + 2) as int] == 0x03
}

/// The text of digipeater `i` of a `ui_shape` frame, `*`-suffixed when the
/// repeated bit is set.
pub open spec fn digi_text(o: Seq<u8>, i: int) -> Seq<char> {
    if addr_repeated(addr_at(o, i + 2)) {
        addr_text(addr_at(o, i + 2)).push('*')
    } else {
        addr_text(addr_at(o, i + 2))
    }
}

/// The content of a `ui_shape` frame with `k` digipeaters.
pub open spec fn ui_view(o: Seq<u8>, k: nat) -> Ax25View {
    Ax25View {
        dest: addr_text(addr_at(o, 0)),
        source: addr_text(addr_at(o, 1)),
        digipeaters: Seq::new(k, |i: int| digi_text(o, i)),
        info: o.subrange(7 * (k + 2) as int + 2, o.len() as int),
    }
}

/// The decode of AX.25 octets: `None` unless the octets form a UI frame.
pub open spec fn spec_parse_ui(o: Seq<u8>) -> Option<Ax25View> {
    if exists|k: nat| ui_shape(o, k) {
        Some(ui_view(o, choose|k: nat| ui_shape(o, k)))
    } else {
        None
    }
}

/// At most one digipeater count fits a frame: it is fixed by where the
/// address-extension bit first appears.
proof fn lemma_ui_shape_unique(o: Seq<u8>, k1: nat, k2: nat)
    requires
        ui_shape(o, k1),
        ui_shape(o, k2),
    ensures
        k1 == k2,
{
    if k1 < k2 {
        assert(addr_last(addr_at(o, (k1 + 1) as int)));
    } else if k2 < k1 {
        assert(addr_last(addr_at(o, (k2 + 1) as int)));
    }
}

/// The characters of a `String` list as sequences.
pub open spec fn string_views(v: Seq<String>) -> Seq<Seq<char>> {
    v.map_values(|s: String| s@)
}

impl Ax25Frame {
    /// Parse AX.25 octets (FCS already stripped). `None` if it isn't a UI
    /// frame or the addresses don't decode.
    pub fn parse(octets: &[u8]) -> (r: Option<Self>)
        ensures
            r is Some <==> spec_parse_ui(octets@) is Some,
            r matches Some(f) ==> spec_parse_ui(octets@) == Some(f@),
    {
        if octets.len() < 15 {
            return None;
        }
        let ghost o = octets@;
        let d = decode_addr(slice_range(octets, 0, 7));
        proof {
            assert(octets@.subrange(0, 7) =~= addr_at(o, 0));
        }
        let (dest, dlast) = match d {
            Some((c, l, _)) => (c, l),
            None => {
                proof {
                    assert forall|k: nat| !ui_shape(o, k) by {
                        if ui_shape(o, k) {
                            assert(addr_ok(addr_at(o, 0)));
                        }
                    }
                }
                return None;
            },
        };
        if dlast {
            proof {
                assert forall|k: nat| !ui_shape(o, k) by {
                    if ui_shape(o, k) {
                        assert(addr_last(addr_at(o, 0)));
                    }
                }
            }
            return None;
        }
        let s = decode_addr(slice_range(octets, 7, 14));
        proof {
            assert(octets@.subrange(7, 14) =~= addr_at(o, 1));
        }
        let (source, mut slast) = match s {
            Some((c, l, _)) => (c, l),
            None => {
                proof {
                    assert forall|k: nat| !ui_shape(o, k) by {
                        if ui_shape(o, k) {
                            assert(addr_ok(addr_at(o, 1)));
                        }
                    }
                }
                return None;
            },
        };
        let mut digipeaters: Vec<String> = Vec::new();
        let mut pos: usize = 14;
        while !slast
            invariant
                o == octets@,
                o.len() >= 15,
                digipeaters@.len() <= 8,
                pos == 7 * (digipeaters@.len() + 2),
                pos <= o.len(),
                forall|i: int| 0 <= i < digipeaters@.len() + 2 ==> addr_ok(#[trigger] addr_at(o, i)),
                forall|i: int|
                    0 <= i < digipeaters@.len() + 1 ==> !addr_last(#[trigger] addr_at(o, i)),
                slast == addr_last(addr_at(o, (digipeaters@.len() + 1) as int)),
                dest@ == addr_text(addr_at(o, 0)),
                source@ == addr_text(addr_at(o, 1)),
                forall|i: int|
                    0 <= i < digipeaters@.len() ==> (#[trigger] digipeaters@[i])@ == digi_text(o, i),
            decreases 8 - digipeaters@.len(),
        {
            let ghost n = digipeaters@.len();
            if pos + 7 > octets.len() {
                proof {
                    assert forall|k: nat| !ui_shape(o, k) by {
                        if ui_shape(o, k) {
                            assert(k + 1 != n + 1 ==> !addr_last(addr_at(o, (n + 1) as int)) || k + 1
                                == n + 1);
                            if k + 2 <= n + 2 {
                                assert(addr_last(addr_at(o, (k + 1) as int)));
                            }
                        }
                    }
                }
                return None;
            }
            let a = decode_addr(slice_range(octets, pos, pos + 7));
            proof {
                assert(octets@.subrange(pos as int, pos + 7) =~= addr_at(o, (n + 2) as int));
            }
            let (mut call, last, repeated) = match a {
                Some(t) => t,
                None => {
                    proof {
                        assert forall|k: nat| !ui_shape(o, k) by {
                            if ui_shape(o, k) {
                                if k + 2 <= n + 2 {
                                    assert(addr_last(addr_at(o, (k + 1) as int)));
                                } else {
                                    assert(addr_ok(addr_at(o, (n + 2) as int)));
                                }
                            }
                        }
                    }
                    return None;
                },
            };
            if repeated {
                call = push_char_string(call, '*');
            }
            digipeaters.push(call);
            slast = last;
            pos = pos + 7;
            if digipeaters.len() > 8 {
                proof {
                    assert forall|k: nat| !ui_shape(o, k) by {
                        if ui_shape(o, k) {
                            assert(addr_last(addr_at(o, (k + 1) as int)));
                        }
                    }
                }
                return None;
            }
        }
        let ghost k = digipeaters@.len();
        if pos + 2 > octets.len() || octets[pos] != 0x03 {
            proof {
                assert forall|k2: nat| !ui_shape(o, k2) by {
                    if ui_shape(o, k2) {
                        if k2 < k {
                            assert(addr_last(addr_at(o, (k2 + 1) as int)));
                        } else if k < k2 {
                            assert(addr_last(addr_at(o, (k + 1) as int)));
                        }
                    }
                }
            }
            return None;
        }
        pos = pos + 2;
        let info = vstd::slice::slice_to_vec(slice_range(octets, pos, octets.len()));
        let f = Self { dest, source, digipeaters, info };
        proof {
            assert(ui_shape(o, k));
            let kc = choose|k2: nat| ui_shape(o, k2);
            lemma_ui_shape_unique(o, k, kc);
            assert(f@.digipeaters =~= ui_view(o, k).digipeaters);
            assert(f@.info =~= ui_view(o, k).info);
        }
        Some(f)
    }

    /// The TNC2 monitor line: `SRC>DEST[,PATH…]:info`.
    pub fn to_tnc2(&self) -> (s: String)
        ensures
            s@ == tnc2_line(self@.source, self@.dest, self@.digipeaters, lossy_utf8(self@.info)),
            vstd::utf8::valid_utf8(self@.info) ==> s@ == tnc2_line(
                self@.source,
                self@.dest,
                self@.digipeaters,
                vstd::utf8::decode_utf8(self@.info),
            ),
    {
        let mut out: Vec<char> = Vec::new();
        append_str(&mut out, self.source.as_str());
        out.push('>');
        append_str(&mut out, self.dest.as_str());
        let ghost head = out@;
        let mut i: usize = 0;
        while i < self.digipeaters.len()
            invariant
                i <= self.digipeaters@.len(),
                out@ == head + path_text(string_views(self.digipeaters@).subrange(0, i as int)),
            decreases self.digipeaters.len() - i,
        {
            out.push(',');
            append_str(&mut out, self.digipeaters[i].as_str());
            proof {
                let p = string_views(self.digipeaters@);
                assert(p.subrange(0, i + 1).drop_last() =~= p.subrange(0, i as int));
            }
            i = i + 1;
        }
        out.push(':');
        let text = utf8_lossy(self.info.as_slice());
        append_str(&mut out, text.as_str());
        proof {
            assert(string_views(self.digipeaters@).subrange(0, i as int) =~= string_views(
                self.digipeaters@,
            ));
            assert(out@ =~= tnc2_line(self@.source, self@.dest, self@.digipeaters, text@));
        }
        string_from_chars(out.as_slice())
    }
}

/// `,d1,d2,...` for a digipeater path.
pub open spec fn path_text(p: Seq<Seq<char>>) -> Seq<char>
    decreases p.len(),
{
    if p.len() == 0 {
        Seq::empty()
    } else {
        path_text(p.drop_last()) + seq![','] + p.last()
    }
}

/// `SRC>DEST[,PATH…]:info`.
pub open spec fn tnc2_line(
    source: Seq<char>,
    dest: Seq<char>,
    path: Seq<Seq<char>>,
    info: Seq<char>,
) -> Seq<char> {
    source + seq!['>'] + dest + path_text(path) + seq![':'] + info
}

/// What `String::from_utf8_lossy` makes of a byte string.
pub uninterp spec fn lossy_utf8(bytes: Seq<u8>) -> Seq<char>;

/// Bytes that are all 7-bit ASCII.
pub open spec fn all_ascii(bytes: Seq<u8>) -> bool {
    forall|i: int| 0 <= i < bytes.len() ==> #[trigger] bytes[i] < 128
}

/// `String::from_utf8_lossy`: the result is a function of the bytes alone,
/// named `lossy_utf8`; valid UTF-8 comes back unchanged (decoded), which for
/// 7-bit ASCII means one character per byte. Which replacement characters
/// other input gets is left unsaid.
#[verifier::external_body]
pub(crate) fn utf8_lossy(bytes: &[u8]) -> (s: String)
    ensures
        s@ == lossy_utf8(bytes@),
        all_ascii(bytes@) ==> s@ == bytes@.map_values(|b: u8| b as char),
        vstd::utf8::valid_utf8(bytes@) ==> s@ == vstd::utf8::decode_utf8(bytes@),
{
    String::from_utf8_lossy(bytes).into_owned()
}

/// `s` with `c` appended.
fn push_char_string(s: String, c: char) -> (r: String)
    ensures
        r@ == s@.push(c),
{
    let mut v = chars_of(s.as_str());
    v.push(c);
    string_from_chars(v.as_slice())
}

/// The sub-slice `s[lo..hi]`.
fn slice_range(s: &[u8], lo: usize, hi: usize) -> (r: &[u8])
    requires
        lo <= hi <= s@.len(),
    ensures
        r@ == s@.subrange(lo as int, hi as int),
{
    vstd::slice::slice_subrange(s, lo, hi)
}


// --- building frames ---------------------------------------------------------

/// Index of the first `-` (byte 45) in `b` at or after `from`.
pub open spec fn dash_from(b: Seq<u8>, from: int) -> Option<int>
    decreases b.len() - from,
{
    if from < 0 || from >= b.len() {
        None
    } else if b[from] == 45 {
        Some(from)
    } else {
        dash_from(b, from + 1)
    }
}

/// Decimal value of a digit string (digits only).
pub open spec fn dec_value(d: Seq<u8>) -> nat
    decreases d.len(),
{
    if d.len() == 0 {
        0
    } else {
        dec_value(d.drop_last()) * 10 + (d.last() - 48) as nat
    }
}

pub open spec fn is_digit_byte(c: u8) -> bool {
    48 <= c <= 57
}

/// `str::parse::<u8>`: an optional `+`, then at least one ASCII digit,
/// value at most 255.
pub open spec fn spec_parse_u8(s: Seq<u8>) -> Option<u8> {
    parse_digits(if s.len() > 0 && s[0] == 43 { s.drop_first() } else { s })
}

pub open spec fn all_digits(d: Seq<u8>) -> bool {
    forall|i: int| 0 <= i < d.len() ==> is_digit_byte(#[trigger] d[i])
}

/// A non-empty digit string of value at most 255.
pub open spec fn parse_digits(d: Seq<u8>) -> Option<u8> {
    if d.len() > 0 && all_digits(d) && dec_value(d) <= 255 {
        Some(dec_value(d) as u8)
    } else {
        None
    }
}

/// The callsign part and SSID of a `CALL[-SSID]` string (SSID defaults to 0
/// and keeps its low nibble only).
pub open spec fn split_call(b: Seq<u8>) -> (Seq<u8>, u8) {
    match dash_from(b, 0) {
        Some(i) => (
            b.subrange(0, i),
            (match spec_parse_u8(b.subrange(i + 1, b.len() as int)) {
                Some(v) => v,
                None => 0u8,
            }) & 0x0Fu8,
        ),
        None => (b, 0u8),
    }
}

/// The 7 address octets `encode_addr` builds from the bytes of a callsign.
pub open spec fn spec_encode_addr(b: Seq<u8>, last: bool) -> Seq<u8> {
    let (name, ssid) = split_call(b);
    Seq::new(
        7,
        |i: int|
            if i < 6 {
                if i < name.len() {
                    (name[i] << 1u8) as u8
                } else {
                    0x40u8
                }
            } else {
                ((ssid << 1u8) | 0x60u8 | (if last { 1u8 } else { 0u8 })) as u8
            },
    )
}

fn first_dash(b: &[u8]) -> (r: Option<usize>)
    ensures
        r matches Some(i) ==> dash_from(b@, 0) == Some(i as int),
        r matches Some(i) ==> i < b@.len(),
        r is None ==> dash_from(b@, 0) is None,
{
    let mut i: usize = 0;
    while i < b.len()
        invariant
            i <= b@.len(),
            dash_from(b@, 0) == dash_from(b@, i as int),
        decreases b.len() - i,
    {
        if b[i] == 45 {
            return Some(i);
        }
        i = i + 1;
    }
    None
}

/// `str::parse::<u8>` on the bytes of a string.
fn parse_u8(s: &[u8]) -> (r: Option<u8>)
    ensures
        r == spec_parse_u8(s@),
{
    let start: usize = if s.len() > 0 && s[0] == 43 { 1 } else { 0 };
    let ghost d = if s@.len() > 0 && s@[0] == 43 { s@.drop_first() } else { s@ };
    if start >= s.len() {
        proof {
            assert(d.len() == 0);
        }
        return None;
    }
    proof {
        assert(s@.drop_first() =~= s@.subrange(1, s@.len() as int));
        assert(s@ =~= s@.subrange(0, s@.len() as int));
        assert(d.subrange(0, 0) =~= Seq::<u8>::empty());
    }
    let mut v: u32 = 0;
    let mut i: usize = start;
    while i < s.len()
        invariant
            start <= i <= s@.len(),
            d == s@.subrange(start as int, s@.len() as int),
            d == (if s@.len() > 0 && s@[0] == 43 { s@.drop_first() } else { s@ }),
            forall|j: int| 0 <= j < i - start ==> is_digit_byte(#[trigger] d[j]),
            v <= 255,
            v == dec_value(d.subrange(0, i - start)),
        decreases s.len() - i,
    {
        let c = s[i];
        if c < 48 || c > 57 {
            proof {
                assert(!is_digit_byte(d[i - start]));
            }
            return None;
        }
        proof {
            assert(d.subrange(0, i - start + 1).drop_last() =~= d.subrange(0, i - start));
            assert(d.subrange(0, i - start + 1).last() == c);
        }
        let nv = v * 10 + (c - 48) as u32;
        if nv > 255 {
            proof {
                if all_digits(d) {
                    lemma_dec_value_prefix_grows(d, i - start + 1);
                }
            }
            return None;
        }
        v = nv;
        i = i + 1;
    }
    proof {
        assert(d.subrange(0, i - start) =~= d);
        assert(s@.drop_first() =~= s@.subrange(1, s@.len() as int));
        assert(s@ =~= s@.subrange(0, s@.len() as int));
    }
    Some(v as u8)
}

/// A digit string's value is at least that of any of its prefixes.
proof fn lemma_dec_value_prefix_grows(d: Seq<u8>, k: int)
    requires
        0 <= k <= d.len(),
        forall|j: int| 0 <= j < d.len() ==> is_digit_byte(#[trigger] d[j]),
    ensures
        dec_value(d) >= dec_value(d.subrange(0, k)),
    decreases d.len(),
{
    if k < d.len() {
        assert(d.drop_last().subrange(0, k) =~= d.subrange(0, k));
        lemma_dec_value_prefix_grows(d.drop_last(), k);
    } else {
        assert(d.subrange(0, k) =~= d);
    }
}

/// Encode one address field into 7 octets.
pub fn encode_addr(call: &str, last: bool) -> (out: [u8; 7])
    ensures
        out@ == spec_encode_addr(call.spec_bytes(), last),
{
    let b = call.as_bytes();
    let n = b.len();
    let fd = first_dash(b);
    let (name, ssid): (&[u8], u8) = match fd {
        Some(i) => {
            let v = match parse_u8(slice_range(b, i + 1, n)) {
                Some(v) => v,
                None => 0,
            };
            (slice_range(b, 0, i), v & 0x0F)
        },
        None => (b, 0),
    };
    let mut out = [0x40u8; 7];
    let mut i: usize = 0;
    while i < 6 && i < name.len()
        invariant
            i <= 6,
            i <= name@.len(),
            out@.len() == 7,
            forall|j: int| 0 <= j < i ==> out@[j] == (name@[j] << 1u8) as u8,
            forall|j: int| i <= j < 7 ==> out@[j] == 0x40u8,
        decreases 6 - i,
    {
        out[i] = name[i] << 1u8;
        i = i + 1;
    }
    out[6] = (ssid << 1u8) | 0x60 | (if last { 1u8 } else { 0u8 });
    proof {
        assert(out@ =~= spec_encode_addr(b@, last));
    }
    out
}

/// Address `i` of a UI header for `dest`, `source` and `path` (callsign
/// bytes), with the extension bit on the last one.
pub open spec fn header_addr(dest: Seq<u8>, source: Seq<u8>, path: Seq<Seq<u8>>, i: int) -> Seq<u8> {
    if i == 0 {
        spec_encode_addr(dest, false)
    } else if i == 1 {
        spec_encode_addr(source, path.len() == 0)
    } else {
        spec_encode_addr(path[i - 2], i - 1 == path.len())
    }
}

/// The octets of a UI frame body (no FCS): the address header, control 0x03
/// (UI), PID 0xF0 (no layer 3), then `info`.
pub open spec fn spec_encode_ui(dest: Seq<u8>, source: Seq<u8>, path: Seq<Seq<u8>>, info: Seq<u8>) -> Seq<u8> {
    Seq::new(
        7 * (path.len() + 2),
        |j: int| header_addr(dest, source, path, j / 7)[j % 7],
    ) + seq![0x03u8, 0xF0u8] + info
}

/// The byte strings of a list of string slices.
pub open spec fn str_bytes(path: Seq<&str>) -> Seq<Seq<u8>> {
    path.map_values(|p: &str| p.spec_bytes())
}

fn push_addr(out: &mut Vec<u8>, a: [u8; 7])
    ensures
        final(out)@ == old(out)@ + a@,
{
    let mut k: usize = 0;
    while k < 7
        invariant
            k <= 7,
            out@ == old(out)@ + a@.subrange(0, k as int),
        decreases 7 - k,
    {
        out.push(a[k]);
        proof {
            assert(out@ =~= old(out)@ + a@.subrange(0, k + 1));
        }
        k = k + 1;
    }
    proof {
        assert(a@.subrange(0, 7) =~= a@);
    }
}

/// The first `n` addresses of the header, as octets.
pub open spec fn header_prefix(dest: Seq<u8>, source: Seq<u8>, path: Seq<Seq<u8>>, n: int) -> Seq<u8> {
    Seq::new((7 * n) as nat, |j: int| header_addr(dest, source, path, j / 7)[j % 7])
}

proof fn lemma_header_prefix_push(dest: Seq<u8>, source: Seq<u8>, path: Seq<Seq<u8>>, n: int)
    requires
        n >= 0,
        header_addr(dest, source, path, n).len() == 7,
    ensures
        header_prefix(dest, source, path, n + 1) == header_prefix(dest, source, path, n) + header_addr(
            dest,
            source,
            path,
            n,
        ),
{
    let a = header_prefix(dest, source, path, n + 1);
    let b = header_prefix(dest, source, path, n) + header_addr(dest, source, path, n);
    assert forall|j: int| 0 <= j < 7 * (n + 1) implies #[trigger] a[j] == b[j] by {
        if j >= 7 * n {
            assert(j / 7 == n);
            assert(j % 7 == j - 7 * n);
        }
    }
    assert(a =~= b);
}

/// Build an AX.25 UI frame body (no FCS) for `dest`/`source`/`path`/`info`.
pub fn encode_ui(dest: &str, source: &str, path: &[&str], info: &[u8]) -> (out: Vec<u8>)
    ensures
        out@ == spec_encode_ui(dest.spec_bytes(), source.spec_bytes(), str_bytes(path@), info@),
{
    let ghost p = str_bytes(path@);
    let ghost d = dest.spec_bytes();
    let ghost s = source.spec_bytes();
    let mut out: Vec<u8> = Vec::new();
    proof {
        assert(out@ =~= header_prefix(d, s, p, 0));
    }
    let a0 = encode_addr(dest, false);
    proof {
        assert(a0@ == header_addr(d, s, p, 0));
        lemma_header_prefix_push(d, s, p, 0);
    }
    push_addr(&mut out, a0);
    let a1 = encode_addr(source, path.len() == 0);
    proof {
        assert(a1@ == header_addr(d, s, p, 1));
        lemma_header_prefix_push(d, s, p, 1);
    }
    push_addr(&mut out, a1);
    let mut i: usize = 0;
    while i < path.len()
        invariant
            i <= path@.len(),
            p == str_bytes(path@),
            d == dest.spec_bytes(),
            s == source.spec_bytes(),
            out@ == header_prefix(d, s, p, i + 2),
        decreases path.len() - i,
    {
        let a = encode_addr(path[i], i + 1 == path.len());
        proof {
            assert(a@ == header_addr(d, s, p, i + 2));
            lemma_header_prefix_push(d, s, p, i + 2);
        }
        push_addr(&mut out, a);
        i = i + 1;
    }
    let ghost hdr = out@;
    out.push(0x03);
    out.push(0xF0);
    let mut m: usize = 0;
    while m < info.len()
        invariant
            m <= info@.len(),
            out@ == hdr + seq![0x03u8, 0xF0u8] + info@.subrange(0, m as int),
        decreases info.len() - m,
    {
        out.push(info[m]);
        proof {
            assert(out@ =~= hdr + seq![0x03u8, 0xF0u8] + info@.subrange(0, m + 1));
        }
        m = m + 1;
    }
    proof {
        assert(info@.subrange(0, m as int) =~= info@);
        assert(hdr =~= header_prefix(d, s, p, path@.len() + 2int));
    }
    out
}

/// Build the AX.25 UI-frame octets (no FCS) for an APRS packet.
/// `path` entries are digipeater aliases (`"WIDE1-1"` …); empty = direct.
pub fn ui_frame(source: &str, dest: &str, path: &[&str], info: &[u8]) -> (out: Vec<u8>)
    ensures
        out@ == spec_encode_ui(dest.spec_bytes(), source.spec_bytes(), str_bytes(path@), info@),
{
    encode_ui(dest, source, path, info)
}


/// `s` left-aligned in a field of `w` characters (space padded; longer
/// strings are kept whole).
pub open spec fn pad_right(s: Seq<char>, w: nat) -> Seq<char> {
    if s.len() >= w {
        s
    } else {
        s + Seq::new((w - s.len()) as nat, |i: int| ' ')
    }
}

/// The info field of an APRS text message: `:` + addressee (upper-cased,
/// padded to 9) + `:` + text.
pub open spec fn spec_message_info(to: Seq<char>, text: Seq<u8>) -> Seq<u8> {
    seq![58u8] + encode_utf8(pad_right(to.map_values(|c: char| ascii_upper(c)), 9)) + seq![58u8]
        + text
}

/// APRS text-message info field: `:` + addressee padded to 9 + `:` + text.
/// Unnumbered (no `{seq`), so no ack is expected.
pub fn message_info(to: &str, text: &str) -> (out: Vec<u8>)
    ensures
        out@ == spec_message_info(to@, text.spec_bytes()),
{
    let tc = chars_of(to);
    let mut up: Vec<char> = Vec::new();
    let mut i: usize = 0;
    while i < tc.len()
        invariant
            i <= tc@.len(),
            up@ == tc@.subrange(0, i as int).map_values(|c: char| ascii_upper(c)),
        decreases tc.len() - i,
    {
        up.push(ascii_upper_char(tc[i]));
        proof {
            assert(up@ =~= tc@.subrange(0, i + 1).map_values(|c: char| ascii_upper(c)));
        }
        i = i + 1;
    }
    proof {
        assert(tc@.subrange(0, i as int) =~= tc@);
    }
    let ghost upper = up@;
    while up.len() < 9
        invariant
            up@.len() <= 9 ==> up@ == upper + Seq::new((up@.len() - upper.len()) as nat, |i: int| ' '),
            up@.len() >= upper.len(),
            upper.len() < 9 ==> up@.len() <= 9,
            upper.len() >= 9 ==> up@ == upper,
        decreases 9 - up.len(),
    {
        up.push(' ');
        proof {
            assert(up@ =~= upper + Seq::new((up@.len() - upper.len()) as nat, |i: int| ' '));
        }
    }
    proof {
        assert(up@ =~= pad_right(upper, 9));
    }
    let padded = string_from_chars(up.as_slice());
    let pb = padded.as_str().as_bytes();
    let tb = text.as_bytes();
    let mut out: Vec<u8> = Vec::new();
    out.push(58);
    let mut j: usize = 0;
    while j < pb.len()
        invariant
            j <= pb@.len(),
            out@ == seq![58u8] + pb@.subrange(0, j as int),
        decreases pb.len() - j,
    {
        out.push(pb[j]);
        proof {
            assert(out@ =~= seq![58u8] + pb@.subrange(0, j + 1));
        }
        j = j + 1;
    }
    out.push(58);
    let ghost mid = out@;
    let mut m: usize = 0;
    while m < tb.len()
        invariant
            m <= tb@.len(),
            out@ == mid + tb@.subrange(0, m as int),
        decreases tb.len() - m,
    {
        out.push(tb[m]);
        proof {
            assert(out@ =~= mid + tb@.subrange(0, m + 1));
        }
        m = m + 1;
    }
    proof {
        assert(pb@.subrange(0, j as int) =~= pb@);
        assert(tb@.subrange(0, m as int) =~= tb@);
        assert(out@ =~= spec_message_info(to@, text.spec_bytes()));
    }
    out
}

// --- round trip -------------------------------------------------------------

/// ASCII letter or digit byte.
pub open spec fn is_alnum_byte(b: u8) -> bool {
    (65 <= b <= 90) || (97 <= b <= 122) || (48 <= b <= 57)
}

/// A callsign that an address field can carry: 1 to 6 ASCII letters or
/// digits.
pub open spec fn callsign_name_ok(name: Seq<u8>) -> bool {
    1 <= name.len() <= 6 && forall|i: int| 0 <= i < name.len() ==> is_alnum_byte(#[trigger] name[i])
}

/// The decimal digits of `n` as bytes.
pub open spec fn decimal_bytes(n: nat) -> Seq<u8> {
    spec_decimal(n).map_values(|c: char| c as u8)
}

/// The written form `NAME` or `NAME-SSID` of a callsign, as bytes.
pub open spec fn call_bytes(name: Seq<u8>, ssid: u8) -> Seq<u8> {
    if ssid == 0 {
        name
    } else {
        name + seq![45u8] + decimal_bytes(ssid as nat)
    }
}

/// The written form of a callsign, as characters.
pub open spec fn call_text(name: Seq<u8>, ssid: u8) -> Seq<char> {
    let n = name.map_values(|b: u8| b as char);
    if ssid == 0 {
        n
    } else {
        n + seq!['-'] + spec_decimal(ssid as nat)
    }
}

proof fn lemma_dash_skip(b: Seq<u8>, from: int, to: int)
    requires
        0 <= from <= to <= b.len(),
        forall|i: int| from <= i < to ==> #[trigger] b[i] != 45,
    ensures
        dash_from(b, from) == dash_from(b, to),
    decreases to - from,
{
    if from < to {
        lemma_dash_skip(b, from + 1, to);
    }
}

proof fn lemma_decimal_digits(n: nat)
    ensures
        decimal_bytes(n).len() > 0,
        all_digits(decimal_bytes(n)),
        dec_value(decimal_bytes(n)) == n,
    decreases n,
{
    let d = n % 10;
    let c = ((d + 48) as u8) as char;
    assert((c as u8) == (d + 48) as u8);
    let x = decimal_bytes(n);
    if n >= 10 {
        lemma_decimal_digits(n / 10);
        assert(x.drop_last() =~= decimal_bytes(n / 10));
        assert(x.last() == c as u8);
        assert forall|i: int| 0 <= i < x.len() implies is_digit_byte(#[trigger] x[i]) by {
            if i < x.len() - 1 {
                assert(x[i] == decimal_bytes(n / 10)[i]);
            }
        }
        assert(dec_value(x) == dec_value(x.drop_last()) * 10 + (x.last() - 48) as nat);
    } else {
        assert(x =~= seq![c as u8]);
        assert(x.drop_last() =~= Seq::<u8>::empty());
        assert(dec_value(x) == dec_value(x.drop_last()) * 10 + (x.last() - 48) as nat);
        assert(is_digit_byte(x[0]));
    }
}

proof fn lemma_call_chars_of_name(a: Seq<u8>, name: Seq<u8>, k: nat)
    requires
        a.len() == 7,
        k <= 6,
        name.len() <= 6,
        forall|i: int| 0 <= i < name.len() ==> is_alnum_byte(#[trigger] name[i]),
        forall|i: int| 0 <= i < 6 && i < name.len() ==> #[trigger] addr_char(a[i]) == name[i] as char,
        forall|i: int| name.len() <= i < 6 ==> #[trigger] addr_char(a[i]) == ' ',
    ensures
        call_chars(a, k) == name.take(if k <= name.len() { k as int } else { name.len() as int }).map_values(
            |b: u8| b as char,
        ),
    decreases k,
{
    if k > 0 {
        lemma_call_chars_of_name(a, name, (k - 1) as nat);
        if k <= name.len() {
            assert(is_alnum_byte(name[k - 1]));
            assert(name.take(k as int).map_values(|b: u8| b as char) =~= name.take(k - 1).map_values(
                |b: u8| b as char,
            ).push(name[k - 1] as char));
        }
    }
}

/// An address built from a valid callsign decodes to its written form,
/// with the requested extension bit and the repeated bit clear.
pub proof fn lemma_addr_round_trip(name: Seq<u8>, ssid: u8, last: bool)
    requires
        callsign_name_ok(name),
        ssid <= 15,
    ensures
        addr_ok(spec_encode_addr(call_bytes(name, ssid), last)),
        addr_text(spec_encode_addr(call_bytes(name, ssid), last)) == call_text(name, ssid),
        addr_last(spec_encode_addr(call_bytes(name, ssid), last)) == last,
        !addr_repeated(spec_encode_addr(call_bytes(name, ssid), last)),
{
    let b = call_bytes(name, ssid);
    assert forall|i: int| 0 <= i < name.len() implies #[trigger] name[i] != 45 by {
        assert(is_alnum_byte(name[i]));
    }
    if ssid == 0 {
        lemma_dash_skip(b, 0, b.len() as int);
        assert(split_call(b) == (name, 0u8));
    } else {
        assert forall|i: int| 0 <= i < name.len() implies #[trigger] b[i] != 45 by {
            assert(b[i] == name[i]);
        }
        lemma_dash_skip(b, 0, name.len() as int);
        assert(dash_from(b, 0) == Some(name.len() as int));
        lemma_decimal_digits(ssid as nat);
        let digits = decimal_bytes(ssid as nat);
        assert(b.subrange(name.len() as int + 1, b.len() as int) =~= digits);
        assert(digits[0] != 43);
        assert(b.subrange(0, name.len() as int) =~= name);
        assert(ssid & 0x0Fu8 == ssid) by (bit_vector)
            requires
                ssid <= 15,
        ;
        assert(split_call(b) == (name, ssid));
    }
    let a = spec_encode_addr(b, last);
    let l: u8 = if last { 1 } else { 0 };
    assert forall|i: int| 0 <= i < 6 && i < name.len() implies #[trigger] addr_char(a[i]) == name[i]
        as char by {
        let c = name[i];
        assert(is_alnum_byte(c));
        assert(((c << 1u8) as u8) >> 1u8 == c) by (bit_vector)
            requires
                c < 128,
        ;
    }
    assert forall|i: int| name.len() <= i < 6 implies #[trigger] addr_char(a[i]) == ' ' by {
        assert(0x40u8 >> 1u8 == 0x20u8) by (bit_vector);
    }
    lemma_call_chars_of_name(a, name, 6);
    assert(name.take(name.len() as int) =~= name);
    assert(((((ssid << 1u8) | 0x60u8 | l) as u8) >> 1u8) & 0x0Fu8 == ssid && (((ssid << 1u8)
        | 0x60u8 | l) as u8) & 0x01u8 == l && (((ssid << 1u8) | 0x60u8 | l) as u8) & 0x80u8 == 0)
        by (bit_vector)
        requires
            ssid <= 15,
            l <= 1,
    ;
    assert forall|i: int| 0 <= i < 6 implies addr_char(#[trigger] a[i]) == ' ' || is_alnum(
        addr_char(a[i]),
    ) by {
        if i < name.len() {
            assert(is_alnum_byte(name[i]));
        }
    }
}

/// The callsign bytes of a list of `(name, ssid)` pairs.
pub open spec fn path_bytes(path: Seq<(Seq<u8>, u8)>) -> Seq<Seq<u8>> {
    path.map_values(|p: (Seq<u8>, u8)| call_bytes(p.0, p.1))
}

/// A UI frame built from valid callsigns, at most 8 digipeaters and any
/// information bytes parses back to exactly those callsigns (in written
/// form), that path and those bytes.
pub proof fn lemma_ui_round_trip(
    dest: (Seq<u8>, u8),
    source: (Seq<u8>, u8),
    path: Seq<(Seq<u8>, u8)>,
    info: Seq<u8>,
)
    requires
        callsign_name_ok(dest.0) && dest.1 <= 15,
        callsign_name_ok(source.0) && source.1 <= 15,
        forall|i: int| 0 <= i < path.len() ==> callsign_name_ok(#[trigger] path[i].0) && path[i].1 <= 15,
        path.len() <= 8,
    ensures
        spec_parse_ui(
            spec_encode_ui(
                call_bytes(dest.0, dest.1),
                call_bytes(source.0, source.1),
                path_bytes(path),
                info,
            ),
        ) == Some(
            Ax25View {
                dest: call_text(dest.0, dest.1),
                source: call_text(source.0, source.1),
                digipeaters: path.map_values(|p: (Seq<u8>, u8)| call_text(p.0, p.1)),
                info,
            },
        ),
{
    let d = call_bytes(dest.0, dest.1);
    let s = call_bytes(source.0, source.1);
    let p = path_bytes(path);
    let o = spec_encode_ui(d, s, p, info);
    let k = path.len();
    assert forall|i: int| 0 <= i < k + 2 implies #[trigger] addr_at(o, i) == header_addr(d, s, p, i) by {
        assert(addr_at(o, i) =~= header_addr(d, s, p, i));
    }
    assert forall|i: int| 0 <= i < k + 2 implies addr_ok(#[trigger] addr_at(o, i)) && (addr_last(
        addr_at(o, i),
    ) <==> (i == k + 1)) && !addr_repeated(addr_at(o, i)) by {
        if i == 0 {
            lemma_addr_round_trip(dest.0, dest.1, false);
        } else if i == 1 {
            lemma_addr_round_trip(source.0, source.1, k == 0);
        } else {
            lemma_addr_round_trip(path[i - 2].0, path[i - 2].1, i - 1 == k);
        }
    }
    assert(o[7 * (k + 2) as int] == 0x03);
    assert(ui_shape(o, k));
    let kc = choose|k2: nat| ui_shape(o, k2);
    lemma_ui_shape_unique(o, k, kc);
    lemma_addr_round_trip(dest.0, dest.1, false);
    lemma_addr_round_trip(source.0, source.1, k == 0);
    let v = ui_view(o, k);
    assert forall|i: int| 0 <= i < k implies #[trigger] v.digipeaters[i] == call_text(
        path[i].0,
        path[i].1,
    ) by {
        lemma_addr_round_trip(path[i].0, path[i].1, i + 1 == k);
        assert(addr_at(o, i + 2) == header_addr(d, s, p, i + 2));
    }
    assert(v.digipeaters =~= path.map_values(|p: (Seq<u8>, u8)| call_text(p.0, p.1)));
    assert(v.info =~= info);
}

proof fn lemma_decimal_is_digits(n: nat)
    ensures
        forall|i: int| 0 <= i < spec_decimal(n).len() ==> '0' <= #[trigger] spec_decimal(n)[i] <= '9',
    decreases n,
{
    let d = spec_decimal(n);
    let last = digit_char(n % 10);
    assert('0' <= last <= '9') by {
        assert(((n % 10 + 48) as u8) as u32 == n % 10 + 48);
    }
    if n >= 10 {
        lemma_decimal_is_digits(n / 10);
        assert forall|i: int| 0 <= i < d.len() implies '0' <= #[trigger] d[i] <= '9' by {
            if i < d.len() - 1 {
                assert(d[i] == spec_decimal(n / 10)[i]);
            }
        }
    } else {
        assert(n % 10 == n);
    }
}

/// The written form of a valid callsign is ASCII, and encodes in UTF-8 to
/// the bytes it is built from.
proof fn lemma_call_text_bytes(name: Seq<u8>, ssid: u8)
    requires
        callsign_name_ok(name),
        ssid <= 15,
    ensures
        encode_utf8(call_text(name, ssid)) == call_bytes(name, ssid),
{
    let b = call_bytes(name, ssid);
    lemma_decimal_is_digits(ssid as nat);
    let d = spec_decimal(ssid as nat);
    let dm = decimal_bytes(ssid as nat).map_values(|x: u8| x as char);
    assert(dm =~= d) by {
        assert forall|i: int| 0 <= i < d.len() implies #[trigger] dm[i] == d[i] by {
            assert('0' <= d[i] <= '9');
        }
    }
    assert forall|i: int| 0 <= i < b.len() implies #[trigger] b[i] < 128 by {
        if i < name.len() {
            assert(is_alnum_byte(name[i]));
        } else if ssid != 0 && i > name.len() {
            let k = i - name.len() - 1;
            assert('0' <= d[k] <= '9');
        }
    }
    let bm = b.map_values(|x: u8| x as char);
    assert(bm =~= call_text(name, ssid)) by {
        if ssid != 0 {
            assert forall|i: int| 0 <= i < b.len() implies #[trigger] bm[i] == call_text(name, ssid)[i] by {
                if i > name.len() {
                    let k = i - name.len() - 1;
                    assert(dm[k] == d[k]);
                }
            }
        }
    }
    lemma_ascii_bytes(b);
}

/// A callsign in written form: `NAME`, or `NAME-SSID` with SSID 1..=15,
/// NAME being 1 to 6 ASCII letters or digits.
pub open spec fn written_call(t: Seq<char>) -> bool {
    exists|name: Seq<u8>, ssid: u8| callsign_name_ok(name) && ssid <= 15 && t == call_text(name, ssid)
}

/// A UI frame encoded from callsigns in written form (as the UTF-8 bytes of
/// their strings), at most 8 digipeaters and any information bytes parses
/// back to exactly those callsigns, that path and those bytes.
pub proof fn lemma_ui_text_round_trip(dest: Seq<char>, source: Seq<char>, path: Seq<Seq<char>>, info: Seq<u8>)
    requires
        written_call(dest),
        written_call(source),
        forall|i: int| 0 <= i < path.len() ==> written_call(#[trigger] path[i]),
        path.len() <= 8,
    ensures
        spec_parse_ui(
            spec_encode_ui(
                encode_utf8(dest),
                encode_utf8(source),
                path.map_values(|p: Seq<char>| encode_utf8(p)),
                info,
            ),
        ) == Some(Ax25View { dest, source, digipeaters: path, info }),
{
    let (dn, ds) = choose|name: Seq<u8>, ssid: u8| callsign_name_ok(name) && ssid <= 15 && dest == call_text(name, ssid);
    let (sn, ss) = choose|name: Seq<u8>, ssid: u8| callsign_name_ok(name) && ssid <= 15 && source == call_text(name, ssid);
    let pp = Seq::new(path.len(), |i: int| choose|pair: (Seq<u8>, u8)| callsign_name_ok(pair.0) && pair.1 <= 15 && path[i] == call_text(pair.0, pair.1));
    assert forall|i: int| 0 <= i < path.len() implies callsign_name_ok(#[trigger] pp[i].0) && pp[i].1 <= 15 && path[i] == call_text(pp[i].0, pp[i].1) by {
        assert(written_call(path[i]));
        let (n, s) = choose|name: Seq<u8>, ssid: u8| callsign_name_ok(name) && ssid <= 15 && path[i] == call_text(name, ssid);
        assert(callsign_name_ok((n, s).0) && (n, s).1 <= 15 && path[i] == call_text((n, s).0, (n, s).1));
    }
    lemma_call_text_bytes(dn, ds);
    lemma_call_text_bytes(sn, ss);
    assert(path_bytes(pp) =~= path.map_values(|p: Seq<char>| encode_utf8(p))) by {
        assert forall|i: int| 0 <= i < path.len() implies #[trigger] path_bytes(pp)[i] == encode_utf8(path[i]) by {
            lemma_call_text_bytes(pp[i].0, pp[i].1);
        }
    }
    assert(pp.map_values(|p: (Seq<u8>, u8)| call_text(p.0, p.1)) =~= path);
    lemma_ui_round_trip((dn, ds), (sn, ss), pp, info);
}

} // verus!
