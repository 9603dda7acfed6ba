//! AIS (ITU-R M.1371) message layer: the payload bit view, the 6-bit ASCII
//! table, the AIVDM armor codec, the HDLC frame-check sequence, the NMEA
//! checksum, ship-type / navigation-status labels, and the message decode.
//!
//! Positions and rates are kept in the units the message carries (1/10000
//! minute, tenths of a knot, ...); turning them into degrees and knots is
//! left to the caller.

use vstd::prelude::*;
use vstd::string::StringSliceAdditionalSpecFns;
use crate::text::{lemma_ascii_bytes, string_from_chars, trim_end_by, trim_start_by, trim_end_chars, trim_start_chars};

verus! {

/// Bit `i` (0-based, MSB first) of a packed big-endian byte string.
pub open spec fn packed_bit(data: Seq<u8>, i: int) -> bool {
    (data[i / 8] >> ((7 - i % 8) as u8)) & 1u8 == 1u8
}

/// The first `len` bits of a packed big-endian byte string.
pub open spec fn unpack_bits(data: Seq<u8>, len: nat) -> Seq<bool> {
    Seq::new(len, |i: int| packed_bit(data, i))
}

/// `n` bits (MSB first) of `s` starting at `start`, as the low bits of a
/// `u64`; positions at or past the end read as 0.
pub open spec fn spec_field(s: Seq<bool>, start: int, n: nat) -> u64
    decreases n,
{
    if n == 0 {
        0
    } else {
        (spec_field(s, start, (n - 1) as nat) << 1u64) | (if 0 <= start + n - 1 < s.len()
            && s[start + n - 1] {
            1u64
        } else {
            0u64
        })
    }
}

/// A bit view over the reconstructed big-endian AIS payload.
pub struct Bits<'a> {
    data: &'a [u8],
    len: usize,
}

impl<'a> View for Bits<'a> {
    type V = Seq<bool>;

    closed spec fn view(&self) -> Seq<bool> {
        unpack_bits(self.data@, self.len as nat)
    }
}

impl<'a> Bits<'a> {
    #[verifier::type_invariant]
    closed spec fn wf(&self) -> bool {
        self.len <= self.data@.len() * 8
    }

    /// A view of the first `len` bits of `data`.
    pub fn new(data: &'a [u8], len: usize) -> (b: Self)
        requires
            len <= data@.len() * 8,
        ensures
            b@ == unpack_bits(data@, len as nat),
    {
        Self { data, len }
    }

    pub fn len(&self) -> (n: usize)
        ensures
            n == self@.len(),
    {
        self.len
    }

    /// Unsigned big-endian field of `n` bits at `start`; bits past the end
    /// read as 0.
    pub fn u(&self, start: usize, n: usize) -> (v: u64)
        requires
            start + n <= usize::MAX,
        ensures
            v == spec_field(self@, start as int, n as nat),
    {
        proof {
            use_type_invariant(self);
        }
        let mut v: u64 = 0;
        let mut i: usize = 0;
        while i < n
            invariant
                i <= n,
                start + n <= usize::MAX,
                self.len <= self.data@.len() * 8,
                v == spec_field(self@, start as int, i as nat),
            decreases n - i,
        {
            let bit = start + i;
            let b: u8 = if bit < self.len {
                let x = self.data[bit / 8];
                let sh: u8 = (7 - bit % 8) as u8;
                proof {
                    assert((x >> sh) & 1u8 == 1u8 || (x >> sh) & 1u8 == 0u8) by (bit_vector);
                }
                (x >> sh) & 1u8
            } else {
                0
            };
            assert((b as u64) == (if 0 <= bit < self@.len() && self@[bit as int] {
                1u64
            } else {
                0u64
            }));
            v = (v << 1u64) | (b as u64);
            i = i + 1;
        }
        v
    }

    /// Two's-complement signed field of `n` bits at `start`.
    pub fn i(&self, start: usize, n: usize) -> (v: i64)
        requires
            1 <= n <= 62,
            start + n <= usize::MAX,
        ensures
            v == spec_signed(spec_field(self@, start as int, n as nat), n as nat),
    {
        let raw = self.u(start, n);
        let sign: u64 = 1u64 << ((n - 1) as u64);
        proof {
            lemma_field_bound(self@, start as int, n as nat);
            assert((1u64 << (n as u64)) == 2 * (1u64 << ((n - 1) as u64)) && (1u64 << (n as u64))
                <= 0x4000_0000_0000_0000u64 && (1i64 << (n as u32)) as int == (1u64 << (n as u64)) as int)
                by (bit_vector)
                requires
                    1 <= n <= 62,
            ;
        }
        if raw & sign != 0 {
            (raw as i64) - (1i64 << (n as u32))
        } else {
            raw as i64
        }
    }

    /// 6-bit-ASCII text field of `n_chars` characters at `start`, trailing
    /// `@` and spaces trimmed, then leading spaces.
    pub fn text(&self, start: usize, n_chars: usize) -> (s: String)
        requires
            start + n_chars * 6 + 6 <= usize::MAX,
        ensures
            s@ == spec_text(self@, start as int, n_chars as nat),
    {
        let mut raw: Vec<char> = Vec::new();
        let mut k: usize = 0;
        while k < n_chars
            invariant
                k <= n_chars,
                start + n_chars * 6 + 6 <= usize::MAX,
                raw@ == raw_text(self@, start as int, n_chars as nat).subrange(0, k as int),
            decreases n_chars - k,
        {
            let v = self.u(start + k * 6, 6) as u8;
            raw.push(sixbit_to_ascii(v));
            proof {
                assert(raw@ =~= raw_text(self@, start as int, n_chars as nat).subrange(0, k + 1));
            }
            k = k + 1;
        }
        proof {
            assert(raw@ =~= raw_text(self@, start as int, n_chars as nat));
        }
        let end_pad = ['@', ' '];
        let start_pad = [' '];
        proof {
            assert(end_pad@ =~= seq!['@', ' ']);
            assert(start_pad@ =~= seq![' ']);
        }
        let e = trim_end_chars(&raw, &end_pad);
        let t = trim_start_chars(&e, &start_pad);
        string_from_chars(t.as_slice())
    }
}

/// Two's-complement reading of an `n`-bit field value.
pub open spec fn spec_signed(raw: u64, n: nat) -> int {
    if raw & (1u64 << ((n - 1) as u64)) != 0 {
        raw as int - (1u64 << (n as u64)) as int
    } else {
        raw as int
    }
}

/// The powers of two that field widths in this module produce.
proof fn lemma_small_pow2()
    ensures
        1u64 << 0u64 == 1u64,
        1u64 << 4u64 == 16u64,
        1u64 << 5u64 == 32u64,
        1u64 << 6u64 == 64u64,
        1u64 << 8u64 == 256u64,
        1u64 << 9u64 == 512u64,
        1u64 << 10u64 == 1024u64,
        1u64 << 12u64 == 4096u64,
        1u64 << 30u64 == 0x4000_0000u64,
{
    assert(1u64 << 0u64 == 1u64 && 1u64 << 4u64 == 16u64 && 1u64 << 5u64 == 32u64 && 1u64 << 6u64
        == 64u64 && 1u64 << 8u64 == 256u64 && 1u64 << 9u64 == 512u64 && 1u64 << 10u64 == 1024u64
        && 1u64 << 12u64 == 4096u64 && 1u64 << 30u64 == 0x4000_0000u64) by (bit_vector);
}

proof fn lemma_field_bound(s: Seq<bool>, start: int, n: nat)
    requires
        n <= 63,
    ensures
        spec_field(s, start, n) < (1u64 << (n as u64)),
    decreases n,
{
    if n == 0 {
        lemma_small_pow2();
    } else {
        lemma_field_bound(s, start, (n - 1) as nat);
        let p = spec_field(s, start, (n - 1) as nat);
        let b: u64 = if 0 <= start + n - 1 < s.len() && s[start + n - 1] { 1 } else { 0 };
        let k = (n - 1) as u64;
        assert((p << 1u64) | b < (1u64 << (k + 1))) by (bit_vector)
            requires
                p < (1u64 << k),
                b <= 1,
                k < 63,
        ;
    }
}

proof fn lemma_shift_in_bit(f: u64, b: u64, sh: u64)
    requires
        b <= 1,
        1 <= sh < 64,
    ensures
        (((f << 1u64) | b) >> sh) & 1u64 == (f >> ((sh - 1) as u64)) & 1u64,
        ((f << 1u64) | b) & 1u64 == b,
{
    assert((((f << 1u64) | b) >> sh) & 1u64 == (f >> ((sh - 1) as u64)) & 1u64) by (bit_vector)
        requires
            b <= 1,
            1 <= sh < 64,
    ;
    assert(((f << 1u64) | b) & 1u64 == b) by (bit_vector)
        requires
            b <= 1,
    ;
}

/// Bit `k` (counted from the most significant of `m`) of an `m`-bit field
/// is the `k`-th bit of the field.
proof fn lemma_field_bit(s: Seq<bool>, start: int, m: nat, k: int)
    requires
        1 <= m <= 63,
        0 <= k < m,
    ensures
        (spec_field(s, start, m) >> ((m - 1 - k) as u64)) & 1u64 == (if 0 <= start + k < s.len()
            && s[start + k] {
            1u64
        } else {
            0u64
        }),
    decreases m,
{
    let f = spec_field(s, start, (m - 1) as nat);
    let b: u64 = if 0 <= start + m - 1 < s.len() && s[start + m - 1] { 1 } else { 0 };
    if k == m - 1 {
        lemma_shift_in_bit(f, b, 1);
        assert(((f << 1u64) | b) >> 0u64 == (f << 1u64) | b) by (bit_vector);
    } else {
        lemma_shift_in_bit(f, b, (m - 1 - k) as u64);
        lemma_field_bit(s, start, (m - 1) as nat, k);
    }
}

/// Number of `unit`-sized groups needed to hold `n` items.
pub open spec fn groups(n: nat, unit: nat) -> nat
    recommends
        unit > 0,
{
    ((n + unit - 1) / unit as int) as nat
}

/// Packs a big-endian bit string into bytes, the last byte zero-padded.
pub open spec fn spec_pack_msb(bits: Seq<bool>) -> Seq<u8> {
    Seq::new(groups(bits.len(), 8), |j: int| spec_field(bits, 8 * j, 8) as u8)
}

/// Packing then reading back the first `bits.len()` bits gives the bits.
pub proof fn lemma_pack_unpack(bits: Seq<bool>)
    ensures
        unpack_bits(spec_pack_msb(bits), bits.len()) == bits,
{
    let p = spec_pack_msb(bits);
    assert forall|i: int| 0 <= i < bits.len() implies #[trigger] packed_bit(p, i) == bits[i] by {
        let j = i / 8;
        let k = i % 8;
        lemma_field_bound(bits, 8 * j, 8);
        lemma_small_pow2();
        lemma_field_bit(bits, 8 * j, 8, k);
        let f = spec_field(bits, 8 * j, 8);
        let sh = (7 - k) as u8;
        assert(((f as u8) >> sh) & 1u8 == ((f >> (sh as u64)) & 1u64) as u8) by (bit_vector)
            requires
                f < 256,
                sh < 8,
        ;
    }
    assert(unpack_bits(p, bits.len()) =~= bits);
}

fn pack_msb(bits: &[bool]) -> (out: Vec<u8>)
    ensures
        out@ == spec_pack_msb(bits@),
{
    let n = bits.len();
    let nbytes = n / 8 + if n % 8 != 0 { 1 } else { 0 };
    let mut out: Vec<u8> = Vec::new();
    let mut j: usize = 0;
    while j < nbytes
        invariant
            n == bits@.len(),
            nbytes == groups(bits@.len(), 8),
            j <= nbytes,
            out@ == spec_pack_msb(bits@).subrange(0, j as int),
        decreases nbytes - j,
    {
        assert(8 * j < n) by (nonlinear_arith)
            requires
                j < nbytes,
                nbytes == (n + 7) / 8,
        ;
        let base = 8 * j;
        let mut v: u64 = 0;
        let mut k: usize = 0;
        while k < 8
            invariant
                k <= 8,
                j < nbytes,
                base == 8 * j,
                base < bits@.len(),
                nbytes == groups(bits@.len(), 8),
                v == spec_field(bits@, 8 * j as int, k as nat),
            decreases 8 - k,
        {
            let b: u64 = if k < bits.len() - base && bits[base + k] { 1 } else { 0 };
            v = (v << 1u64) | b;
            k = k + 1;
        }
        out.push(#[verifier::truncate] (v as u8));
        proof {
            assert(out@ =~= spec_pack_msb(bits@).subrange(0, j + 1));
        }
        j = j + 1;
    }
    proof {
        assert(out@ =~= spec_pack_msb(bits@));
    }
    out
}

/// The payload bits an armored character string carries (6 per character,
/// MSB first); only meaningful when every character is armor.
pub open spec fn armored_bits(payload: Seq<u8>) -> Seq<bool> {
    Seq::new(
        payload.len() * 6,
        |i: int|
            (spec_unarmor_char(payload[i / 6]).unwrap() >> ((5 - i % 6) as u8)) & 1u8 == 1u8,
    )
}

/// Decode of an AIVDM payload with `fill_bits` pad bits: `None` if a
/// character is not armor, else the packed bits and their count.
pub open spec fn spec_unarmor(payload: Seq<u8>, fill_bits: u8) -> Option<(Seq<u8>, nat)> {
    if forall|i: int| 0 <= i < payload.len() ==> #[trigger] spec_unarmor_char(payload[i]) is Some {
        let n = payload.len() * 6;
        let keep: nat = if n >= fill_bits { (n - fill_bits) as nat } else { 0 };
        Some((spec_pack_msb(armored_bits(payload).take(keep as int)), keep))
    } else {
        None
    }
}

/// Decode an AIVDM armored payload (+ fill bits) into a packed big-endian bit
/// string. Returns `(bytes, bit_len)`.
pub fn unarmor(payload: &str, fill_bits: u8) -> (r: Option<(Vec<u8>, usize)>)
    ensures
        r is Some <==> spec_unarmor(payload.spec_bytes(), fill_bits) is Some,
        r matches Some((bytes, len)) ==> spec_unarmor(payload.spec_bytes(), fill_bits) == Some(
            (bytes@, len as nat),
        ),
{
    let p = payload.as_bytes();
    let mut bits: Vec<bool> = Vec::new();
    let mut i: usize = 0;
    while i < p.len()
        invariant
            i <= p.len(),
            p@ == payload.spec_bytes(),
            bits@.len() == i * 6,
            forall|j: int| 0 <= j < i ==> #[trigger] spec_unarmor_char(p@[j]) is Some,
            forall|b: int| 0 <= b < i * 6 ==> #[trigger] bits@[b] == armored_bits(p@)[b],
        decreases p.len() - i,
    {
        let v = match unarmor_char(p[i]) {
            Some(v) => v,
            None => {
                return None;
            },
        };
        let mut k: usize = 0;
        while k < 6
            invariant
                k <= 6,
                i < p.len(),
                spec_unarmor_char(p@[i as int]) == Some(v),
                bits@.len() == i * 6 + k,
                forall|b: int| 0 <= b < i * 6 + k ==> #[trigger] bits@[b] == armored_bits(p@)[b],
            decreases 6 - k,
        {
            let sh: u8 = (5 - k) as u8;
            bits.push((v >> sh) & 1 == 1);
            proof {
                let b = (i * 6 + k) as int;
                assert(b / 6 == i as int && b % 6 == k as int);
            }
            k = k + 1;
        }
        i = i + 1;
    }
    let keep = bits.len().saturating_sub(fill_bits as usize);
    bits.truncate(keep);
    proof {
        assert(bits@ =~= armored_bits(p@).take(keep as int));
    }
    Some((pack_msb(bits.as_slice()), keep))
}

/// The armor character codes of a bit string: one per 6-bit group, the last
/// group zero-padded.
pub open spec fn armor_codes(bits: Seq<bool>) -> Seq<u8> {
    Seq::new(groups(bits.len(), 6), |g: int| spec_armor_value(spec_field(bits, 6 * g, 6) as u8))
}

/// Pad bits added to fill the last 6-bit group.
pub open spec fn armor_fill(bits: Seq<bool>) -> u8 {
    ((6 - bits.len() % 6) % 6) as u8
}

/// Re-armor a big-endian bit string into an AIVDM payload string + fill bits.
pub fn armor(bits: &[bool]) -> (r: (String, u8))
    ensures
        r.0@ == armor_codes(bits@).map_values(|c: u8| c as char),
        r.1 == armor_fill(bits@),
{
    let fill = (6 - bits.len() % 6) % 6;
    let mut s: Vec<char> = Vec::new();
    let mut i: usize = 0;
    while i < bits.len()
        invariant
            i <= bits@.len(),
            i % 6 == 0 || i == bits@.len(),
            s@ == armor_codes(bits@).subrange(0, groups(i as nat, 6) as int).map_values(|c: u8| c as char),
        decreases bits.len() - i,
    {
        let mut v: u64 = 0;
        let mut k: usize = 0;
        while k < 6
            invariant
                k <= 6,
                i < bits@.len(),
                v == spec_field(bits@, i as int, k as nat),
            decreases 6 - k,
        {
            let b: u64 = if k < bits.len() - i && bits[i + k] { 1 } else { 0 };
            v = (v << 1u64) | b;
            k = k + 1;
        }
        proof {
            lemma_field_bound(bits@, i as int, 6);
            lemma_small_pow2();
        }
        let c = armor_value(v as u8);
        s.push(c as char);
        let ghost g = groups(i as nat, 6);
        proof {
            assert(g == i / 6);
            assert(armor_codes(bits@)[g as int] == spec_armor_value(spec_field(bits@, 6 * (g as int), 6) as u8));
            assert(s@ =~= armor_codes(bits@).subrange(0, (g + 1) as int).map_values(|c: u8| c as char));
        }
        if bits.len() - i > 6 {
            i = i + 6;
        } else {
            i = bits.len();
        }
        proof {
            assert(groups(i as nat, 6) == g + 1);
        }
    }
    proof {
        assert(s@ =~= armor_codes(bits@).map_values(|c: u8| c as char));
    }
    (string_from_chars(s.as_slice()), fill as u8)
}

/// Armoring a bit string and unarmoring the result with its fill gives back
/// the packed bits and their exact count.
#[verifier::spinoff_prover]
pub proof fn lemma_unarmor_armor(bits: Seq<bool>)
    ensures
        spec_unarmor(armor_codes(bits), armor_fill(bits)) == Some(
            (spec_pack_msb(bits), bits.len()),
        ),
{
    let codes = armor_codes(bits);
    let ng = groups(bits.len(), 6);
    assert forall|g: int| 0 <= g < codes.len() implies #[trigger] spec_unarmor_char(codes[g])
        == Some(spec_field(bits, 6 * g, 6) as u8) by {
        lemma_field_bound(bits, 6 * g, 6);
        lemma_small_pow2();
    }
    let ab = armored_bits(codes);
    assert(ng * 6 == bits.len() + armor_fill(bits)) by {
        assert(bits.len() % 6 == 0 ==> armor_fill(bits) == 0);
    }
    assert forall|i: int| 0 <= i < bits.len() implies #[trigger] ab[i] == bits[i] by {
        let g = i / 6;
        let k = i % 6;
        let f = spec_field(bits, 6 * g, 6);
        lemma_field_bound(bits, 6 * g, 6);
        lemma_small_pow2();
        lemma_field_bit(bits, 6 * g, 6, k);
        let sh = (5 - k) as u8;
        assert(((f as u8) >> sh) & 1u8 == ((f >> (sh as u64)) & 1u64) as u8) by (bit_vector)
            requires
                f < 64,
                sh < 6,
        ;
    }
    assert(ab.take(bits.len() as int) =~= bits);
}

/// 6-bit ASCII: 0 -> '@', 1..=31 -> 'A'..'_', 32.. -> ' '..'?'.
pub open spec fn sixbit_char(v: u8) -> char {
    (if v < 32 { (v + 64) as u8 } else { v }) as char
}

fn sixbit_to_ascii(v: u8) -> (c: char)
    ensures
        c == sixbit_char(v),
{
    let c = if v < 32 { v + 64 } else { v };
    c as char
}

/// The untrimmed characters of a 6-bit text field.
pub open spec fn raw_text(s: Seq<bool>, start: int, n_chars: nat) -> Seq<char> {
    Seq::new(n_chars, |k: int| sixbit_char(spec_field(s, start + k * 6, 6) as u8))
}

/// A 6-bit text field with trailing `@`/space padding and leading spaces
/// removed.
pub open spec fn spec_text(s: Seq<bool>, start: int, n_chars: nat) -> Seq<char> {
    trim_start_by(trim_end_by(raw_text(s, start, n_chars), seq!['@', ' ']), seq![' '])
}

/// AIVDM payload armor, character to 6-bit value: `'0'..='X'` carry 0..=40
/// and `` '`'..='w' `` carry 40..=63; anything else is not armor.
pub open spec fn spec_unarmor_char(c: u8) -> Option<u8> {
    if 48 <= c <= 88 {
        Some((c - 48) as u8)
    } else if 89 <= c <= 119 {
        Some((c - 56) as u8)
    } else {
        None
    }
}

/// AIVDM payload armor: char -> 6-bit value.
pub fn unarmor_char(c: u8) -> (r: Option<u8>)
    ensures
        r == spec_unarmor_char(c),
{
    let mut v = c.wrapping_sub(48);
    if v > 40 {
        v = v.wrapping_sub(8);
    }
    if v < 64 {
        Some(v)
    } else {
        None
    }
}

/// 6-bit value -> AIVDM armor character code.
pub open spec fn spec_armor_value(v: u8) -> u8 {
    if v < 40 {
        (v + 48) as u8
    } else {
        (v + 56) as u8
    }
}

/// 6-bit value -> AIVDM armor char.
pub fn armor_value(v: u8) -> (c: u8)
    requires
        v < 64,
    ensures
        c == spec_armor_value(v),
{
    if v < 40 {
        v + 48
    } else {
        v + 56
    }
}

/// Armoring then unarmoring a 6-bit value gives it back.
pub proof fn lemma_armor_round_trip(v: u8)
    requires
        v < 64,
    ensures
        spec_unarmor_char(spec_armor_value(v)) == Some(v),
{
}

/// Every armour code is an ASCII byte.
proof fn lemma_armor_codes_ascii(bits: Seq<bool>)
    ensures
        forall|g: int| 0 <= g < armor_codes(bits).len() ==> #[trigger] armor_codes(bits)[g] < 128,
{
    assert forall|g: int| 0 <= g < armor_codes(bits).len() implies #[trigger] armor_codes(bits)[g] < 128 by {
        lemma_field_bound(bits, 6 * g, 6);
        lemma_small_pow2();
    }
}

/// The text `armor` produces, unarmoured (as the UTF-8 bytes a `&str` of it
/// holds) with the fill `armor` reports, gives back the packed bits and
/// their exact count.
pub proof fn lemma_armor_text_unarmor(bits: Seq<bool>, text: Seq<char>, fill: u8)
    requires
        text == armor_codes(bits).map_values(|c: u8| c as char),
        fill == armor_fill(bits),
    ensures
        spec_unarmor(vstd::utf8::encode_utf8(text), fill) == Some((spec_pack_msb(bits), bits.len())),
{
    lemma_armor_codes_ascii(bits);
    lemma_ascii_bytes(armor_codes(bits));
    lemma_unarmor_armor(bits);
}

/// One step of the CRC-16/X.25 register (reflected polynomial 0x8408).
pub open spec fn fcs_bit_step(c: u16) -> u16 {
    if c & 1u16 != 0 {
        (c >> 1u16) ^ 0x8408u16
    } else {
        c >> 1u16
    }
}

pub open spec fn fcs_bit_steps(c: u16, n: nat) -> u16
    decreases n,
{
    if n == 0 {
        c
    } else {
        fcs_bit_step(fcs_bit_steps(c, (n - 1) as nat))
    }
}

/// The CRC-16/X.25 register after absorbing `s`, starting from `0xFFFF`.
pub open spec fn fcs_register(s: Seq<u8>) -> u16
    decreases s.len(),
{
    if s.len() == 0 {
        0xFFFF
    } else {
        fcs_bit_steps(fcs_register(s.drop_last()) ^ (s.last() as u16), 8)
    }
}

/// Runs the CRC-16/X.25 register over `octets`.
pub fn fcs_register_of(octets: &[u8]) -> (c: u16)
    ensures
        c == fcs_register(octets@),
{
    let mut crc: u16 = 0xFFFF;
    let mut i: usize = 0;
    while i < octets.len()
        invariant
            i <= octets.len(),
            crc == fcs_register(octets@.take(i as int)),
        decreases octets.len() - i,
    {
        let start: u16 = crc ^ (octets[i] as u16);
        let mut c: u16 = start;
        let mut k: usize = 0;
        while k < 8
            invariant
                k <= 8,
                c == fcs_bit_steps(start, k as nat),
            decreases 8 - k,
        {
            c = if c & 1 != 0 { (c >> 1u16) ^ 0x8408 } else { c >> 1u16 };
            k = k + 1;
        }
        crc = c;
        proof {
            assert(octets@.take(i + 1).drop_last() =~= octets@.take(i as int));
        }
        i = i + 1;
    }
    proof {
        assert(octets@.take(i as int) =~= octets@);
    }
    crc
}

/// HDLC / X.25 frame-check sequence check. `octets` includes the 2 FCS octets;
/// a good frame leaves the residual 0xF0B8.
pub fn fcs_ok(octets: &[u8]) -> (r: bool)
    ensures
        r == (octets@.len() >= 3 && fcs_register(octets@) == 0xF0B8),
{
    if octets.len() < 3 {
        return false;
    }
    fcs_register_of(octets) == 0xF0B8
}

/// XOR of all bytes of `s`.
pub open spec fn xor_all(s: Seq<u8>) -> u8
    decreases s.len(),
{
    if s.len() == 0 {
        0
    } else {
        xor_all(s.drop_last()) ^ s.last()
    }
}

/// Facts of exclusive or used by the checksum and parity proofs.
pub(crate) proof fn lemma_xor_facts(x: u8, y: u8, z: u8, w: u32, k: u8)
    by (bit_vector)
    ensures
        (x ^ y) ^ z == x ^ (y ^ z),
        x ^ 0u8 == x,
        y ^ y == 0u8,
        0u32 ^ w == w,
        5 <= k < 8 ==> (x ^ (0x80u8 >> k)) >> 3u8 == x >> 3u8,
{
}

/// The NMEA checksum of a concatenation is the XOR of the checksums of its
/// parts, and that of the empty string is 0.
pub proof fn lemma_checksum_concat(a: Seq<u8>, b: Seq<u8>)
    ensures
        xor_all(a + b) == xor_all(a) ^ xor_all(b),
        xor_all(Seq::<u8>::empty()) == 0,
    decreases b.len(),
{
    if b.len() == 0 {
        assert(a + b =~= a);
        lemma_xor_facts(xor_all(a), 0, 0, 0, 0);
    } else {
        assert((a + b).drop_last() =~= a + b.drop_last());
        assert((a + b).last() == b.last());
        lemma_checksum_concat(a, b.drop_last());
        lemma_xor_facts(xor_all(a), xor_all(b.drop_last()), b.last(), 0, 0);
    }
}

/// NMEA 0183 checksum (XOR of the bytes between `!`/`$` and `*`).
pub fn nmea_checksum(body: &str) -> (c: u8)
    ensures
        c == xor_all(body.spec_bytes()),
{
    let bytes = body.as_bytes();
    let mut a: u8 = 0;
    let mut i: usize = 0;
    while i < bytes.len()
        invariant
            i <= bytes.len(),
            bytes@ == body.spec_bytes(),
            a == xor_all(bytes@.take(i as int)),
        decreases bytes.len() - i,
    {
        a = a ^ bytes[i];
        proof {
            assert(bytes@.take(i + 1).drop_last() =~= bytes@.take(i as int));
        }
        i = i + 1;
    }
    proof {
        assert(bytes@.take(i as int) =~= bytes@);
    }
    a
}

/// Coarse ship-type label of an ITU ship-type code.
pub open spec fn spec_ship_type_label(code: u8) -> &'static str {
    if 20 <= code <= 29 {
        "WIG"
    } else if code == 30 {
        "Fishing"
    } else if code == 31 || code == 32 {
        "Towing"
    } else if code == 33 {
        "Dredging"
    } else if code == 34 {
        "Diving"
    } else if code == 35 {
        "Military"
    } else if code == 36 {
        "Sailing"
    } else if code == 37 {
        "Pleasure craft"
    } else if 40 <= code <= 49 {
        "High-speed craft"
    } else if code == 50 {
        "Pilot"
    } else if code == 51 {
        "Search & rescue"
    } else if code == 52 {
        "Tug"
    } else if code == 53 {
        "Port tender"
    } else if code == 54 {
        "Anti-pollution"
    } else if code == 55 {
        "Law enforcement"
    } else if code == 58 {
        "Medical transport"
    } else if 60 <= code <= 69 {
        "Passenger"
    } else if 70 <= code <= 79 {
        "Cargo"
    } else if 80 <= code <= 89 {
        "Tanker"
    } else if 90 <= code <= 99 {
        "Other"
    } else {
        "Unknown"
    }
}

/// Coarse ship-type label from the ITU type code.
pub fn ship_type_label(code: u8) -> (s: &'static str)
    ensures
        s == spec_ship_type_label(code),
{
    match code {
        20..=29 => "WIG",
        30 => "Fishing",
        31 | 32 => "Towing",
        33 => "Dredging",
        34 => "Diving",
        35 => "Military",
        36 => "Sailing",
        37 => "Pleasure craft",
        40..=49 => "High-speed craft",
        50 => "Pilot",
        51 => "Search & rescue",
        52 => "Tug",
        53 => "Port tender",
        54 => "Anti-pollution",
        55 => "Law enforcement",
        58 => "Medical transport",
        60..=69 => "Passenger",
        70..=79 => "Cargo",
        80..=89 => "Tanker",
        90..=99 => "Other",
        _ => "Unknown",
    }
}

/// Navigation-status label of the 4-bit AIS status code.
pub open spec fn spec_nav_status_label(s: u8) -> &'static str {
    if s == 0 {
        "under way (engine)"
    } else if s == 1 {
        "at anchor"
    } else if s == 2 {
        "not under command"
    } else if s == 3 {
        "restricted manoeuvrability"
    } else if s == 4 {
        "constrained by draught"
    } else if s == 5 {
        "moored"
    } else if s == 6 {
        "aground"
    } else if s == 7 {
        "fishing"
    } else if s == 8 {
        "under way (sailing)"
    } else if s == 11 {
        "towing astern"
    } else if s == 12 {
        "pushing ahead"
    } else if s == 14 {
        "AIS-SART"
    } else {
        "unknown"
    }
}

/// Navigation-status label of the 4-bit AIS status code.
pub fn nav_status_label(s: u8) -> (l: &'static str)
    ensures
        l == spec_nav_status_label(s),
{
    match s {
        0 => "under way (engine)",
        1 => "at anchor",
        2 => "not under command",
        3 => "restricted manoeuvrability",
        4 => "constrained by draught",
        5 => "moored",
        6 => "aground",
        7 => "fishing",
        8 => "under way (sailing)",
        11 => "towing astern",
        12 => "pushing ahead",
        14 => "AIS-SART",
        _ => "unknown",
    }
}


// --- parsed messages ---------------------------------------------------------

/// A position report (types 1/2/3 Class A, 18/19 Class B).
#[derive(Debug, Clone, PartialEq)]
pub struct Position {
    /// Latitude in 1/10000 minute (1/600000 degree), within ±90°.
    pub lat_raw: i64,
    /// Longitude in 1/10000 minute, within ±180°.
    pub lon_raw: i64,
    /// Speed over ground in tenths of a knot (raw 1023 = not available).
    pub sog_tenths_kt: Option<u32>,
    /// Course over ground in tenths of a degree (raw ≥ 3600 = not available).
    pub cog_tenths_deg: Option<u32>,
    /// True heading in degrees (511 / ≥ 360 = not available).
    pub heading_deg: Option<u32>,
    pub nav_status: Option<u8>,
    /// Raw rate-of-turn indicator ROT_AIS (−128 = not available); the rate
    /// in °/min is `sign · (raw / 4.733)²`.
    pub turn_raw: Option<i32>,
    pub class_b: bool,
}

/// Static and voyage data (type 5, type 24 parts A/B).
#[derive(Debug, Clone, PartialEq, Default)]
pub struct Static {
    pub name: Option<String>,
    pub callsign: Option<String>,
    pub ship_type: Option<u8>,
    pub imo: Option<u32>,
    pub length_m: Option<u32>,
    pub beam_m: Option<u32>,
    /// Draught in decimetres.
    pub draught_dm: Option<u32>,
    pub destination: Option<String>,
}

/// A decoded AIS message.
#[derive(Debug, Clone, PartialEq)]
pub enum AisMessage {
    Position { mmsi: u32, pos: Position },
    Static { mmsi: u32, data: Static },
    /// AtoN (type 21): a fixed/floating navigation aid with a position + name.
    AidToNavigation { mmsi: u32, name: Option<String>, lat_raw: i64, lon_raw: i64, aid_type: u8 },
    /// Base station (type 4 / 11): position only.
    BaseStation { mmsi: u32, lat_raw: i64, lon_raw: i64 },
    /// A CRC-valid message of a type that is not modelled.
    Other { mmsi: u32, msg_type: u8 },
}

/// Whether a raw latitude/longitude pair lies within ±90° / ±180°.
pub open spec fn latlon_valid(lat_raw: int, lon_raw: int) -> bool {
    -54_000_000 <= lat_raw <= 54_000_000 && -108_000_000 <= lon_raw <= 108_000_000
}

/// An optional text field: `None` when empty.
pub open spec fn opt_text(o: Option<String>, t: Seq<char>) -> bool {
    if t.len() == 0 {
        o is None
    } else {
        o matches Some(x) && x@ == t
    }
}

/// `Some(v)` unless `v` is 0.
pub open spec fn nonzero(v: int) -> Option<u32> {
    if v == 0 {
        None
    } else {
        Some(v as u32)
    }
}

pub open spec fn spec_sog(raw: u64) -> Option<u32> {
    if raw != 1023 {
        Some(raw as u32)
    } else {
        None
    }
}

pub open spec fn spec_cog(raw: u64) -> Option<u32> {
    if raw < 3600 {
        Some(raw as u32)
    } else {
        None
    }
}

pub open spec fn spec_heading(raw: u64) -> Option<u32> {
    if raw != 511 && raw < 360 {
        Some(raw as u32)
    } else {
        None
    }
}

pub open spec fn spec_turn(raw: int) -> Option<i32> {
    if raw == -128 {
        None
    } else {
        Some(raw as i32)
    }
}

pub open spec fn sfield(s: Seq<bool>, start: int, n: nat) -> int {
    spec_signed(spec_field(s, start, n), n)
}

/// Whether `parse` returns a message for the payload bits `s`.
pub open spec fn ais_accepts(s: Seq<bool>) -> bool {
    let t = spec_field(s, 0, 6) as u8;
    &&& s.len() >= 38
    &&& (t == 1 || t == 2 || t == 3) ==> s.len() >= 168 && latlon_valid(
        sfield(s, 89, 27),
        sfield(s, 61, 28),
    )
    &&& (t == 18 || t == 19) ==> s.len() >= 168 && latlon_valid(sfield(s, 85, 27), sfield(s, 57, 28))
    &&& t == 5 ==> s.len() >= 240
    &&& (t == 4 || t == 11) ==> s.len() >= 168 && latlon_valid(
        sfield(s, 107, 27),
        sfield(s, 79, 28),
    )
    &&& t == 21 ==> s.len() >= 272 && latlon_valid(sfield(s, 192, 27), sfield(s, 164, 28))
}

/// `m` is the decode of the payload bits `s` (given that `s` is accepted).
pub open spec fn ais_decodes(s: Seq<bool>, m: AisMessage) -> bool {
    let t = spec_field(s, 0, 6) as u8;
    let mmsi = spec_field(s, 8, 30) as u32;
    if t == 1 || t == 2 || t == 3 {
        m == AisMessage::Position {
            mmsi,
            pos: Position {
                lat_raw: sfield(s, 89, 27) as i64,
                lon_raw: sfield(s, 61, 28) as i64,
                sog_tenths_kt: spec_sog(spec_field(s, 50, 10)),
                cog_tenths_deg: spec_cog(spec_field(s, 116, 12)),
                heading_deg: spec_heading(spec_field(s, 128, 9)),
                nav_status: Some(spec_field(s, 38, 4) as u8),
                turn_raw: spec_turn(sfield(s, 42, 8)),
                class_b: false,
            },
        }
    } else if t == 18 || t == 19 {
        m == AisMessage::Position {
            mmsi,
            pos: Position {
                lat_raw: sfield(s, 85, 27) as i64,
                lon_raw: sfield(s, 57, 28) as i64,
                sog_tenths_kt: spec_sog(spec_field(s, 46, 10)),
                cog_tenths_deg: spec_cog(spec_field(s, 112, 12)),
                heading_deg: spec_heading(spec_field(s, 124, 9)),
                nav_status: None,
                turn_raw: None,
                class_b: true,
            },
        }
    } else if t == 5 {
        match m {
            AisMessage::Static { mmsi: mm, data } => {
                &&& mm == mmsi
                &&& data.imo == nonzero(spec_field(s, 40, 30) as int)
                &&& opt_text(data.callsign, spec_text(s, 70, 7))
                &&& opt_text(data.name, spec_text(s, 112, 20))
                &&& data.ship_type == (if spec_field(s, 232, 8) == 0 {
                    None
                } else {
                    Some(spec_field(s, 232, 8) as u8)
                })
                &&& data.length_m == nonzero(spec_field(s, 240, 9) + spec_field(s, 249, 9))
                &&& data.beam_m == nonzero(spec_field(s, 258, 6) + spec_field(s, 264, 6))
                &&& data.draught_dm == nonzero(spec_field(s, 294, 8) as int)
                &&& opt_text(data.destination, spec_text(s, 302, 20))
            },
            _ => false,
        }
    } else if t == 24 {
        let part = spec_field(s, 38, 2);
        if part == 0 && s.len() >= 160 {
            match m {
                AisMessage::Static { mmsi: mm, data } => {
                    &&& mm == mmsi
                    &&& opt_text(data.name, spec_text(s, 40, 20))
                    &&& data.callsign is None && data.ship_type is None && data.imo is None
                    &&& data.length_m is None && data.beam_m is None && data.draught_dm is None
                    &&& data.destination is None
                },
                _ => false,
            }
        } else if part == 1 && s.len() >= 168 {
            match m {
                AisMessage::Static { mmsi: mm, data } => {
                    &&& mm == mmsi
                    &&& data.ship_type == (if spec_field(s, 40, 8) == 0 {
                        None
                    } else {
                        Some(spec_field(s, 40, 8) as u8)
                    })
                    &&& opt_text(data.callsign, spec_text(s, 90, 7))
                    &&& data.length_m == nonzero(spec_field(s, 132, 9) + spec_field(s, 141, 9))
                    &&& data.beam_m == nonzero(spec_field(s, 150, 6) + spec_field(s, 156, 6))
                    &&& data.name is None && data.imo is None && data.draught_dm is None
                    &&& data.destination is None
                },
                _ => false,
            }
        } else {
            m == AisMessage::Other { mmsi, msg_type: t }
        }
    } else if t == 4 || t == 11 {
        m == AisMessage::BaseStation {
            mmsi,
            lat_raw: sfield(s, 107, 27) as i64,
            lon_raw: sfield(s, 79, 28) as i64,
        }
    } else if t == 21 {
        match m {
            AisMessage::AidToNavigation { mmsi: mm, name, lat_raw, lon_raw, aid_type } => {
                &&& mm == mmsi
                &&& opt_text(name, spec_text(s, 43, 20))
                &&& lat_raw == sfield(s, 192, 27) && lon_raw == sfield(s, 164, 28)
                &&& aid_type == spec_field(s, 38, 5) as u8
            },
            _ => false,
        }
    } else {
        m == AisMessage::Other { mmsi, msg_type: t }
    }
}

/// `Some(s)` unless `s` is empty.
fn nonempty(s: String) -> (r: Option<String>)
    ensures
        opt_text(r, s@),
{
    if s.as_str().is_empty() {
        None
    } else {
        Some(s)
    }
}

fn latlon(lat_raw: i64, lon_raw: i64) -> (r: Option<(i64, i64)>)
    ensures
        r is Some <==> latlon_valid(lat_raw as int, lon_raw as int),
        r matches Some(p) ==> p == (lat_raw, lon_raw),
{
    if lat_raw < -54_000_000 || lat_raw > 54_000_000 || lon_raw < -108_000_000 || lon_raw
        > 108_000_000 {
        None
    } else {
        Some((lat_raw, lon_raw))
    }
}

fn nonzero_u32(v: u64) -> (r: Option<u32>)
    ensures
        r == nonzero(v as int),
{
    if v == 0 {
        None
    } else {
        Some(v as u32)
    }
}

/// A class A position report (types 1..3) reads: navigation status (4 bits
/// at 38), rate of turn (signed 8 bits at 42; -128 means none), speed over
/// ground in tenths of a knot (10 bits at 50; 1023 means none), longitude
/// and latitude in 1/10000 minute (signed 28 bits at 61, signed 27 bits at
/// 89), course in tenths of a degree (12 bits at 116; 3600 and up means
/// none) and true heading (9 bits at 128; 360 and up means none). Class B
/// (types 18, 19) moves speed, longitude, latitude, course and heading four
/// bits earlier and has no status or rate of turn.
pub proof fn lemma_position_report(s: Seq<bool>, m: AisMessage)
    requires
        ais_decodes(s, m),
        m matches AisMessage::Position { .. },
    ensures
        m matches AisMessage::Position { mmsi, pos } && {
            let t = spec_field(s, 0, 6) as u8;
            let o: int = if t == 18 || t == 19 { 4 } else { 0 };
            let sog = spec_field(s, 50 - o, 10);
            let cog = spec_field(s, 116 - o, 12);
            let hdg = spec_field(s, 128 - o, 9);
            &&& mmsi == spec_field(s, 8, 30) as u32
            &&& pos.lon_raw == spec_signed(spec_field(s, 61 - o, 28), 28)
            &&& pos.lat_raw == spec_signed(spec_field(s, 89 - o, 27), 27)
            &&& (sog == 1023 <==> pos.sog_tenths_kt is None)
            &&& (sog != 1023 ==> pos.sog_tenths_kt == Some(sog as u32))
            &&& (cog >= 3600 <==> pos.cog_tenths_deg is None)
            &&& (cog < 3600 ==> pos.cog_tenths_deg == Some(cog as u32))
            &&& (hdg >= 360 <==> pos.heading_deg is None)
            &&& (hdg < 360 ==> pos.heading_deg == Some(hdg as u32))
            &&& pos.class_b == (t == 18 || t == 19)
            &&& !pos.class_b ==> pos.nav_status == Some(spec_field(s, 38, 4) as u8)
            &&& pos.class_b ==> pos.nav_status is None && pos.turn_raw is None
        },
{
    let t = spec_field(s, 0, 6) as u8;
    let o: int = if t == 18 || t == 19 { 4 } else { 0 };
    vstd::arithmetic::power2::lemma2_to64();
    vstd::bits::lemma_u64_shl_is_mul(1, 27);
    vstd::bits::lemma_u64_shl_is_mul(1, 28);
    lemma_field_bound(s, 61 - o, 28);
    lemma_field_bound(s, 89 - o, 27);
    lemma_signed_bound(spec_field(s, 61 - o, 28), 28);
    lemma_signed_bound(spec_field(s, 89 - o, 27), 27);
}

/// Length and beam from the four distances of the reference point: the
/// length is the distance to bow plus the distance to stern, the beam the
/// distance to port plus the distance to starboard, and a zero sum means
/// not available.
pub open spec fn hull_dims(data: Static, bow: int, stern: int, port: int, starboard: int) -> bool {
    &&& (bow + stern == 0 ==> data.length_m is None)
    &&& (bow + stern != 0 ==> data.length_m == Some((bow + stern) as u32))
    &&& (port + starboard == 0 ==> data.beam_m is None)
    &&& (port + starboard != 0 ==> data.beam_m == Some((port + starboard) as u32))
}

/// A decoded static report measures the whole hull: for a type 5 report
/// the distances to bow, stern, port and starboard are the 9-, 9-, 6- and
/// 6-bit fields at bits 240, 249, 258 and 264 (for a type 24 part B report,
/// at bits 132, 141, 150 and 156), and length and beam are their sums.
pub proof fn lemma_static_dimensions(s: Seq<bool>, m: AisMessage)
    requires
        ais_decodes(s, m),
        m matches AisMessage::Static { .. },
    ensures
        m matches AisMessage::Static { data, .. } && {
            &&& spec_field(s, 0, 6) as u8 == 5 ==> hull_dims(
                data,
                spec_field(s, 240, 9) as int,
                spec_field(s, 249, 9) as int,
                spec_field(s, 258, 6) as int,
                spec_field(s, 264, 6) as int,
            )
            &&& (spec_field(s, 0, 6) as u8 == 24 && spec_field(s, 38, 2) == 1) ==> hull_dims(
                data,
                spec_field(s, 132, 9) as int,
                spec_field(s, 141, 9) as int,
                spec_field(s, 150, 6) as int,
                spec_field(s, 156, 6) as int,
            )
        },
{
    lemma_field_bound(s, 240, 9);
    lemma_field_bound(s, 249, 9);
    lemma_field_bound(s, 258, 6);
    lemma_field_bound(s, 264, 6);
    lemma_field_bound(s, 132, 9);
    lemma_field_bound(s, 141, 9);
    lemma_field_bound(s, 150, 6);
    lemma_field_bound(s, 156, 6);
    lemma_small_pow2();
}

impl AisMessage {
    /// The sender's MMSI.
    pub fn mmsi(&self) -> (m: u32)
        ensures
            m == match *self {
                AisMessage::Position { mmsi, .. } => mmsi,
                AisMessage::Static { mmsi, .. } => mmsi,
                AisMessage::AidToNavigation { mmsi, .. } => mmsi,
                AisMessage::BaseStation { mmsi, .. } => mmsi,
                AisMessage::Other { mmsi, .. } => mmsi,
            },
    {
        match self {
            AisMessage::Position { mmsi, .. } => *mmsi,
            AisMessage::Static { mmsi, .. } => *mmsi,
            AisMessage::AidToNavigation { mmsi, .. } => *mmsi,
            AisMessage::BaseStation { mmsi, .. } => *mmsi,
            AisMessage::Other { mmsi, .. } => *mmsi,
        }
    }

    /// Decode the message carried by the payload bits `b`: `None` when the
    /// payload is too short for its type or a position is out of range.
    pub fn parse(b: &Bits) -> (r: Option<AisMessage>)
        ensures
            r is Some <==> ais_accepts(b@),
            r matches Some(m) ==> ais_decodes(b@, m),
    {
        if b.len() < 38 {
            return None;
        }
        let msg_type = b.u(0, 6) as u8;
        let mmsi = b.u(8, 30) as u32;
        proof {
            lemma_field_bound(b@, 0, 6);
            lemma_field_bound(b@, 8, 30);
            lemma_field_bound(b@, 38, 4);
            lemma_field_bound(b@, 38, 5);
            lemma_field_bound(b@, 40, 8);
            lemma_field_bound(b@, 232, 8);
            lemma_field_bound(b@, 40, 30);
            lemma_field_bound(b@, 50, 10);
            lemma_field_bound(b@, 46, 10);
            lemma_field_bound(b@, 116, 12);
            lemma_field_bound(b@, 112, 12);
            lemma_field_bound(b@, 128, 9);
            lemma_field_bound(b@, 124, 9);
            lemma_field_bound(b@, 240, 9);
            lemma_field_bound(b@, 249, 9);
            lemma_field_bound(b@, 258, 6);
            lemma_field_bound(b@, 264, 6);
            lemma_field_bound(b@, 294, 8);
            lemma_field_bound(b@, 132, 9);
            lemma_field_bound(b@, 141, 9);
            lemma_field_bound(b@, 150, 6);
            lemma_field_bound(b@, 156, 6);
            lemma_small_pow2();
        }
        if msg_type == 1 || msg_type == 2 || msg_type == 3 {
            if b.len() < 168 {
                return None;
            }
            let (lat, lon) = match latlon(b.i(89, 27), b.i(61, 28)) {
                Some(p) => p,
                None => {
                    return None;
                },
            };
            let sog_raw = b.u(50, 10);
            let cog_raw = b.u(116, 12);
            let hdg_raw = b.u(128, 9);
            let turn = b.i(42, 8);
            proof {
                lemma_field_bound(b@, 42, 8);
                lemma_signed_bound(spec_field(b@, 42, 8), 8);
            }
            Some(
                AisMessage::Position {
                    mmsi,
                    pos: Position {
                        lat_raw: lat,
                        lon_raw: lon,
                        sog_tenths_kt: if sog_raw != 1023 {
                            Some(sog_raw as u32)
                        } else {
                            None
                        },
                        cog_tenths_deg: if cog_raw < 3600 {
                            Some(cog_raw as u32)
                        } else {
                            None
                        },
                        heading_deg: if hdg_raw != 511 && hdg_raw < 360 {
                            Some(hdg_raw as u32)
                        } else {
                            None
                        },
                        nav_status: Some(b.u(38, 4) as u8),
                        turn_raw: if turn == -128 {
                            None
                        } else {
                            Some(turn as i32)
                        },
                        class_b: false,
                    },
                },
            )
        } else if msg_type == 18 || msg_type == 19 {
            if b.len() < 168 {
                return None;
            }
            let (lat, lon) = match latlon(b.i(85, 27), b.i(57, 28)) {
                Some(p) => p,
                None => {
                    return None;
                },
            };
            let sog_raw = b.u(46, 10);
            let cog_raw = b.u(112, 12);
            let hdg_raw = b.u(124, 9);
            let pos = Position {
                lat_raw: lat,
                lon_raw: lon,
                sog_tenths_kt: if sog_raw != 1023 {
                    Some(sog_raw as u32)
                } else {
                    None
                },
                cog_tenths_deg: if cog_raw < 3600 {
                    Some(cog_raw as u32)
                } else {
                    None
                },
                heading_deg: if hdg_raw != 511 && hdg_raw < 360 {
                    Some(hdg_raw as u32)
                } else {
                    None
                },
                nav_status: None,
                turn_raw: None,
                class_b: true,
            };
            Some(AisMessage::Position { mmsi, pos })
        } else if msg_type == 5 {
            if b.len() < 240 {
                return None;
            }
            let st = b.u(232, 8);
            Some(
                AisMessage::Static {
                    mmsi,
                    data: Static {
                        imo: nonzero_u32(b.u(40, 30)),
                        callsign: nonempty(b.text(70, 7)),
                        name: nonempty(b.text(112, 20)),
                        ship_type: if st == 0 {
                            None
                        } else {
                            Some(st as u8)
                        },
                        length_m: nonzero_u32(b.u(240, 9) + b.u(249, 9)),
                        beam_m: nonzero_u32(b.u(258, 6) + b.u(264, 6)),
                        draught_dm: nonzero_u32(b.u(294, 8)),
                        destination: nonempty(b.text(302, 20)),
                    },
                },
            )
        } else if msg_type == 24 {
            let part = b.u(38, 2);
            if part == 0 && b.len() >= 160 {
                let data = Static {
                    name: nonempty(b.text(40, 20)),
                    callsign: None,
                    ship_type: None,
                    imo: None,
                    length_m: None,
                    beam_m: None,
                    draught_dm: None,
                    destination: None,
                };
                Some(AisMessage::Static { mmsi, data })
            } else if part == 1 && b.len() >= 168 {
                let st = b.u(40, 8);
                let data = Static {
                    name: None,
                    callsign: nonempty(b.text(90, 7)),
                    ship_type: if st == 0 {
                        None
                    } else {
                        Some(st as u8)
                    },
                    imo: None,
                    length_m: nonzero_u32(b.u(132, 9) + b.u(141, 9)),
                    beam_m: nonzero_u32(b.u(150, 6) + b.u(156, 6)),
                    draught_dm: None,
                    destination: None,
                };
                Some(AisMessage::Static { mmsi, data })
            } else {
                Some(AisMessage::Other { mmsi, msg_type })
            }
        } else if msg_type == 4 || msg_type == 11 {
            if b.len() < 168 {
                return None;
            }
            let (lat, lon) = match latlon(b.i(107, 27), b.i(79, 28)) {
                Some(p) => p,
                None => {
                    return None;
                },
            };
            Some(AisMessage::BaseStation { mmsi, lat_raw: lat, lon_raw: lon })
        } else if msg_type == 21 {
            if b.len() < 272 {
                return None;
            }
            let (lat, lon) = match latlon(b.i(192, 27), b.i(164, 28)) {
                Some(p) => p,
                None => {
                    return None;
                },
            };
            Some(
                AisMessage::AidToNavigation {
                    mmsi,
                    name: nonempty(b.text(43, 20)),
                    lat_raw: lat,
                    lon_raw: lon,
                    aid_type: b.u(38, 5) as u8,
                },
            )
        } else {
            Some(AisMessage::Other { mmsi, msg_type })
        }
    }
}

proof fn lemma_signed_bound(raw: u64, n: nat)
    requires
        1 <= n <= 62,
        raw < (1u64 << (n as u64)),
    ensures
        -((1u64 << (n as u64)) as int) <= spec_signed(raw, n) < (1u64 << (n as u64)) as int,
{
}

} // verus!
