//! HDLC framing shared by AX.25 (APRS) and AIS: the frame-check sequence,
//! bit stuffing and NRZI line coding on the transmit side, and the
//! flag-hunting deframer and octet reassembly on the receive side.

use vstd::prelude::*;
use crate::ais::{fcs_bit_step, fcs_bit_steps, fcs_register, fcs_register_of, fcs_ok};

verus! {

/// Eight register steps, written out.
pub open spec fn fcs_byte_steps(c: u16) -> u16 {
    fcs_bit_step(
        fcs_bit_step(
            fcs_bit_step(
                fcs_bit_step(fcs_bit_step(fcs_bit_step(fcs_bit_step(fcs_bit_step(c)))))),
        ),
    )
}

proof fn lemma_byte_steps(c: u16)
    ensures
        fcs_bit_steps(c, 8) == fcs_byte_steps(c),
{
    reveal_with_fuel(fcs_bit_steps, 9);
}

/// The frame-check sequence of `data`: the complemented CRC-16/X.25
/// register.
pub open spec fn spec_fcs(data: Seq<u8>) -> u16 {
    !fcs_register(data)
}

/// `data` followed by its FCS, low octet first.
pub open spec fn with_fcs(data: Seq<u8>) -> Seq<u8> {
    data + seq![(spec_fcs(data) & 0xFFu16) as u8, (spec_fcs(data) >> 8u16) as u8]
}

proof fn lemma_fcs_step_xor(a: u16, b: u16)
    ensures
        fcs_bit_step(a ^ b) == fcs_bit_step(a) ^ fcs_bit_step(b),
{
    assert((if (a ^ b) & 1u16 != 0 { ((a ^ b) >> 1u16) ^ 0x8408u16 } else { (a ^ b) >> 1u16 }) == (
    if a & 1u16 != 0 { (a >> 1u16) ^ 0x8408u16 } else { a >> 1u16 }) ^ (if b & 1u16 != 0 { (b
        >> 1u16) ^ 0x8408u16 } else { b >> 1u16 })) by (bit_vector);
}

proof fn lemma_fcs_steps_xor(a: u16, b: u16, n: nat)
    ensures
        fcs_bit_steps(a ^ b, n) == fcs_bit_steps(a, n) ^ fcs_bit_steps(b, n),
    decreases n,
{
    if n > 0 {
        lemma_fcs_steps_xor(a, b, (n - 1) as nat);
        lemma_fcs_step_xor(fcs_bit_steps(a, (n - 1) as nat), fcs_bit_steps(b, (n - 1) as nat));
    }
}

/// While only zero bits reach the bottom, the register just shifts.
proof fn lemma_fcs_steps_shift(h: u16, k: nat)
    requires
        h < 256,
        k <= 8,
    ensures
        fcs_bit_steps(h << 8u16, k) == (h << 8u16) >> (k as u16),
    decreases k,
{
    if k == 0 {
        assert((h << 8u16) >> 0u16 == h << 8u16) by (bit_vector);
    } else {
        lemma_fcs_steps_shift(h, (k - 1) as nat);
        let j = (k - 1) as u16;
        assert(((h << 8u16) >> j) & 1u16 == 0u16) by (bit_vector)
            requires
                h < 256,
                j < 8,
        ;
        assert(((h << 8u16) >> j) >> 1u16 == (h << 8u16) >> ((j + 1) as u16)) by (bit_vector)
            requires
                j < 8,
        ;
    }
}

/// Appending the FCS (low octet first) leaves the register at the good-frame
/// residual 0xF0B8, whatever the data.
pub proof fn lemma_fcs_residual(data: Seq<u8>)
    ensures
        fcs_register(with_fcs(data)) == 0xF0B8,
{
    let r = fcs_register(data);
    let f = with_fcs(data);
    let lo = (!r & 0xFFu16) as u8;
    let hi = (!r >> 8u16) as u8;
    assert(f.drop_last().drop_last() =~= data);
    assert(f.drop_last().last() == lo);
    assert(f.last() == hi);
    let h = r >> 8u16;
    assert(h < 256) by (bit_vector)
        requires
            h == r >> 8u16,
    ;
    assert(r ^ (((!r & 0xFFu16) as u8) as u16) == (h << 8u16) ^ 0xFFu16) by (bit_vector)
        requires
            h == r >> 8u16,
    ;
    lemma_fcs_steps_xor(h << 8u16, 0xFFu16, 8);
    lemma_fcs_steps_shift(h, 8);
    assert((h << 8u16) >> 8u16 == h) by (bit_vector)
        requires
            h < 256,
    ;
    lemma_byte_steps(0xFFu16);
    assert(fcs_byte_steps(0xFFu16) == 0x0F78u16) by (bit_vector);
    let r1 = fcs_bit_steps(r ^ (lo as u16), 8);
    assert(r1 == h ^ 0x0F78u16);
    assert((h ^ 0x0F78u16) ^ (((!r >> 8u16) as u8) as u16) == 0x0F87u16) by (bit_vector)
        requires
            h == r >> 8u16,
    ;
    lemma_byte_steps(0x0F87u16);
    assert(fcs_byte_steps(0x0F87u16) == 0xF0B8u16) by (bit_vector);
    assert(fcs_register(f.drop_last()) == r1);
    assert(fcs_register(f) == fcs_bit_steps(r1 ^ (hi as u16), 8));
}

/// The frame-check sequence of `data`.
pub fn fcs(data: &[u8]) -> (f: u16)
    ensures
        f == spec_fcs(data@),
{
    !fcs_register_of(data)
}

/// `data` with its FCS appended (low octet first): a frame `fcs_ok` accepts
/// whenever it is at least 3 octets long.
pub fn append_fcs(data: &[u8]) -> (out: Vec<u8>)
    ensures
        out@ == with_fcs(data@),
        data@.len() >= 1 ==> fcs_ok_spec(out@),
{
    let f = fcs(data);
    let mut out = vstd::slice::slice_to_vec(data);
    out.push((f & 0xFF) as u8);
    out.push((f >> 8u16) as u8);
    proof {
        assert(out@ =~= with_fcs(data@));
        lemma_fcs_residual(data@);
    }
    out
}

/// What `fcs_ok` answers.
pub open spec fn fcs_ok_spec(octets: Seq<u8>) -> bool {
    octets.len() >= 3 && fcs_register(octets) == 0xF0B8
}


// --- transmit framing --------------------------------------------------------

/// The bits of `octets`, each octet least-significant bit first.
pub open spec fn lsb_bits(octets: Seq<u8>) -> Seq<bool> {
    Seq::new(octets.len() * 8, |i: int| (octets[i / 8] >> ((i % 8) as u8)) & 1u8 == 1u8)
}

/// Bit stuffing: a 0 after every run of five 1s (`ones` counts the 1s
/// already seen before `bits`).
pub open spec fn stuff_from(bits: Seq<bool>, ones: nat) -> Seq<bool>
    decreases bits.len(),
{
    if bits.len() == 0 {
        Seq::empty()
    } else if bits[0] {
        if ones + 1 == 5 {
            seq![true, false] + stuff_from(bits.drop_first(), 0)
        } else {
            seq![true] + stuff_from(bits.drop_first(), ones + 1)
        }
    } else {
        seq![false] + stuff_from(bits.drop_first(), 0)
    }
}

/// Removal of stuffed bits: a 0 right after five 1s is dropped.
pub open spec fn destuff_from(bits: Seq<bool>, ones: nat) -> Seq<bool>
    decreases bits.len(),
{
    if bits.len() == 0 {
        Seq::empty()
    } else if bits[0] {
        seq![true] + destuff_from(bits.drop_first(), ones + 1)
    } else if ones == 5 {
        destuff_from(bits.drop_first(), 0)
    } else {
        seq![false] + destuff_from(bits.drop_first(), 0)
    }
}

/// De-stuffing undoes stuffing.
pub proof fn lemma_destuff_stuff(bits: Seq<bool>, ones: nat)
    requires
        ones < 5,
    ensures
        destuff_from(stuff_from(bits, ones), ones) == bits,
    decreases bits.len(),
{
    if bits.len() > 0 {
        let rest = bits.drop_first();
        assert(bits =~= seq![bits[0]] + rest);
        if bits[0] {
            if ones + 1 == 5 {
                lemma_destuff_stuff(rest, 0);
                let s = seq![true, false] + stuff_from(rest, 0);
                assert(stuff_from(bits, ones) == s);
                assert(s[0]);
                assert(s.drop_first() =~= seq![false] + stuff_from(rest, 0));
                let t = s.drop_first();
                assert(!t[0]);
                assert(t.drop_first() =~= stuff_from(rest, 0));
                assert(destuff_from(t, 5) == destuff_from(stuff_from(rest, 0), 0));
                assert(destuff_from(s, ones) == seq![true] + destuff_from(t, 5));
            } else {
                lemma_destuff_stuff(rest, ones + 1);
                let s = seq![true] + stuff_from(rest, ones + 1);
                assert(stuff_from(bits, ones) == s);
                assert(s[0]);
                assert(s.drop_first() =~= stuff_from(rest, ones + 1));
                assert(destuff_from(s, ones) == seq![true] + destuff_from(s.drop_first(), ones + 1));
            }
        } else {
            lemma_destuff_stuff(rest, 0);
            let s = seq![false] + stuff_from(rest, 0);
            assert(stuff_from(bits, ones) == s);
            assert(!s[0]);
            assert(s.drop_first() =~= stuff_from(rest, 0));
            assert(destuff_from(s, ones) == seq![false] + destuff_from(s.drop_first(), 0));
        }
    }
}

/// NRZI line coding: a 0 toggles the level, a 1 holds it.
pub open spec fn nrzi_from(wire: Seq<bool>, level: bool) -> Seq<bool>
    decreases wire.len(),
{
    if wire.len() == 0 {
        Seq::empty()
    } else {
        let l = if wire[0] { level } else { !level };
        seq![l] + nrzi_from(wire.drop_first(), l)
    }
}

/// NRZI decoding: no transition is a 1, a transition a 0.
pub open spec fn nrzi_decode(levels: Seq<bool>, prev: bool) -> Seq<bool>
    decreases levels.len(),
{
    if levels.len() == 0 {
        Seq::empty()
    } else {
        seq![levels[0] == prev] + nrzi_decode(levels.drop_first(), levels[0])
    }
}

/// NRZI decoding from the same starting level undoes NRZI coding.
pub proof fn lemma_nrzi_round_trip(wire: Seq<bool>, level: bool)
    ensures
        nrzi_decode(nrzi_from(wire, level), level) == wire,
    decreases wire.len(),
{
    if wire.len() > 0 {
        let l = if wire[0] { level } else { !level };
        lemma_nrzi_round_trip(wire.drop_first(), l);
        let n = nrzi_from(wire, level);
        assert(n.drop_first() =~= nrzi_from(wire.drop_first(), l));
        assert(wire =~= seq![wire[0]] + wire.drop_first());
    }
}

/// The 8 bits of one HDLC flag (0x7E), LSB first.
pub open spec fn flag_bits() -> Seq<bool> {
    seq![false, true, true, true, true, true, true, false]
}

/// `n` flags back to back.
pub open spec fn flags(n: nat) -> Seq<bool>
    decreases n,
{
    if n == 0 {
        Seq::empty()
    } else {
        flags((n - 1) as nat) + flag_bits()
    }
}

/// The wire bits of a packet: at least one leading flag, the stuffed bits of
/// the frame and its FCS, and five trailing flags.
pub open spec fn wire_bits(frame_no_fcs: Seq<u8>, lead_flags: nat) -> Seq<bool> {
    flags(if lead_flags >= 1 { lead_flags } else { 1 }) + stuff_from(lsb_bits(with_fcs(frame_no_fcs)), 0)
        + flags(5)
}

/// The NRZI line levels of a packet, starting from a high line.
pub open spec fn spec_frame_levels(frame_no_fcs: Seq<u8>, lead_flags: nat) -> Seq<bool> {
    nrzi_from(wire_bits(frame_no_fcs, lead_flags), true)
}

fn push_flags(w: &mut Vec<bool>, n: usize)
    ensures
        final(w)@ == old(w)@ + flags(n as nat),
{
    let mut k: usize = 0;
    while k < n
        invariant
            k <= n,
            w@ == old(w)@ + flags(k as nat),
        decreases n - k,
    {
        let mut i: u8 = 0;
        let ghost before = w@;
        while i < 8
            invariant
                i <= 8,
                w@ == before + flag_bits().subrange(0, i as int),
            decreases 8 - i,
        {
            w.push((0x7Eu8 >> i) & 1 == 1);
            proof {
                assert((0x7Eu8 >> i) & 1u8 == 1u8 <==> flag_bits()[i as int]) by {
                    assert((0x7Eu8 >> 0u8) & 1u8 == 0u8 && (0x7Eu8 >> 7u8) & 1u8 == 0u8 && (1 <= i
                        <= 6 ==> (0x7Eu8 >> i) & 1u8 == 1u8)) by (bit_vector);
                }
                assert(w@ =~= before + flag_bits().subrange(0, i + 1));
            }
            i = i + 1;
        }
        proof {
            assert(flag_bits().subrange(0, 8) =~= flag_bits());
            assert(w@ =~= old(w)@ + flags((k + 1) as nat));
        }
        k = k + 1;
    }
}

proof fn lemma_stuff_split(bits: Seq<bool>, i: int, ones: nat)
    requires
        0 <= i < bits.len(),
    ensures
        stuff_from(bits.skip(i), ones) == (if bits[i] {
            if ones + 1 == 5 {
                seq![true, false] + stuff_from(bits.skip(i + 1), 0)
            } else {
                seq![true] + stuff_from(bits.skip(i + 1), ones + 1)
            }
        } else {
            seq![false] + stuff_from(bits.skip(i + 1), 0)
        }),
{
    assert(bits.skip(i).drop_first() =~= bits.skip(i + 1));
}

/// FCS, bit stuffing, flags and NRZI: the line levels of one packet
/// (`lead_flags` opening flags, at least one, and five closing flags).
pub fn frame_levels(frame_no_fcs: &[u8], lead_flags: usize) -> (levels: Vec<bool>)
    requires
        frame_no_fcs@.len() * 10 + lead_flags * 8 + 200 <= usize::MAX,
    ensures
        levels@ == spec_frame_levels(frame_no_fcs@, lead_flags as nat),
{
    let framed = append_fcs(frame_no_fcs);
    let ghost data = lsb_bits(framed@);
    let mut wire: Vec<bool> = Vec::new();
    push_flags(&mut wire, if lead_flags >= 1 { lead_flags } else { 1 });
    let ghost head = wire@;
    let mut ones: u8 = 0;
    let mut i: usize = 0;
    proof {
        assert(data.skip(0) =~= data);
    }
    while i < framed.len() * 8
        invariant
            framed@ == with_fcs(frame_no_fcs@),
            data == lsb_bits(framed@),
            i <= framed@.len() * 8,
            framed@.len() * 8 + 8 <= usize::MAX,
            ones < 5,
            head + stuff_from(data, 0) == wire@ + stuff_from(data.skip(i as int), ones as nat),
        decreases framed.len() * 8 - i,
    {
        let bit = (framed[i / 8] >> ((i % 8) as u8)) & 1 == 1;
        proof {
            assert(bit == data[i as int]);
            lemma_stuff_split(data, i as int, ones as nat);
        }
        let ghost w0 = wire@;
        wire.push(bit);
        if bit {
            ones = ones + 1;
            if ones == 5 {
                wire.push(false);
                ones = 0;
                proof {
                    assert(wire@ =~= w0 + seq![true, false]);
                }
            } else {
                proof {
                    assert(wire@ =~= w0 + seq![true]);
                }
            }
        } else {
            ones = 0;
            proof {
                assert(wire@ =~= w0 + seq![false]);
            }
        }
        i = i + 1;
    }
    proof {
        assert(data.skip(i as int) =~= Seq::<bool>::empty());
        assert(wire@ =~= head + stuff_from(data, 0));
    }
    push_flags(&mut wire, 5);
    proof {
        assert(wire@ =~= wire_bits(frame_no_fcs@, lead_flags as nat));
    }
    let mut level = true;
    let mut out: Vec<bool> = Vec::new();
    let mut k: usize = 0;
    proof {
        assert(wire@.skip(0) =~= wire@);
        assert(out@ + nrzi_from(wire@, true) =~= nrzi_from(wire@, true));
    }
    while k < wire.len()
        invariant
            k <= wire@.len(),
            nrzi_from(wire@, true) == out@ + nrzi_from(wire@.skip(k as int), level),
        decreases wire.len() - k,
    {
        proof {
            assert(wire@.skip(k as int).drop_first() =~= wire@.skip(k + 1));
        }
        if !wire[k] {
            level = !level;
        }
        let ghost o0 = out@;
        out.push(level);
        proof {
            assert(out@ =~= o0 + seq![level]);
            assert(o0 + nrzi_from(wire@.skip(k as int), if wire@[k as int] { level } else { !level }) =~=
                out@ + nrzi_from(wire@.skip(k + 1), level)) by {
                assert(wire@.skip(k as int)[0] == wire@[k as int]);
            }
        }
        k = k + 1;
    }
    proof {
        assert(wire@.skip(k as int) =~= Seq::<bool>::empty());
        assert(out@ =~= nrzi_from(wire@, true));
    }
    out
}


// --- receive side ------------------------------------------------------------

/// Byte `j` of a bit string read least-significant bit first: the OR of its
/// first `k` bits.
pub open spec fn lsb_byte(bits: Seq<bool>, j: int, k: nat) -> u8
    decreases k,
{
    if k == 0 {
        0
    } else {
        lsb_byte(bits, j, (k - 1) as nat) | (if bits[8 * j + k - 1] {
            (1u8 << ((k - 1) as u8)) as u8
        } else {
            0u8
        })
    }
}

/// Octets of a bit string whose length is a multiple of 8, each octet's bits
/// least-significant first.
pub open spec fn lsb_octets(bits: Seq<bool>) -> Seq<u8> {
    Seq::new(bits.len() / 8, |j: int| lsb_byte(bits, j, 8))
}

pub proof fn lemma_lsb_byte_bits(bits: Seq<bool>, j: int, k: nat, b: int)
    requires
        k <= 8,
        0 <= b < 8,
    ensures
        (lsb_byte(bits, j, k) >> (b as u8)) & 1u8 == (if b < k && bits[8 * j + b] {
            1u8
        } else {
            0u8
        }),
    decreases k,
{
    if k == 0 {
        let bb = b as u8;
        assert((0u8 >> bb) & 1u8 == 0u8) by (bit_vector);
    } else {
        lemma_lsb_byte_bits(bits, j, (k - 1) as nat, b);
        let p = lsb_byte(bits, j, (k - 1) as nat);
        let m = (k - 1) as u8;
        let bb = b as u8;
        assert(((p | (1u8 << m)) >> bb) & 1u8 == (if bb == m { 1u8 } else { (p >> bb) & 1u8 }))
            by (bit_vector)
            requires
                m < 8,
                bb < 8,
        ;
        assert(((p | 0u8) >> bb) & 1u8 == (p >> bb) & 1u8) by (bit_vector);
    }
}

/// Reading the octets back least-significant bit first gives the bits.
pub proof fn lemma_lsb_round_trip(bits: Seq<bool>)
    requires
        bits.len() % 8 == 0,
    ensures
        lsb_bits(lsb_octets(bits)) == bits,
{
    let o = lsb_octets(bits);
    assert forall|i: int| 0 <= i < bits.len() implies #[trigger] lsb_bits(o)[i] == bits[i] by {
        lemma_lsb_byte_bits(bits, i / 8, 8, i % 8);
    }
    assert(lsb_bits(o) =~= bits);
}

/// Octets of `frame` (bits least-significant first); `frame.len()` must be a
/// multiple of 8.
pub fn pack_lsb(frame: &[bool]) -> (out: Vec<u8>)
    requires
        frame@.len() % 8 == 0,
    ensures
        out@ == lsb_octets(frame@),
{
    let flen = frame.len();
    let n = flen / 8;
    let mut out: Vec<u8> = Vec::new();
    let mut j: usize = 0;
    while j < n
        invariant
            flen == frame@.len(),
            n == frame@.len() / 8,
            frame@.len() % 8 == 0,
            j <= n,
            out@ == lsb_octets(frame@).subrange(0, j as int),
        decreases n - j,
    {
        let mut v: u8 = 0;
        let mut k: usize = 0;
        while k < 8
            invariant
                k <= 8,
                j < n,
                flen == frame@.len(),
                n == frame@.len() / 8,
                frame@.len() % 8 == 0,
                v == lsb_byte(frame@, j as int, k as nat),
            decreases 8 - k,
        {
            assert(8 * j + k < frame@.len()) by (nonlinear_arith)
                requires
                    j < frame@.len() / 8,
                    k < 8,
            ;
            if frame[8 * j + k] {
                v = v | (1u8 << (k as u8));
            } else {
                proof {
                    assert(v | 0u8 == v) by (bit_vector);
                }
            }
            k = k + 1;
        }
        out.push(v);
        proof {
            assert(out@ =~= lsb_octets(frame@).subrange(0, j + 1));
        }
        j = j + 1;
    }
    proof {
        assert(out@ =~= lsb_octets(frame@));
    }
    out
}

/// What `validate` accepts: 18 to 256 whole octets (2 × 7 address octets,
/// control, PID and the FCS at least) whose FCS checks.
pub open spec fn aprs_frame_ok(frame: Seq<bool>) -> bool {
    frame.len() >= 18 * 8 && frame.len() % 8 == 0 && frame.len() <= 2048 && fcs_ok_spec(
        lsb_octets(frame),
    )
}

/// Wire-order data bits -> octets (LSB-first per byte) -> FCS check -> octets
/// without the trailing 2 FCS bytes.
pub fn validate(frame: &[bool]) -> (r: Option<Vec<u8>>)
    ensures
        r is Some <==> aprs_frame_ok(frame@),
        r matches Some(o) ==> o@ == lsb_octets(frame@).drop_last().drop_last(),
{
    if frame.len() < 18 * 8 || frame.len() % 8 != 0 || frame.len() > 2048 {
        return None;
    }
    let mut octets = pack_lsb(frame);
    if !fcs_ok(octets.as_slice()) {
        return None;
    }
    let n = octets.len() - 2;
    octets.truncate(n);
    proof {
        assert(octets@ =~= lsb_octets(frame@).drop_last().drop_last());
    }
    Some(octets)
}

/// Everything the deframer remembers between line levels.
pub struct HdlcView {
    pub prev_level: bool,
    pub window: u8,
    pub in_frame: bool,
    pub ones: u8,
    pub bits: Seq<bool>,
}

/// One line level through the deframer: NRZI-decode it, slide it into the
/// 8-bit flag window, and either close/open a frame on a flag, drop a
/// stuffed 0, abort on seven 1s, or collect the bit. A flag that closes an
/// open frame of at least 7 bits hands out that frame without the flag's
/// first 7 bits (which were collected as data).
pub open spec fn hdlc_step(s: HdlcView, level: bool) -> (HdlcView, Option<Seq<bool>>) {
    let bit = level == s.prev_level;
    let w = ((s.window << 1u8) | (if bit { 1u8 } else { 0u8 })) as u8;
    if w == 0x7E {
        (
            HdlcView { prev_level: level, window: w, in_frame: true, ones: 0, bits: Seq::empty() },
            if s.in_frame && s.bits.len() >= 7 {
                Some(s.bits.take(s.bits.len() - 7))
            } else {
                None
            },
        )
    } else if !s.in_frame {
        (HdlcView { prev_level: level, window: w, ..s }, None)
    } else if bit {
        if s.ones + 1 >= 7 {
            (
                HdlcView {
                    prev_level: level,
                    window: w,
                    in_frame: false,
                    ones: (s.ones + 1) as u8,
                    bits: Seq::empty(),
                },
                None,
            )
        } else {
            (
                HdlcView {
                    prev_level: level,
                    window: w,
                    in_frame: true,
                    ones: (s.ones + 1) as u8,
                    bits: s.bits.push(true),
                },
                None,
            )
        }
    } else {
        (
            HdlcView {
                prev_level: level,
                window: w,
                in_frame: true,
                ones: 0,
                bits: if s.ones != 5 {
                    s.bits.push(false)
                } else {
                    s.bits
                },
            },
            None,
        )
    }
}

/// NRZI decode + HDLC deframe / de-stuff (AX.25). Classic "hunt the 8-bit
/// window for `0x7E`" design: any flag (opening, closing, or one of a
/// back-to-back preamble run) both closes the current frame and opens the
/// next. FCS is checked in `validate`.
pub struct Hdlc {
    prev_level: bool,
    window: u8,
    in_frame: bool,
    ones: u8,
    bits: Vec<bool>,
}

impl View for Hdlc {
    type V = HdlcView;

    closed spec fn view(&self) -> HdlcView {
        HdlcView {
            prev_level: self.prev_level,
            window: self.window,
            in_frame: self.in_frame,
            ones: self.ones,
            bits: self.bits@,
        }
    }
}

impl Hdlc {
    /// The run-of-ones counter stays small: an open frame has seen fewer
    /// than seven 1s in a row.
    pub closed spec fn wf(&self) -> bool {
        self.ones <= 7 && (self.in_frame ==> self.ones < 7)
    }

    /// A deframer hunting for its first flag, line low.
    pub fn new() -> (h: Self)
        ensures
            h.wf(),
            h@ == (HdlcView {
                prev_level: false,
                window: 0,
                in_frame: false,
                ones: 0,
                bits: Seq::empty(),
            }),
    {
        Self { prev_level: false, window: 0, in_frame: false, ones: 0, bits: Vec::new() }
    }

    /// Feed one line level (`true` = mark, the demodulated sample was
    /// non-negative); returns a frame's data bits when a flag closes it.
    pub fn push(&mut self, level: bool) -> (r: Option<Vec<bool>>)
        requires
            old(self).wf(),
        ensures
            final(self).wf(),
            final(self)@ == hdlc_step(old(self)@, level).0,
            r matches Some(v) ==> hdlc_step(old(self)@, level).1 == Some(v@),
            r is None ==> hdlc_step(old(self)@, level).1 is None,
    {
        let bit = level == self.prev_level;
        self.prev_level = level;
        self.window = (self.window << 1u8) | (if bit { 1u8 } else { 0u8 });
        if self.window == 0x7E {
            let frame = if self.in_frame && self.bits.len() >= 7 {
                let n = self.bits.len() - 7;
                Some(copy_bits(&self.bits, n))
            } else {
                None
            };
            self.in_frame = true;
            self.ones = 0;
            self.bits = Vec::new();
            return frame;
        }
        if !self.in_frame {
            return None;
        }
        if bit {
            self.ones = self.ones + 1;
            self.bits.push(true);
            if self.ones >= 7 {
                self.in_frame = false;
                self.bits = Vec::new();
            }
        } else {
            if self.ones != 5 {
                self.bits.push(false);
            }
            self.ones = 0;
        }
        None
    }
}

/// The first `n` bits of `v`.
fn copy_bits(v: &Vec<bool>, n: usize) -> (r: Vec<bool>)
    requires
        n <= v@.len(),
    ensures
        r@ == v@.take(n as int),
{
    let mut r: Vec<bool> = Vec::new();
    let mut i: usize = 0;
    while i < n
        invariant
            i <= n <= v@.len(),
            r@ == v@.take(i as int),
        decreases n - i,
    {
        r.push(v[i]);
        proof {
            assert(r@ =~= v@.take(i + 1));
        }
        i = i + 1;
    }
    r
}

} // verus!
