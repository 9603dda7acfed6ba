//! Mode S / 1090 ES frame layer: the CRC-24 parity, single-bit error
//! correction, and the downlink-format dispatch.
//!
//! Bit numbering follows the Mode S convention: bit 1 is the MSB of byte 0.

use vstd::prelude::*;
use crate::ais::lemma_xor_facts;
use crate::text::{string_from_chars, spec_decimal, push_decimal, trim_by, trim_chars};

verus! {

/// Mode S CRC-24 generator polynomial (0xFFF409, 24-bit form).
pub const POLY: u32 = 0x00FF_F409;

/// One bit of the CRC shift register.
pub open spec fn crc_bit_step(r: u32) -> u32 {
    if r & 0x0080_0000u32 != 0 {
        (r << 1u32) ^ POLY
    } else {
        r << 1u32
    }
}

/// `n` bits of the CRC shift register.
pub open spec fn crc_bit_steps(r: u32, n: nat) -> u32
    decreases n,
{
    if n == 0 {
        r
    } else {
        crc_bit_step(crc_bit_steps(r, (n - 1) as nat))
    }
}

/// The register after absorbing one byte.
pub open spec fn crc_byte_step(rem: u32, b: u8) -> u32 {
    crc_bit_steps(rem ^ ((b as u32) << 16u32), 8) & 0x00FF_FFFFu32
}

/// CRC-24 remainder of a byte string.
pub open spec fn spec_crc(s: Seq<u8>) -> u32
    decreases s.len(),
{
    if s.len() == 0 {
        0
    } else {
        crc_byte_step(spec_crc(s.drop_last()), s.last())
    }
}

/// CRC-24 over `data`. For a valid DF11/DF17/DF18 frame the remainder over the
/// whole frame (including the 24-bit parity field) is 0.
pub fn crc(data: &[u8]) -> (r: u32)
    ensures
        r == spec_crc(data@),
{
    let mut rem: u32 = 0;
    let mut i: usize = 0;
    while i < data.len()
        invariant
            i <= data.len(),
            rem == spec_crc(data@.take(i as int)),
        decreases data.len() - i,
    {
        let b = data[i];
        let start: u32 = rem ^ ((b as u32) << 16u32);
        let mut r: u32 = start;
        let mut k: usize = 0;
        while k < 8
            invariant
                k <= 8,
                r == crc_bit_steps(start, k as nat),
            decreases 8 - k,
        {
            r = if r & 0x0080_0000 != 0 { (r << 1u32) ^ POLY } else { r << 1u32 };
            k = k + 1;
        }
        rem = r & 0x00FF_FFFF;
        proof {
            assert(data@.take(i + 1).drop_last() =~= data@.take(i as int));
        }
        i = i + 1;
    }
    proof {
        assert(data@.take(i as int) =~= data@);
    }
    rem
}


/// The mask of Mode S bit `i` (0-based) inside its byte.
pub open spec fn bit_mask(i: int) -> u8 {
    0x80u8 >> ((i % 8) as u8)
}

/// `s` with bit `i` (0-based, MSB first) inverted.
pub open spec fn flip_bit(s: Seq<u8>, i: int) -> Seq<u8> {
    s.update(i / 8, s[i / 8] ^ bit_mask(i))
}

/// The 112-bit frame that is all zero except bit `i`.
pub open spec fn single_bit_frame(i: int) -> Seq<u8> {
    flip_bit(Seq::new(14, |j: int| 0u8), i)
}

/// CRC of the 112-bit frame with only bit `i` set: the residual a flip of
/// bit `i` leaves on an otherwise valid frame.
pub open spec fn syndrome(i: int) -> u32 {
    spec_crc(single_bit_frame(i))
}

/// Byte-wise exclusive or of two equally long strings.
pub open spec fn xor_seq(a: Seq<u8>, b: Seq<u8>) -> Seq<u8> {
    Seq::new(a.len(), |i: int| a[i] ^ b[i])
}

/// The first bit whose syndrome is `residual`, if any.
pub open spec fn first_syndrome_match(residual: u32, i: int) -> bool {
    &&& 0 <= i < 112
    &&& syndrome(i) == residual
    &&& forall|j: int| 0 <= j < i ==> syndrome(j) != residual
}

proof fn lemma_bit_step_xor(a: u32, b: u32)
    ensures
        crc_bit_step(a ^ b) == crc_bit_step(a) ^ crc_bit_step(b),
{
    assert((if (a ^ b) & 0x0080_0000u32 != 0 { ((a ^ b) << 1u32) ^ 0x00FF_F409u32 } else { (a
        ^ b) << 1u32 }) == (if a & 0x0080_0000u32 != 0 { (a << 1u32) ^ 0x00FF_F409u32 } else {
        a << 1u32
    }) ^ (if b & 0x0080_0000u32 != 0 { (b << 1u32) ^ 0x00FF_F409u32 } else { b << 1u32 }))
        by (bit_vector);
}

proof fn lemma_bit_steps_xor(a: u32, b: u32, n: nat)
    ensures
        crc_bit_steps(a ^ b, n) == crc_bit_steps(a, n) ^ crc_bit_steps(b, n),
    decreases n,
{
    if n > 0 {
        lemma_bit_steps_xor(a, b, (n - 1) as nat);
        lemma_bit_step_xor(crc_bit_steps(a, (n - 1) as nat), crc_bit_steps(b, (n - 1) as nat));
    }
}

proof fn lemma_byte_step_xor(ra: u32, rb: u32, ba: u8, bb: u8)
    ensures
        crc_byte_step(ra ^ rb, ba ^ bb) == crc_byte_step(ra, ba) ^ crc_byte_step(rb, bb),
{
    let sa = ra ^ ((ba as u32) << 16u32);
    let sb = rb ^ ((bb as u32) << 16u32);
    assert((ra ^ rb) ^ (((ba ^ bb) as u32) << 16u32) == (ra ^ ((ba as u32) << 16u32)) ^ (rb ^ ((
    bb as u32) << 16u32))) by (bit_vector);
    lemma_bit_steps_xor(sa, sb, 8);
    let x = crc_bit_steps(sa, 8);
    let y = crc_bit_steps(sb, 8);
    assert((x ^ y) & 0x00FF_FFFFu32 == (x & 0x00FF_FFFFu32) ^ (y & 0x00FF_FFFFu32))
        by (bit_vector);
}

/// The CRC is linear: the remainder of the byte-wise xor of two equally long
/// strings is the xor of their remainders.
pub proof fn lemma_crc_xor(a: Seq<u8>, b: Seq<u8>)
    requires
        a.len() == b.len(),
    ensures
        spec_crc(xor_seq(a, b)) == spec_crc(a) ^ spec_crc(b),
    decreases a.len(),
{
    if a.len() == 0 {
        assert(xor_seq(a, b).len() == 0);
        assert(0u32 ^ 0u32 == 0u32) by (bit_vector);
    } else {
        let x = xor_seq(a, b);
        assert(x.drop_last() =~= xor_seq(a.drop_last(), b.drop_last()));
        lemma_crc_xor(a.drop_last(), b.drop_last());
        lemma_byte_step_xor(spec_crc(a.drop_last()), spec_crc(b.drop_last()), a.last(), b.last());
    }
}

proof fn lemma_flip_is_xor(s: Seq<u8>, i: int)
    requires
        s.len() == 14,
        0 <= i < 112,
    ensures
        flip_bit(s, i) =~= xor_seq(s, single_bit_frame(i)),
{
    let m = bit_mask(i);
    assert forall|j: int| 0 <= j < 14 implies #[trigger] flip_bit(s, i)[j] == xor_seq(
        s,
        single_bit_frame(i),
    )[j] by {
        let v = s[j];
        if j == i / 8 {
            assert(v ^ (0u8 ^ m) == v ^ m) by (bit_vector);
        } else {
            assert(v ^ 0u8 == v) by (bit_vector);
        }
    }
}

/// Flipping bit `i` of a 14-byte frame changes its CRC by exactly
/// `syndrome(i)`.
pub proof fn lemma_flip_changes_crc_by_syndrome(s: Seq<u8>, i: int)
    requires
        s.len() == 14,
        0 <= i < 112,
    ensures
        spec_crc(flip_bit(s, i)) == spec_crc(s) ^ syndrome(i),
{
    lemma_flip_is_xor(s, i);
    lemma_crc_xor(s, single_bit_frame(i));
}

/// Eight steps of the CRC shift register, written out.
pub open spec fn step8(r: u32) -> u32 {
    crc_bit_step(crc_bit_step(crc_bit_step(crc_bit_step(crc_bit_step(crc_bit_step(crc_bit_step(crc_bit_step(r))))))))
}

/// The register after absorbing bit `m` (MSB first) of a byte and then
/// `t` zero bytes, from a zero register: the syndrome of a single bit
/// with `t` bytes after its own.
pub open spec fn syndrome_value(m: int, t: int) -> u32 {
    if m == 0 {
        if t == 0 {
            0x0706C0
        } else if t == 1 {
            0xF91024
        } else if t == 2 {
            0xEA04AD
        } else if t == 3 {
            0x018567
        } else if t == 4 {
            0x7A9309
        } else if t == 5 {
            0x91C77F
        } else if t == 6 {
            0x3F6D11
        } else if t == 7 {
            0x939020
        } else if t == 8 {
            0x682E0A
        } else if t == 9 {
            0x2C38BC
        } else if t == 10 {
            0x3935EA
        } else if t == 11 {
            0xCB4F0D
        } else if t == 12 {
            0xB410DE
        } else {
            0x16C19E
        }
    } else if m == 1 {
        if t == 0 {
            0x038360
        } else if t == 1 {
            0x7C8812
        } else if t == 2 {
            0x8AF852
        } else if t == 3 {
            0xFF38B7
        } else if t == 4 {
            0xC2B380
        } else if t == 5 {
            0xB719BB
        } else if t == 6 {
            0xE04C8C
        } else if t == 7 {
            0x49C810
        } else if t == 8 {
            0x341705
        } else if t == 9 {
            0x161C5E
        } else if t == 10 {
            0x1C9AF5
        } else if t == 11 {
            0x9A5D82
        } else if t == 12 {
            0x5A086F
        } else {
            0x0B60CF
        }
    } else if m == 2 {
        if t == 0 {
            0x01C1B0
        } else if t == 1 {
            0x3E4409
        } else if t == 2 {
            0x457C29
        } else if t == 3 {
            0x80665F
        } else if t == 4 {
            0x6159C0
        } else if t == 5 {
            0xA476D9
        } else if t == 6 {
            0x702646
        } else if t == 7 {
            0x24E408
        } else if t == 8 {
            0xE5F186
        } else if t == 9 {
            0x0B0E2F
        } else if t == 10 {
            0xF1B77E
        } else if t == 11 {
            0x4D2EC1
        } else if t == 12 {
            0xD2FE33
        } else {
            0xFA4A63
        }
    } else if m == 3 {
        if t == 0 {
            0x00E0D8
        } else if t == 1 {
            0xE0D800
        } else if t == 2 {
            0xDD4410
        } else if t == 3 {
            0xBFC92B
        } else if t == 4 {
            0x30ACE0
        } else if t == 5 {
            0xADC168
        } else if t == 6 {
            0x381323
        } else if t == 7 {
            0x127204
        } else if t == 8 {
            0x72F8C3
        } else if t == 9 {
            0xFA7D13
        } else if t == 10 {
            0x78DBBF
        } else if t == 11 {
            0xD96D64
        } else if t == 12 {
            0x96851D
        } else {
            0x82DF35
        }
    } else if m == 4 {
        if t == 0 {
            0x00706C
        } else if t == 1 {
            0x706C00
        } else if t == 2 {
            0x6EA208
        } else if t == 3 {
            0xA01E91
        } else if t == 4 {
            0x185670
        } else if t == 5 {
            0x56E0B4
        } else if t == 6 {
            0xE3F395
        } else if t == 7 {
            0x093902
        } else if t == 8 {
            0xC68665
        } else if t == 9 {
            0x82C48D
        } else if t == 10 {
            0xC397DB
        } else if t == 11 {
            0x6CB6B2
        } else if t == 12 {
            0xB4B88A
        } else {
            0xBE959E
        }
    } else if m == 5 {
        if t == 0 {
            0x003836
        } else if t == 1 {
            0x383600
        } else if t == 2 {
            0x375104
        } else if t == 3 {
            0xAFF54C
        } else if t == 4 {
            0x0C2B38
        } else if t == 5 {
            0x2B705A
        } else if t == 6 {
            0x8E03CE
        } else if t == 7 {
            0x049C81
        } else if t == 8 {
            0x9CB936
        } else if t == 9 {
            0xBE9842
        } else if t == 10 {
            0x9E31E9
        } else if t == 11 {
            0x365B59
        } else if t == 12 {
            0x5A5C45
        } else {
            0x5F4ACF
        }
    } else if m == 6 {
        if t == 0 {
            0x001C1B
        } else if t == 1 {
            0x1C1B00
        } else if t == 2 {
            0x1BA882
        } else if t == 3 {
            0x57FAA6
        } else if t == 4 {
            0x06159C
        } else if t == 5 {
            0x15B82D
        } else if t == 6 {
            0x4701E7
        } else if t == 7 {
            0xFDB444
        } else if t == 8 {
            0x4E5C9B
        } else if t == 9 {
            0x5F4C21
        } else if t == 10 {
            0xB0E2F0
        } else if t == 11 {
            0xE4D7A8
        } else if t == 12 {
            0xD2D426
        } else {
            0xD05F63
        }
    } else if m == 7 {
        if t == 0 {
            0xFFF409
        } else if t == 1 {
            0x0E0D80
        } else if t == 2 {
            0x0DD441
        } else if t == 3 {
            0x2BFD53
        } else if t == 4 {
            0x030ACE
        } else if t == 5 {
            0xF52612
        } else if t == 6 {
            0xDC7AF7
        } else if t == 7 {
            0x7EDA22
        } else if t == 8 {
            0xD8D449
        } else if t == 9 {
            0xD05C14
        } else if t == 10 {
            0x587178
        } else if t == 11 {
            0x726BD4
        } else if t == 12 {
            0x696A13
        } else {
            0x97D5B5
        }
    } else {
        0
    }
}

/// The register values behind the syndromes, computed step by step.
proof fn lemma_syndrome_steps()
    by (bit_vector)
    ensures
        step8(0u32 ^ ((0u8 as u32) << 16u32)) & 0x00FF_FFFFu32 == 0u32,
        step8(0u32 ^ (((0u8 ^ (0x80u8 >> 0u8)) as u32) << 16u32)) & 0x00FF_FFFFu32 == 0x0706C0u32,
        step8(0u32 ^ (((0u8 ^ (0x80u8 >> 1u8)) as u32) << 16u32)) & 0x00FF_FFFFu32 == 0x038360u32,
        step8(0u32 ^ (((0u8 ^ (0x80u8 >> 2u8)) as u32) << 16u32)) & 0x00FF_FFFFu32 == 0x01C1B0u32,
        step8(0u32 ^ (((0u8 ^ (0x80u8 >> 3u8)) as u32) << 16u32)) & 0x00FF_FFFFu32 == 0x00E0D8u32,
        step8(0u32 ^ (((0u8 ^ (0x80u8 >> 4u8)) as u32) << 16u32)) & 0x00FF_FFFFu32 == 0x00706Cu32,
        step8(0u32 ^ (((0u8 ^ (0x80u8 >> 5u8)) as u32) << 16u32)) & 0x00FF_FFFFu32 == 0x003836u32,
        step8(0u32 ^ (((0u8 ^ (0x80u8 >> 6u8)) as u32) << 16u32)) & 0x00FF_FFFFu32 == 0x001C1Bu32,
        step8(0u32 ^ (((0u8 ^ (0x80u8 >> 7u8)) as u32) << 16u32)) & 0x00FF_FFFFu32 == 0xFFF409u32,
        step8(0x0706C0u32 ^ ((0u8 as u32) << 16u32)) & 0x00FF_FFFFu32 == 0xF91024u32,
        step8(0xF91024u32 ^ ((0u8 as u32) << 16u32)) & 0x00FF_FFFFu32 == 0xEA04ADu32,
        step8(0xEA04ADu32 ^ ((0u8 as u32) << 16u32)) & 0x00FF_FFFFu32 == 0x018567u32,
        step8(0x018567u32 ^ ((0u8 as u32) << 16u32)) & 0x00FF_FFFFu32 == 0x7A9309u32,
        step8(0x7A9309u32 ^ ((0u8 as u32) << 16u32)) & 0x00FF_FFFFu32 == 0x91C77Fu32,
        step8(0x91C77Fu32 ^ ((0u8 as u32) << 16u32)) & 0x00FF_FFFFu32 == 0x3F6D11u32,
        step8(0x3F6D11u32 ^ ((0u8 as u32) << 16u32)) & 0x00FF_FFFFu32 == 0x939020u32,
        step8(0x939020u32 ^ ((0u8 as u32) << 16u32)) & 0x00FF_FFFFu32 == 0x682E0Au32,
        step8(0x682E0Au32 ^ ((0u8 as u32) << 16u32)) & 0x00FF_FFFFu32 == 0x2C38BCu32,
        step8(0x2C38BCu32 ^ ((0u8 as u32) << 16u32)) & 0x00FF_FFFFu32 == 0x3935EAu32,
        step8(0x3935EAu32 ^ ((0u8 as u32) << 16u32)) & 0x00FF_FFFFu32 == 0xCB4F0Du32,
        step8(0xCB4F0Du32 ^ ((0u8 as u32) << 16u32)) & 0x00FF_FFFFu32 == 0xB410DEu32,
        step8(0xB410DEu32 ^ ((0u8 as u32) << 16u32)) & 0x00FF_FFFFu32 == 0x16C19Eu32,
        step8(0x038360u32 ^ ((0u8 as u32) << 16u32)) & 0x00FF_FFFFu32 == 0x7C8812u32,
        step8(0x7C8812u32 ^ ((0u8 as u32) << 16u32)) & 0x00FF_FFFFu32 == 0x8AF852u32,
        step8(0x8AF852u32 ^ ((0u8 as u32) << 16u32)) & 0x00FF_FFFFu32 == 0xFF38B7u32,
        step8(0xFF38B7u32 ^ ((0u8 as u32) << 16u32)) & 0x00FF_FFFFu32 == 0xC2B380u32,
        step8(0xC2B380u32 ^ ((0u8 as u32) << 16u32)) & 0x00FF_FFFFu32 == 0xB719BBu32,
        step8(0xB719BBu32 ^ ((0u8 as u32) << 16u32)) & 0x00FF_FFFFu32 == 0xE04C8Cu32,
        step8(0xE04C8Cu32 ^ ((0u8 as u32) << 16u32)) & 0x00FF_FFFFu32 == 0x49C810u32,
        step8(0x49C810u32 ^ ((0u8 as u32) << 16u32)) & 0x00FF_FFFFu32 == 0x341705u32,
        step8(0x341705u32 ^ ((0u8 as u32) << 16u32)) & 0x00FF_FFFFu32 == 0x161C5Eu32,
        step8(0x161C5Eu32 ^ ((0u8 as u32) << 16u32)) & 0x00FF_FFFFu32 == 0x1C9AF5u32,
        step8(0x1C9AF5u32 ^ ((0u8 as u32) << 16u32)) & 0x00FF_FFFFu32 == 0x9A5D82u32,
        step8(0x9A5D82u32 ^ ((0u8 as u32) << 16u32)) & 0x00FF_FFFFu32 == 0x5A086Fu32,
        step8(0x5A086Fu32 ^ ((0u8 as u32) << 16u32)) & 0x00FF_FFFFu32 == 0x0B60CFu32,
        step8(0x01C1B0u32 ^ ((0u8 as u32) << 16u32)) & 0x00FF_FFFFu32 == 0x3E4409u32,
        step8(0x3E4409u32 ^ ((0u8 as u32) << 16u32)) & 0x00FF_FFFFu32 == 0x457C29u32,
        step8(0x457C29u32 ^ ((0u8 as u32) << 16u32)) & 0x00FF_FFFFu32 == 0x80665Fu32,
        step8(0x80665Fu32 ^ ((0u8 as u32) << 16u32)) & 0x00FF_FFFFu32 == 0x6159C0u32,
        step8(0x6159C0u32 ^ ((0u8 as u32) << 16u32)) & 0x00FF_FFFFu32 == 0xA476D9u32,
        step8(0xA476D9u32 ^ ((0u8 as u32) << 16u32)) & 0x00FF_FFFFu32 == 0x702646u32,
        step8(0x702646u32 ^ ((0u8 as u32) << 16u32)) & 0x00FF_FFFFu32 == 0x24E408u32,
        step8(0x24E408u32 ^ ((0u8 as u32) << 16u32)) & 0x00FF_FFFFu32 == 0xE5F186u32,
        step8(0xE5F186u32 ^ ((0u8 as u32) << 16u32)) & 0x00FF_FFFFu32 == 0x0B0E2Fu32,
        step8(0x0B0E2Fu32 ^ ((0u8 as u32) << 16u32)) & 0x00FF_FFFFu32 == 0xF1B77Eu32,
        step8(0xF1B77Eu32 ^ ((0u8 as u32) << 16u32)) & 0x00FF_FFFFu32 == 0x4D2EC1u32,
        step8(0x4D2EC1u32 ^ ((0u8 as u32) << 16u32)) & 0x00FF_FFFFu32 == 0xD2FE33u32,
        step8(0xD2FE33u32 ^ ((0u8 as u32) << 16u32)) & 0x00FF_FFFFu32 == 0xFA4A63u32,
        step8(0x00E0D8u32 ^ ((0u8 as u32) << 16u32)) & 0x00FF_FFFFu32 == 0xE0D800u32,
        step8(0xE0D800u32 ^ ((0u8 as u32) << 16u32)) & 0x00FF_FFFFu32 == 0xDD4410u32,
        step8(0xDD4410u32 ^ ((0u8 as u32) << 16u32)) & 0x00FF_FFFFu32 == 0xBFC92Bu32,
        step8(0xBFC92Bu32 ^ ((0u8 as u32) << 16u32)) & 0x00FF_FFFFu32 == 0x30ACE0u32,
        step8(0x30ACE0u32 ^ ((0u8 as u32) << 16u32)) & 0x00FF_FFFFu32 == 0xADC168u32,
        step8(0xADC168u32 ^ ((0u8 as u32) << 16u32)) & 0x00FF_FFFFu32 == 0x381323u32,
        step8(0x381323u32 ^ ((0u8 as u32) << 16u32)) & 0x00FF_FFFFu32 == 0x127204u32,
        step8(0x127204u32 ^ ((0u8 as u32) << 16u32)) & 0x00FF_FFFFu32 == 0x72F8C3u32,
        step8(0x72F8C3u32 ^ ((0u8 as u32) << 16u32)) & 0x00FF_FFFFu32 == 0xFA7D13u32,
        step8(0xFA7D13u32 ^ ((0u8 as u32) << 16u32)) & 0x00FF_FFFFu32 == 0x78DBBFu32,
        step8(0x78DBBFu32 ^ ((0u8 as u32) << 16u32)) & 0x00FF_FFFFu32 == 0xD96D64u32,
        step8(0xD96D64u32 ^ ((0u8 as u32) << 16u32)) & 0x00FF_FFFFu32 == 0x96851Du32,
        step8(0x96851Du32 ^ ((0u8 as u32) << 16u32)) & 0x00FF_FFFFu32 == 0x82DF35u32,
        step8(0x00706Cu32 ^ ((0u8 as u32) << 16u32)) & 0x00FF_FFFFu32 == 0x706C00u32,
        step8(0x706C00u32 ^ ((0u8 as u32) << 16u32)) & 0x00FF_FFFFu32 == 0x6EA208u32,
        step8(0x6EA208u32 ^ ((0u8 as u32) << 16u32)) & 0x00FF_FFFFu32 == 0xA01E91u32,
        step8(0xA01E91u32 ^ ((0u8 as u32) << 16u32)) & 0x00FF_FFFFu32 == 0x185670u32,
        step8(0x185670u32 ^ ((0u8 as u32) << 16u32)) & 0x00FF_FFFFu32 == 0x56E0B4u32,
        step8(0x56E0B4u32 ^ ((0u8 as u32) << 16u32)) & 0x00FF_FFFFu32 == 0xE3F395u32,
        step8(0xE3F395u32 ^ ((0u8 as u32) << 16u32)) & 0x00FF_FFFFu32 == 0x093902u32,
        step8(0x093902u32 ^ ((0u8 as u32) << 16u32)) & 0x00FF_FFFFu32 == 0xC68665u32,
        step8(0xC68665u32 ^ ((0u8 as u32) << 16u32)) & 0x00FF_FFFFu32 == 0x82C48Du32,
        step8(0x82C48Du32 ^ ((0u8 as u32) << 16u32)) & 0x00FF_FFFFu32 == 0xC397DBu32,
        step8(0xC397DBu32 ^ ((0u8 as u32) << 16u32)) & 0x00FF_FFFFu32 == 0x6CB6B2u32,
        step8(0x6CB6B2u32 ^ ((0u8 as u32) << 16u32)) & 0x00FF_FFFFu32 == 0xB4B88Au32,
        step8(0xB4B88Au32 ^ ((0u8 as u32) << 16u32)) & 0x00FF_FFFFu32 == 0xBE959Eu32,
        step8(0x003836u32 ^ ((0u8 as u32) << 16u32)) & 0x00FF_FFFFu32 == 0x383600u32,
        step8(0x383600u32 ^ ((0u8 as u32) << 16u32)) & 0x00FF_FFFFu32 == 0x375104u32,
        step8(0x375104u32 ^ ((0u8 as u32) << 16u32)) & 0x00FF_FFFFu32 == 0xAFF54Cu32,
        step8(0xAFF54Cu32 ^ ((0u8 as u32) << 16u32)) & 0x00FF_FFFFu32 == 0x0C2B38u32,
        step8(0x0C2B38u32 ^ ((0u8 as u32) << 16u32)) & 0x00FF_FFFFu32 == 0x2B705Au32,
        step8(0x2B705Au32 ^ ((0u8 as u32) << 16u32)) & 0x00FF_FFFFu32 == 0x8E03CEu32,
        step8(0x8E03CEu32 ^ ((0u8 as u32) << 16u32)) & 0x00FF_FFFFu32 == 0x049C81u32,
        step8(0x049C81u32 ^ ((0u8 as u32) << 16u32)) & 0x00FF_FFFFu32 == 0x9CB936u32,
        step8(0x9CB936u32 ^ ((0u8 as u32) << 16u32)) & 0x00FF_FFFFu32 == 0xBE9842u32,
        step8(0xBE9842u32 ^ ((0u8 as u32) << 16u32)) & 0x00FF_FFFFu32 == 0x9E31E9u32,
        step8(0x9E31E9u32 ^ ((0u8 as u32) << 16u32)) & 0x00FF_FFFFu32 == 0x365B59u32,
        step8(0x365B59u32 ^ ((0u8 as u32) << 16u32)) & 0x00FF_FFFFu32 == 0x5A5C45u32,
        step8(0x5A5C45u32 ^ ((0u8 as u32) << 16u32)) & 0x00FF_FFFFu32 == 0x5F4ACFu32,
        step8(0x001C1Bu32 ^ ((0u8 as u32) << 16u32)) & 0x00FF_FFFFu32 == 0x1C1B00u32,
        step8(0x1C1B00u32 ^ ((0u8 as u32) << 16u32)) & 0x00FF_FFFFu32 == 0x1BA882u32,
        step8(0x1BA882u32 ^ ((0u8 as u32) << 16u32)) & 0x00FF_FFFFu32 == 0x57FAA6u32,
        step8(0x57FAA6u32 ^ ((0u8 as u32) << 16u32)) & 0x00FF_FFFFu32 == 0x06159Cu32,
        step8(0x06159Cu32 ^ ((0u8 as u32) << 16u32)) & 0x00FF_FFFFu32 == 0x15B82Du32,
        step8(0x15B82Du32 ^ ((0u8 as u32) << 16u32)) & 0x00FF_FFFFu32 == 0x4701E7u32,
        step8(0x4701E7u32 ^ ((0u8 as u32) << 16u32)) & 0x00FF_FFFFu32 == 0xFDB444u32,
        step8(0xFDB444u32 ^ ((0u8 as u32) << 16u32)) & 0x00FF_FFFFu32 == 0x4E5C9Bu32,
        step8(0x4E5C9Bu32 ^ ((0u8 as u32) << 16u32)) & 0x00FF_FFFFu32 == 0x5F4C21u32,
        step8(0x5F4C21u32 ^ ((0u8 as u32) << 16u32)) & 0x00FF_FFFFu32 == 0xB0E2F0u32,
        step8(0xB0E2F0u32 ^ ((0u8 as u32) << 16u32)) & 0x00FF_FFFFu32 == 0xE4D7A8u32,
        step8(0xE4D7A8u32 ^ ((0u8 as u32) << 16u32)) & 0x00FF_FFFFu32 == 0xD2D426u32,
        step8(0xD2D426u32 ^ ((0u8 as u32) << 16u32)) & 0x00FF_FFFFu32 == 0xD05F63u32,
        step8(0xFFF409u32 ^ ((0u8 as u32) << 16u32)) & 0x00FF_FFFFu32 == 0x0E0D80u32,
        step8(0x0E0D80u32 ^ ((0u8 as u32) << 16u32)) & 0x00FF_FFFFu32 == 0x0DD441u32,
        step8(0x0DD441u32 ^ ((0u8 as u32) << 16u32)) & 0x00FF_FFFFu32 == 0x2BFD53u32,
        step8(0x2BFD53u32 ^ ((0u8 as u32) << 16u32)) & 0x00FF_FFFFu32 == 0x030ACEu32,
        step8(0x030ACEu32 ^ ((0u8 as u32) << 16u32)) & 0x00FF_FFFFu32 == 0xF52612u32,
        step8(0xF52612u32 ^ ((0u8 as u32) << 16u32)) & 0x00FF_FFFFu32 == 0xDC7AF7u32,
        step8(0xDC7AF7u32 ^ ((0u8 as u32) << 16u32)) & 0x00FF_FFFFu32 == 0x7EDA22u32,
        step8(0x7EDA22u32 ^ ((0u8 as u32) << 16u32)) & 0x00FF_FFFFu32 == 0xD8D449u32,
        step8(0xD8D449u32 ^ ((0u8 as u32) << 16u32)) & 0x00FF_FFFFu32 == 0xD05C14u32,
        step8(0xD05C14u32 ^ ((0u8 as u32) << 16u32)) & 0x00FF_FFFFu32 == 0x587178u32,
        step8(0x587178u32 ^ ((0u8 as u32) << 16u32)) & 0x00FF_FFFFu32 == 0x726BD4u32,
        step8(0x726BD4u32 ^ ((0u8 as u32) << 16u32)) & 0x00FF_FFFFu32 == 0x696A13u32,
        step8(0x696A13u32 ^ ((0u8 as u32) << 16u32)) & 0x00FF_FFFFu32 == 0x97D5B5u32,
{
}

/// The bit whose syndrome is `v`, or -1 for a value that is none.
pub open spec fn syndrome_bit(v: u32) -> int {
    if v == 0x0706C0 {
        104
    } else if v == 0xF91024 {
        96
    } else if v == 0xEA04AD {
        88
    } else if v == 0x018567 {
        80
    } else if v == 0x7A9309 {
        72
    } else if v == 0x91C77F {
        64
    } else if v == 0x3F6D11 {
        56
    } else if v == 0x939020 {
        48
    } else if v == 0x682E0A {
        40
    } else if v == 0x2C38BC {
        32
    } else if v == 0x3935EA {
        24
    } else if v == 0xCB4F0D {
        16
    } else if v == 0xB410DE {
        8
    } else if v == 0x16C19E {
        0
    } else if v == 0x038360 {
        105
    } else if v == 0x7C8812 {
        97
    } else if v == 0x8AF852 {
        89
    } else if v == 0xFF38B7 {
        81
    } else if v == 0xC2B380 {
        73
    } else if v == 0xB719BB {
        65
    } else if v == 0xE04C8C {
        57
    } else if v == 0x49C810 {
        49
    } else if v == 0x341705 {
        41
    } else if v == 0x161C5E {
        33
    } else if v == 0x1C9AF5 {
        25
    } else if v == 0x9A5D82 {
        17
    } else if v == 0x5A086F {
        9
    } else if v == 0x0B60CF {
        1
    } else if v == 0x01C1B0 {
        106
    } else if v == 0x3E4409 {
        98
    } else if v == 0x457C29 {
        90
    } else if v == 0x80665F {
        82
    } else if v == 0x6159C0 {
        74
    } else if v == 0xA476D9 {
        66
    } else if v == 0x702646 {
        58
    } else if v == 0x24E408 {
        50
    } else if v == 0xE5F186 {
        42
    } else if v == 0x0B0E2F {
        34
    } else if v == 0xF1B77E {
        26
    } else if v == 0x4D2EC1 {
        18
    } else if v == 0xD2FE33 {
        10
    } else if v == 0xFA4A63 {
        2
    } else if v == 0x00E0D8 {
        107
    } else if v == 0xE0D800 {
        99
    } else if v == 0xDD4410 {
        91
    } else if v == 0xBFC92B {
        83
    } else if v == 0x30ACE0 {
        75
    } else if v == 0xADC168 {
        67
    } else if v == 0x381323 {
        59
    } else if v == 0x127204 {
        51
    } else if v == 0x72F8C3 {
        43
    } else if v == 0xFA7D13 {
        35
    } else if v == 0x78DBBF {
        27
    } else if v == 0xD96D64 {
        19
    } else if v == 0x96851D {
        11
    } else if v == 0x82DF35 {
        3
    } else if v == 0x00706C {
        108
    } else if v == 0x706C00 {
        100
    } else if v == 0x6EA208 {
        92
    } else if v == 0xA01E91 {
        84
    } else if v == 0x185670 {
        76
    } else if v == 0x56E0B4 {
        68
    } else if v == 0xE3F395 {
        60
    } else if v == 0x093902 {
        52
    } else if v == 0xC68665 {
        44
    } else if v == 0x82C48D {
        36
    } else if v == 0xC397DB {
        28
    } else if v == 0x6CB6B2 {
        20
    } else if v == 0xB4B88A {
        12
    } else if v == 0xBE959E {
        4
    } else if v == 0x003836 {
        109
    } else if v == 0x383600 {
        101
    } else if v == 0x375104 {
        93
    } else if v == 0xAFF54C {
        85
    } else if v == 0x0C2B38 {
        77
    } else if v == 0x2B705A {
        69
    } else if v == 0x8E03CE {
        61
    } else if v == 0x049C81 {
        53
    } else if v == 0x9CB936 {
        45
    } else if v == 0xBE9842 {
        37
    } else if v == 0x9E31E9 {
        29
    } else if v == 0x365B59 {
        21
    } else if v == 0x5A5C45 {
        13
    } else if v == 0x5F4ACF {
        5
    } else if v == 0x001C1B {
        110
    } else if v == 0x1C1B00 {
        102
    } else if v == 0x1BA882 {
        94
    } else if v == 0x57FAA6 {
        86
    } else if v == 0x06159C {
        78
    } else if v == 0x15B82D {
        70
    } else if v == 0x4701E7 {
        62
    } else if v == 0xFDB444 {
        54
    } else if v == 0x4E5C9B {
        46
    } else if v == 0x5F4C21 {
        38
    } else if v == 0xB0E2F0 {
        30
    } else if v == 0xE4D7A8 {
        22
    } else if v == 0xD2D426 {
        14
    } else if v == 0xD05F63 {
        6
    } else if v == 0xFFF409 {
        111
    } else if v == 0x0E0D80 {
        103
    } else if v == 0x0DD441 {
        95
    } else if v == 0x2BFD53 {
        87
    } else if v == 0x030ACE {
        79
    } else if v == 0xF52612 {
        71
    } else if v == 0xDC7AF7 {
        63
    } else if v == 0x7EDA22 {
        55
    } else if v == 0xD8D449 {
        47
    } else if v == 0xD05C14 {
        39
    } else if v == 0x587178 {
        31
    } else if v == 0x726BD4 {
        23
    } else if v == 0x696A13 {
        15
    } else if v == 0x97D5B5 {
        7
    } else {
        -1
    }
}

proof fn lemma_steps8(r: u32)
    ensures
        crc_bit_steps(r, 8) == step8(r),
{
    reveal_with_fuel(crc_bit_steps, 9);
}

/// A zero byte carries the chain of a single bit one byte further.
proof fn lemma_chain_step(m: int, t: int)
    requires
        0 <= m < 8,
        0 <= t < 13,
    ensures
        crc_byte_step(syndrome_value(m, t), 0) == syndrome_value(m, t + 1),
{
    lemma_syndrome_steps();
    lemma_steps8(syndrome_value(m, t) ^ ((0u8 as u32) << 16u32));
}

/// The byte holding bit `m` of a single-bit frame starts the chain.
proof fn lemma_chain_start(i: int)
    requires
        0 <= i < 112,
    ensures
        crc_byte_step(0, 0u8 ^ bit_mask(i)) == syndrome_value(i % 8, 0),
{
    lemma_syndrome_steps();
    lemma_steps8(0u32 ^ (((0u8 ^ bit_mask(i)) as u32) << 16u32));
}

/// The CRC of the first `j` bytes of the frame with only bit `i` set.
proof fn lemma_single_bit_prefix(i: int, j: int)
    requires
        0 <= i < 112,
        0 <= j <= 14,
    ensures
        spec_crc(single_bit_frame(i).take(j)) == (if j <= i / 8 {
            0u32
        } else {
            syndrome_value(i % 8, j - i / 8 - 1)
        }),
    decreases j,
{
    let z = single_bit_frame(i);
    let k = i / 8;
    if j > 0 {
        lemma_single_bit_prefix(i, j - 1);
        assert(z.take(j).drop_last() =~= z.take(j - 1));
        assert(z.take(j).last() == z[j - 1]);
        if j - 1 < k {
            assert(z[j - 1] == 0u8);
            lemma_syndrome_steps();
            lemma_steps8(0u32 ^ ((0u8 as u32) << 16u32));
        } else if j - 1 == k {
            assert(z[j - 1] == 0u8 ^ bit_mask(i));
            lemma_chain_start(i);
        } else {
            assert(z[j - 1] == 0u8);
            lemma_chain_step(i % 8, j - k - 2);
        }
    } else {
        assert(z.take(0).len() == 0);
    }
}

/// Every bit of a 112-bit frame has its own non-zero syndrome.
pub proof fn lemma_syndromes_distinct()
    ensures
        forall|i: int| 0 <= i < 112 ==> #[trigger] syndrome(i) != 0,
        forall|i: int, j: int| 0 <= i < 112 && 0 <= j < 112 && i != j ==> #[trigger] syndrome(i)
            != #[trigger] syndrome(j),
{
    assert forall|i: int| 0 <= i < 112 implies syndrome_bit(#[trigger] syndrome(i)) == i by {
        lemma_single_bit_prefix(i, 14);
        assert(single_bit_frame(i).take(14) =~= single_bit_frame(i));
        let m = i % 8;
        let t = 13 - i / 8;
        assert(syndrome_bit(syndrome_value(m, t)) == 8 * (13 - t) + m);
    }
}


/// Flipping one bit of a frame whose CRC is 0 leaves exactly that bit's
/// syndrome, that bit is the first (and only) one with it, flipping it back
/// restores the frame, and the restored frame is the only correction.
pub proof fn lemma_single_flip_repaired(s: Seq<u8>, i: int)
    requires
        s.len() == 14,
        spec_crc(s) == 0,
        0 <= i < 112,
    ensures
        spec_crc(flip_bit(s, i)) == syndrome(i),
        spec_crc(flip_bit(s, i)) != 0,
        first_syndrome_match(spec_crc(flip_bit(s, i)), i),
        flip_bit(flip_bit(s, i), i) == s,
        forall|f: Seq<u8>| corrected(flip_bit(s, i), f) <==> f == s,
{
    let t = flip_bit(s, i);
    lemma_flip_changes_crc_by_syndrome(s, i);
    lemma_xor_facts(0, 0, 0, syndrome(i), 0);
    lemma_syndromes_distinct();
    let k = i / 8;
    let m = bit_mask(i);
    lemma_xor_facts(s[k], m, m, 0, 0);
    lemma_xor_facts(s[k], 0, 0, 0, 0);
    assert(flip_bit(t, i) =~= s);
    assert(first_syndrome_match(syndrome(i), i));
    assert forall|f: Seq<u8>| corrected(t, f) <==> f == s by {
        if corrected(t, f) {
            let j = choose|j: int| first_syndrome_match(spec_crc(t), j) && f == flip_bit(t, j);
            assert(syndrome(j) == syndrome(i));
        }
        if f == s {
            assert(first_syndrome_match(spec_crc(t), i) && f == flip_bit(t, i));
        }
    }
}

/// A DF17/DF18 frame with one bit flipped outside its downlink-format field
/// is refused without error correction and accepted with it, keeps its
/// downlink format, and has exactly the corrections of the frame before the
/// flip (that frame itself), so it decodes as that frame does.
pub proof fn lemma_repaired_frame_parses_like_original(s: Seq<u8>, i: int)
    requires
        s.len() == 14,
        spec_crc(s) == 0,
        spec_df(s) == 17 || spec_df(s) == 18,
        5 <= i < 112,
    ensures
        spec_df(flip_bit(s, i)) == spec_df(s),
        !parse_accepts(flip_bit(s, i), false),
        parse_accepts(flip_bit(s, i), true),
        parse_accepts(s, true),
        forall|f: Seq<u8>| corrected(flip_bit(s, i), f) <==> corrected(s, f),
{
    let t = flip_bit(s, i);
    lemma_single_flip_repaired(s, i);
    if i < 8 {
        lemma_xor_facts(s[0], 0, 0, 0, (i % 8) as u8);
        assert(t[0] == s[0] ^ bit_mask(i));
    } else {
        assert(t[0] == s[0]);
    }
    assert(long_frame_ok(t, true)) by {
        assert(0 <= i < 112 && syndrome(i) == spec_crc(t));
    }
}

/// `syndromes[i]` = CRC of a 112-bit frame that is all zero except bit `i`.
/// Lets a non-zero residual be mapped back to a single flipped bit.
fn syndromes_112() -> (t: Vec<u32>)
    ensures
        t.len() == 112,
        forall|i: int| 0 <= i < 112 ==> t[i] == syndrome(i),
{
    let mut t: Vec<u32> = Vec::new();
    let mut i: usize = 0;
    while i < 112
        invariant
            i <= 112,
            t.len() == i,
            forall|k: int| 0 <= k < i ==> t[k] == syndrome(k),
        decreases 112 - i,
    {
        let mut frame: Vec<u8> = vec![0u8; 14];
        let mask: u8 = 0x80u8 >> ((i % 8) as u8);
        frame.set(i / 8, 0u8 ^ mask);
        proof {
            assert(frame@ =~= single_bit_frame(i as int));
        }
        let c = crc(frame.as_slice());
        t.push(c);
        i = i + 1;
    }
    t
}

/// If `frame` (14 bytes) has a non-zero CRC that corresponds to exactly one
/// flipped bit, flip it back and return `true`. A frame whose CRC is already
/// zero is left as it is and also answers `true`.
pub fn fix_single_bit(frame: &mut [u8; 14]) -> (r: bool)
    ensures
        r == (spec_crc(old(frame)@) == 0 || exists|i: int|
            0 <= i < 112 && syndrome(i) == spec_crc(old(frame)@)),
        r ==> spec_crc(final(frame)@) == 0,
        !r ==> final(frame)@ == old(frame)@,
        spec_crc(old(frame)@) == 0 ==> final(frame)@ == old(frame)@,
        r && spec_crc(old(frame)@) != 0 ==> exists|i: int|
            first_syndrome_match(spec_crc(old(frame)@), i) && final(frame)@ == flip_bit(
                old(frame)@,
                i,
            ),
{
    let residual = crc(frame.as_slice());
    if residual == 0 {
        return true;
    }
    let t = syndromes_112();
    let mut bit: usize = 0;
    while bit < 112
        invariant
            bit <= 112,
            t.len() == 112,
            forall|i: int| 0 <= i < 112 ==> t[i] == syndrome(i),
            forall|j: int| 0 <= j < bit ==> syndrome(j) != residual,
            frame@ == old(frame)@,
            residual == spec_crc(old(frame)@),
            residual != 0,
        decreases 112 - bit,
    {
        if t[bit] == residual {
            let k = bit / 8;
            let mask: u8 = 0x80u8 >> ((bit % 8) as u8);
            frame[k] = frame[k] ^ mask;
            proof {
                assert(frame@ =~= flip_bit(old(frame)@, bit as int));
                lemma_flip_changes_crc_by_syndrome(old(frame)@, bit as int);
                assert(residual ^ residual == 0u32) by (bit_vector);
                assert(first_syndrome_match(residual, bit as int));
            }
            return true;
        }
        bit = bit + 1;
    }
    false
}


/// Bit `b` (0-based, MSB first) of `data`; bits past the end read as 0.
pub open spec fn spec_bit(data: Seq<u8>, b: int) -> u32 {
    if 0 <= b / 8 < data.len() {
        ((data[b / 8] >> ((7 - b % 8) as u8)) & 1u8) as u32
    } else {
        0
    }
}

/// `n` bits (MSB first) starting at 1-indexed Mode S bit `start`, as the low
/// bits of a `u32`.
pub open spec fn spec_bits(data: Seq<u8>, start: int, n: nat) -> u32
    decreases n,
{
    if n == 0 {
        0
    } else {
        (spec_bits(data, start, (n - 1) as nat) << 1u32) | spec_bit(data, start - 1 + n - 1)
    }
}

/// Read `len` bits (MSB first) starting at 1-indexed Mode S bit `start`.
fn bits(data: &[u8], start: usize, len: usize) -> (v: u32)
    requires
        start >= 1,
        start + len <= usize::MAX,
    ensures
        v == spec_bits(data@, start as int, len as nat),
{
    let mut v: u32 = 0;
    let mut i: usize = 0;
    while i < len
        invariant
            i <= len,
            start >= 1,
            start + len <= usize::MAX,
            v == spec_bits(data@, start as int, i as nat),
        decreases len - i,
    {
        let bit = start - 1 + i;
        let byte: u8 = if bit / 8 < data.len() { data[bit / 8] } else { 0 };
        let sh: u8 = (7 - bit % 8) as u8;
        let b = ((byte >> sh) & 1u8) as u32;
        proof {
            if bit / 8 >= data.len() {
                assert((0u8 >> sh) & 1u8 == 0u8) by (bit_vector);
            }
        }
        assert(b == spec_bit(data@, bit as int));
        v = (v << 1u32) | b;
        i = i + 1;
    }
    v
}

/// The Mode S 6-bit character set; `#` marks codes with no character.
pub open spec fn callsign_char(c: u32) -> char {
    if 1 <= c <= 26 {
        ((c + 64) as u8) as char
    } else if c == 32 {
        ' '
    } else if 48 <= c <= 57 {
        (c as u8) as char
    } else {
        '#'
    }
}

fn callsign_char_exec(c: u32) -> (ch: char)
    ensures
        ch == callsign_char(c),
{
    if 1 <= c && c <= 26 {
        ((c + 64) as u8) as char
    } else if c == 32 {
        ' '
    } else if 48 <= c && c <= 57 {
        (c as u8) as char
    } else {
        '#'
    }
}

/// The padding characters trimmed from a decoded flight identification.
pub open spec fn callsign_pad() -> Seq<char> {
    seq!['#', ' ']
}

/// The eight raw identification characters (ME bits 9..56 = frame bits 41..88).
pub open spec fn raw_callsign(frame: Seq<u8>) -> Seq<char> {
    Seq::new(8, |i: int| callsign_char(spec_bits(frame, 41 + i * 6, 6)))
}

pub open spec fn spec_callsign(frame: Seq<u8>) -> Seq<char> {
    trim_by(raw_callsign(frame), callsign_pad())
}

/// The flight identification of a TC 1..4 message, with `#`/space padding
/// trimmed from both ends.
fn decode_callsign(frame: &[u8]) -> (s: String)
    ensures
        s@ == spec_callsign(frame@),
{
    let mut raw: Vec<char> = Vec::new();
    let mut i: usize = 0;
    while i < 8
        invariant
            i <= 8,
            raw@ == raw_callsign(frame@).subrange(0, i as int),
        decreases 8 - i,
    {
        let c = bits(frame, 41 + i * 6, 6);
        raw.push(callsign_char_exec(c));
        proof {
            assert(raw@ =~= raw_callsign(frame@).subrange(0, i + 1));
        }
        i = i + 1;
    }
    proof {
        assert(raw@ =~= raw_callsign(frame@));
    }
    let pads = ['#', ' '];
    proof {
        assert(pads@ =~= callsign_pad());
    }
    let t = trim_chars(&raw, &pads);
    string_from_chars(t.as_slice())
}

/// Emitter category letter for TC 1..4 (TC 1 -> D ... TC 4 -> A).
pub open spec fn category_letter(tc: u8) -> char {
    if tc == 1 {
        'D'
    } else if tc == 2 {
        'C'
    } else if tc == 3 {
        'B'
    } else if tc == 4 {
        'A'
    } else {
        '?'
    }
}

/// `"none"` when the emitter class is 0, else the set letter followed by the
/// class number (e.g. `"A3"`).
pub open spec fn spec_category(tc: u8, ca: u8) -> Seq<char> {
    if ca == 0 {
        seq!['n', 'o', 'n', 'e']
    } else {
        seq![category_letter(tc)] + spec_decimal(ca as nat)
    }
}

/// An identification message names its emitter set by a letter that counts
/// down from `D` as the type code counts up (TC 1 is set D, TC 4 is set A:
/// the letter is `'E' - tc`), followed by the emitter class in decimal; a
/// class of 0 reads `none`.
pub proof fn lemma_category_names_set(tc: u8, ca: u8)
    requires
        1 <= tc <= 4,
    ensures
        ca == 0 ==> spec_category(tc, ca) == seq!['n', 'o', 'n', 'e'],
        ca != 0 ==> spec_category(tc, ca).len() >= 2 && (spec_category(tc, ca)[0] as u32) + (tc as u32)
            == 69 && spec_category(tc, ca).subrange(1, spec_category(tc, ca).len() as int)
            == spec_decimal(ca as nat),
{
    if ca != 0 {
        let c = spec_category(tc, ca);
        assert(c.subrange(1, c.len() as int) =~= spec_decimal(ca as nat));
        assert(spec_decimal(ca as nat).len() >= 1) by {
            reveal_with_fuel(spec_decimal, 2);
        }
    }
}

/// An extended squitter of type code 1..=4 decodes to an identification
/// whose category is the set letter `'E' - tc` and the emitter class
/// (the 3-bit field at frame bits 38..41) in decimal, or `none` for class 0.
pub proof fn lemma_identification_category(frame: Seq<u8>, icao: u32, m: AdsbMessage)
    requires
        adsb_decodes(frame, icao, m),
        1 <= m.type_code <= 4,
    ensures
        m.body matches MeBody::Identification { category, .. } && {
            let ca = spec_bits(frame, 38, 3) as u8;
            &&& ca == 0 ==> category@ == seq!['n', 'o', 'n', 'e']
            &&& ca != 0 ==> category@.len() >= 2 && (category@[0] as u32) + (m.type_code as u32) == 69
                && category@.subrange(1, category@.len() as int) == spec_decimal(ca as nat)
        },
{
    lemma_category_names_set(m.type_code, spec_bits(frame, 38, 3) as u8);
}

fn decode_category(tc: u8, ca: u8) -> (s: String)
    ensures
        s@ == spec_category(tc, ca),
{
    if ca == 0 {
        let v = ['n', 'o', 'n', 'e'];
        proof {
            assert(v@ =~= seq!['n', 'o', 'n', 'e']);
        }
        return string_from_chars(&v);
    }
    let letter = if tc == 1 {
        'D'
    } else if tc == 2 {
        'C'
    } else if tc == 3 {
        'B'
    } else if tc == 4 {
        'A'
    } else {
        '?'
    };
    let mut v: Vec<char> = Vec::new();
    v.push(letter);
    push_decimal(&mut v, ca as u64);
    proof {
        assert(v@ =~= seq![category_letter(tc)] + spec_decimal(ca as nat));
    }
    string_from_chars(v.as_slice())
}

/// Barometric altitude from the 12-bit AC field: Q-bit (25 ft) coding only;
/// an all-zero field and Gillham (Q = 0) coding are `None`.
pub open spec fn spec_altitude(ac12: u32) -> Option<i32> {
    if ac12 == 0 || (ac12 >> 4u32) & 1 != 1 {
        None
    } else {
        Some(((((ac12 >> 5u32) & 0x7F) * 16 + (ac12 & 0x0F)) * 25 - 1000) as i32)
    }
}

/// The 12-bit airborne altitude field with its Q bit (bit 4) set counts
/// 25-foot steps from -1000 ft over the other eleven bits, read as one
/// number: the seven above the Q bit and the four below it. Without the Q
/// bit (or for an all-zero field) there is no altitude.
pub proof fn lemma_altitude_25ft_steps(ac12: u32)
    requires
        ac12 < 4096,
    ensures
        ac12 == 0 || (ac12 / 16) % 2 == 0 ==> spec_altitude(ac12) is None,
        ac12 != 0 && (ac12 / 16) % 2 == 1 ==> spec_altitude(ac12) == Some(
            (25 * ((ac12 / 32) * 16 + ac12 % 16) - 1000) as i32,
        ),
{
    vstd::arithmetic::power2::lemma2_to64();
    vstd::bits::lemma_low_bits_mask_values();
    vstd::bits::lemma_u32_shr_is_div(ac12, 4);
    vstd::bits::lemma_u32_shr_is_div(ac12, 5);
    vstd::bits::lemma_u32_low_bits_mask_is_mod(ac12 >> 4u32, 1);
    vstd::bits::lemma_u32_low_bits_mask_is_mod(ac12 >> 5u32, 7);
    vstd::bits::lemma_u32_low_bits_mask_is_mod(ac12, 4);
}

/// Airborne velocity over ground (subtypes 1 and 2): each component is its
/// 10-bit magnitude field less one, in knots (in units of 4 knots for the
/// supersonic subtype 2), negative (west, south) when its direction bit is
/// set: east-west at frame bits 46 (direction) and 47..57, north-south at 57
/// and 58..68. A zero magnitude means no velocity. The vertical rate is the
/// 9-bit field at bits 70..79 less one, in 64 ft/min steps, downwards when
/// bit 69 is set; zero means none.
pub proof fn lemma_velocity_components(frame: Seq<u8>, subtype: u8)
    requires
        subtype == 1 || subtype == 2,
    ensures
        ({
            let vew = spec_bits(frame, 47, 10) as int;
            let vns = spec_bits(frame, 58, 10) as int;
            let me: int = if subtype == 2 { 4 * (vew - 1) } else { vew - 1 };
            let mn: int = if subtype == 2 { 4 * (vns - 1) } else { vns - 1 };
            let e: int = if spec_bits(frame, 46, 1) == 1 { -me } else { me };
            let n: int = if spec_bits(frame, 57, 1) == 1 { -mn } else { mn };
            &&& (vew == 0 || vns == 0) ==> spec_ground_velocity(frame, subtype) is None
            &&& (vew != 0 && vns != 0) ==> spec_ground_velocity(frame, subtype) == Some(
                (e as i32, n as i32),
            )
        }),
        ({
            let vr = spec_bits(frame, 70, 9) as int;
            &&& vr == 0 ==> spec_vertical_rate(frame, subtype) is None
            &&& vr != 0 ==> spec_vertical_rate(frame, subtype) == Some(
                (if spec_bits(frame, 69, 1) == 1 { -64 * (vr - 1) } else { 64 * (vr - 1) }) as i32,
            )
        }),
{
}

/// The identification character set: codes 1..26 are the letters `A`..`Z`,
/// 32 is a space, 48..57 the digits `0`..`9`, and every other code reads `#`.
pub proof fn lemma_callsign_charset(c: u32)
    ensures
        1 <= c <= 26 ==> callsign_char(c) as u32 == c + 64,
        48 <= c <= 57 ==> callsign_char(c) as u32 == c,
        c == 32 ==> callsign_char(c) == ' ',
        !(1 <= c <= 26 || 48 <= c <= 57 || c == 32) ==> callsign_char(c) == '#',
{
}

/// The raw identification is eight 6-bit characters read from frame bit 41
/// on (the message's bits 9..56), the `i`-th from bit `41 + 6 i`.
pub proof fn lemma_callsign_layout(frame: Seq<u8>, i: int)
    requires
        0 <= i < 8,
    ensures
        raw_callsign(frame).len() == 8,
        raw_callsign(frame)[i] == callsign_char(spec_bits(frame, 41 + 6 * i, 6)),
{
}

fn decode_altitude(ac12: u32) -> (a: Option<i32>)
    ensures
        a == spec_altitude(ac12),
{
    if ac12 == 0 {
        return None;
    }
    let q = (ac12 >> 4u32) & 1;
    if q == 1 {
        let upper = (ac12 >> 5u32) & 0x7F;
        let lower = ac12 & 0x0F;
        proof {
            assert((ac12 >> 5u32) & 0x7F <= 0x7F && ac12 & 0x0F <= 0x0F) by (bit_vector);
            assert((upper << 4u32) | lower == upper * 16 + lower) by (bit_vector)
                requires
                    upper <= 0x7F,
                    lower <= 0x0F,
            ;
        }
        let n = ((upper << 4u32) | lower) as i32;
        Some(n * 25 - 1000)
    } else {
        None
    }
}


/// The ADS-B message-element bodies this decoder distinguishes.
#[derive(Debug, Clone, PartialEq)]
pub enum MeBody {
    /// TC 1..4: identification + emitter category (e.g. "A3").
    Identification { callsign: String, category: String },
    /// TC 9..18 (barometric) / 20..22 (GNSS): raw CPR position.
    AirbornePosition { altitude_ft: Option<i32>, cpr_odd: bool, lat_cpr: u32, lon_cpr: u32 },
    /// TC 19: ground velocity as signed (east, north) components in knots,
    /// and the vertical rate. Ground speed and track follow from the two
    /// components (`sqrt(e² + n²)`, `atan2(e, n)`).
    Velocity { ground_velocity_kt: Option<(i32, i32)>, vertical_rate_fpm: Option<i32> },
    /// A DF17/18 message with a type code that is not decoded.
    Other { type_code: u8 },
}

/// A CRC-verified DF17/DF18 extended squitter.
#[derive(Debug, Clone, PartialEq)]
pub struct AdsbMessage {
    pub icao: u32,
    pub type_code: u8,
    pub body: MeBody,
}

/// A parsed Mode S frame.
#[derive(Debug, Clone, PartialEq)]
pub enum ModeS {
    /// DF17 / DF18 extended squitter (CRC verified).
    Adsb(AdsbMessage),
    /// A CRC-valid Mode S frame of another downlink format (kept for the feed).
    Other { df: u8, icao: Option<u32> },
}

/// A velocity component: `raw - 1` units of `mult` knots, negative when the
/// direction bit is set.
pub open spec fn velocity_component(dir: u32, raw: u32, subtype: u8) -> int {
    let m: int = if subtype == 2 { (raw - 1) * 4 } else { raw - 1 };
    if dir == 1 { -m } else { m }
}

/// Ground velocity (east, north) of a TC 19 subtype 1/2 message; `None` when
/// either component reports "not available" (raw 0).
pub open spec fn spec_ground_velocity(frame: Seq<u8>, subtype: u8) -> Option<(i32, i32)> {
    let vew = spec_bits(frame, 47, 10);
    let vns = spec_bits(frame, 58, 10);
    if (subtype != 1 && subtype != 2) || vew == 0 || vns == 0 {
        None
    } else {
        Some(
            (
                velocity_component(spec_bits(frame, 46, 1), vew, subtype) as i32,
                velocity_component(spec_bits(frame, 57, 1), vns, subtype) as i32,
            ),
        )
    }
}

/// Vertical rate in ft/min (64 ft/min units, sign bit 69); `None` when the
/// raw field is 0 or the subtype is an airspeed one.
pub open spec fn spec_vertical_rate(frame: Seq<u8>, subtype: u8) -> Option<i32> {
    let raw = spec_bits(frame, 70, 9);
    if (subtype != 1 && subtype != 2) || raw == 0 {
        None
    } else {
        let m: int = (raw - 1) * 64;
        Some((if spec_bits(frame, 69, 1) == 1 { -m } else { m }) as i32)
    }
}

proof fn lemma_bits_bound(data: Seq<u8>, start: int, n: nat)
    requires
        n <= 31,
    ensures
        spec_bits(data, start, n) < (1u32 << (n as u32)),
    decreases n,
{
    if n == 0 {
        assert(1u32 << 0u32 == 1u32) by (bit_vector);
    } else {
        lemma_bits_bound(data, start, (n - 1) as nat);
        let p = spec_bits(data, start, (n - 1) as nat);
        let b = spec_bit(data, start - 1 + n - 1);
        let k = (n - 1) as u32;
        assert(b <= 1) by {
            if 0 <= (start - 1 + n - 1) / 8 < data.len() {
                let x = data[(start - 1 + n - 1) / 8];
                let sh = (7 - (start - 1 + n - 1) % 8) as u8;
                assert((x >> sh) & 1u8 <= 1u8) by (bit_vector);
            }
        }
        assert((p << 1u32) | b < (1u32 << (k + 1))) by (bit_vector)
            requires
                p < (1u32 << k),
                b <= 1,
                k < 31,
        ;
    }
}

fn decode_velocity(frame: &[u8], subtype: u8) -> (body: MeBody)
    ensures
        body == (MeBody::Velocity {
            ground_velocity_kt: spec_ground_velocity(frame@, subtype),
            vertical_rate_fpm: spec_vertical_rate(frame@, subtype),
        }),
{
    if subtype == 1 || subtype == 2 {
        let dew = bits(frame, 46, 1);
        let vew = bits(frame, 47, 10);
        let dns = bits(frame, 57, 1);
        let vns = bits(frame, 58, 10);
        proof {
            lemma_bits_bound(frame@, 47, 10);
            lemma_bits_bound(frame@, 58, 10);
            lemma_bits_bound(frame@, 70, 9);
            assert(1u32 << 10u32 == 1024u32 && 1u32 << 9u32 == 512u32) by (bit_vector);
        }
        let gv = if vew == 0 || vns == 0 {
            None
        } else {
            let mx: i32 = if subtype == 2 { (vew as i32 - 1) * 4 } else { vew as i32 - 1 };
            let my: i32 = if subtype == 2 { (vns as i32 - 1) * 4 } else { vns as i32 - 1 };
            let vx: i32 = if dew == 1 { -mx } else { mx };
            let vy: i32 = if dns == 1 { -my } else { my };
            Some((vx, vy))
        };
        let vr_sign = bits(frame, 69, 1);
        let vr_raw = bits(frame, 70, 9);
        let vr = if vr_raw == 0 {
            None
        } else {
            let m: i32 = (vr_raw as i32 - 1) * 64;
            Some(if vr_sign == 1 { -m } else { m })
        };
        MeBody::Velocity { ground_velocity_kt: gv, vertical_rate_fpm: vr }
    } else {
        MeBody::Velocity { ground_velocity_kt: None, vertical_rate_fpm: None }
    }
}

/// Type code of the ME field (frame bits 33..37).
pub open spec fn spec_type_code(frame: Seq<u8>) -> u8 {
    spec_bits(frame, 33, 5) as u8
}

/// `body` is the decode of the ME field of `frame` for type code `tc`.
pub open spec fn me_body_decodes(frame: Seq<u8>, tc: u8, body: MeBody) -> bool {
    if 1 <= tc <= 4 {
        match body {
            MeBody::Identification { callsign, category } => callsign@ == spec_callsign(frame)
                && category@ == spec_category(tc, spec_bits(frame, 38, 3) as u8),
            _ => false,
        }
    } else if (9 <= tc <= 18) || (20 <= tc <= 22) {
        body == MeBody::AirbornePosition {
            altitude_ft: if 9 <= tc <= 18 {
                spec_altitude(spec_bits(frame, 41, 12))
            } else {
                None
            },
            cpr_odd: spec_bits(frame, 54, 1) == 1,
            lat_cpr: spec_bits(frame, 55, 17),
            lon_cpr: spec_bits(frame, 72, 17),
        }
    } else if tc == 19 {
        let st = spec_bits(frame, 38, 3) as u8;
        body == MeBody::Velocity {
            ground_velocity_kt: spec_ground_velocity(frame, st),
            vertical_rate_fpm: spec_vertical_rate(frame, st),
        }
    } else {
        body == MeBody::Other { type_code: tc }
    }
}

/// `m` is the extended-squitter decode of `frame` with address `icao`.
pub open spec fn adsb_decodes(frame: Seq<u8>, icao: u32, m: AdsbMessage) -> bool {
    &&& m.icao == icao
    &&& m.type_code == spec_type_code(frame)
    &&& me_body_decodes(frame, m.type_code, m.body)
}

fn decode_me(frame: &[u8], icao: u32) -> (m: AdsbMessage)
    ensures
        adsb_decodes(frame@, icao, m),
{
    let tc = bits(frame, 33, 5) as u8;
    let body = if 1 <= tc && tc <= 4 {
        let ca = bits(frame, 38, 3) as u8;
        MeBody::Identification { callsign: decode_callsign(frame), category: decode_category(tc, ca) }
    } else if (9 <= tc && tc <= 18) || (20 <= tc && tc <= 22) {
        let ac12 = bits(frame, 41, 12);
        MeBody::AirbornePosition {
            altitude_ft: if 9 <= tc && tc <= 18 {
                decode_altitude(ac12)
            } else {
                None
            },
            cpr_odd: bits(frame, 54, 1) == 1,
            lat_cpr: bits(frame, 55, 17),
            lon_cpr: bits(frame, 72, 17),
        }
    } else if tc == 19 {
        decode_velocity(frame, bits(frame, 38, 3) as u8)
    } else {
        MeBody::Other { type_code: tc }
    };
    AdsbMessage { icao, type_code: tc, body }
}

/// Downlink format: the top five bits of the first byte.
pub open spec fn spec_df(frame: Seq<u8>) -> u8 {
    frame[0] >> 3u8
}

/// The frame a DF17/DF18 parse decodes: the input itself when its CRC is 0,
/// otherwise (error correction on) the input with the first matching bit
/// flipped back.
pub open spec fn corrected(frame: Seq<u8>, f: Seq<u8>) -> bool {
    ||| spec_crc(frame) == 0 && f == frame
    ||| spec_crc(frame) != 0 && exists|i: int|
        first_syndrome_match(spec_crc(frame), i) && f == flip_bit(frame, i)
}

/// Whether a 14-byte extended squitter passes the parity check, with or
/// without single-bit correction.
pub open spec fn long_frame_ok(frame: Seq<u8>, fix_errors: bool) -> bool {
    spec_crc(frame) == 0 || (fix_errors && exists|i: int|
        0 <= i < 112 && syndrome(i) == spec_crc(frame))
}

/// Which frames a parse accepts: a DF17/18 frame of 14 bytes whose parity
/// checks (optionally after one corrected bit), or a DF11 frame of 7 bytes
/// whose parity is exactly 0.
pub open spec fn parse_accepts(frame: Seq<u8>, fix_errors: bool) -> bool {
    frame.len() > 0 && (((spec_df(frame) == 17 || spec_df(frame) == 18) && frame.len() == 14
        && long_frame_ok(frame, fix_errors)) || (spec_df(frame) == 11 && frame.len() == 7
        && spec_crc(frame) == 0))
}

impl ModeS {
    /// Parse a raw frame (7 or 14 bytes). Returns `None` unless the CRC checks
    /// out (after an optional single-bit correction on long frames).
    pub fn parse(frame: &[u8], fix_errors: bool) -> (r: Option<ModeS>)
        ensures
            r is Some <==> parse_accepts(frame@, fix_errors),
            r matches Some(ModeS::Adsb(m)) ==> exists|f: Seq<u8>|
                corrected(frame@, f) && adsb_decodes(f, spec_bits(f, 9, 24), m),
            r matches Some(ModeS::Other { df, icao }) ==> df == 11 && icao == Some(
                spec_bits(frame@, 9, 24),
            ),
            r matches Some(ModeS::Adsb(_)) ==> spec_df(frame@) == 17 || spec_df(frame@) == 18,
            r matches Some(ModeS::Other { .. }) ==> spec_df(frame@) == 11 && frame@.len() == 7,
            parse_accepts(frame@, fix_errors) && (spec_df(frame@) == 17 || spec_df(frame@) == 18) ==> r matches Some(ModeS::Adsb(_)),
    {
        if frame.len() == 0 {
            return None;
        }
        let df = frame[0] >> 3u8;
        if (df == 17 || df == 18) && frame.len() == 14 {
            let mut f = [0u8; 14];
            let mut i: usize = 0;
            while i < 14
                invariant
                    i <= 14,
                    frame@.len() == 14,
                    forall|j: int| 0 <= j < i ==> f@[j] == frame@[j],
                decreases 14 - i,
            {
                f[i] = frame[i];
                i = i + 1;
            }
            proof {
                assert(f@ =~= frame@);
            }
            let ok = if fix_errors {
                fix_single_bit(&mut f)
            } else {
                crc(f.as_slice()) == 0
            };
            if !ok {
                return None;
            }
            proof {
                assert(corrected(frame@, f@));
            }
            let icao = bits(f.as_slice(), 9, 24);
            let m = decode_me(f.as_slice(), icao);
            proof {
                assert(corrected(frame@, f@) && adsb_decodes(f@, spec_bits(f@, 9, 24), m));
            }
            Some(ModeS::Adsb(m))
        } else if df == 11 && frame.len() == 7 {
            if crc(frame) != 0 {
                return None;
            }
            Some(ModeS::Other { df, icao: Some(bits(frame, 9, 24)) })
        } else {
            None
        }
    }
}

} // verus!
