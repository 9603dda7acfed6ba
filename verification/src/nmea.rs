//! AIVDM output: re-armor decoded AIS frames into NMEA 0183 `!AIVDM`
//! sentences.

use vstd::prelude::*;
use vstd::string::StringSliceAdditionalSpecFns;
use vstd::utf8::encode_utf8;
use crate::ais::{armor, armor_codes, armor_fill, nmea_checksum, unpack_bits, xor_all};
use crate::text::{hex_digit_upper, hex_upper, spec_decimal, push_decimal, string_from_chars};

verus! {

/// The sentence body between `!` and `*`: `AIVDM,1,1,,<ch>,<payload>,<fill>`.
pub open spec fn aivdm_body(bits: Seq<bool>, channel: char) -> Seq<char> {
    seq!['A', 'I', 'V', 'D', 'M', ',', '1', ',', '1', ',', ',', channel, ',']
        + armor_codes(bits).map_values(|c: u8| c as char) + seq![','] + spec_decimal(
        armor_fill(bits) as nat,
    )
}

/// A complete single-fragment sentence: `!<body>*<checksum hex>\r\n`.
pub open spec fn aivdm_sentence(bits: Seq<bool>, channel: char) -> Seq<char> {
    let cs = xor_all(encode_utf8(aivdm_body(bits, channel)));
    seq!['!'] + aivdm_body(bits, channel) + seq![
        '*',
        hex_digit_upper((cs / 16) as nat),
        hex_digit_upper((cs % 16) as nat),
        '\r',
        '\n',
    ]
}

/// Build one (single-fragment) `!AIVDM` sentence from a big-endian payload.
/// AIS frames up to 3 slots still fit one sentence for our consumers.
pub fn aivdm(payload: &[u8], bit_len: usize, channel: char) -> (s: String)
    requires
        bit_len <= payload@.len() * 8,
        bit_len + 8 <= usize::MAX,
    ensures
        s@ == aivdm_sentence(unpack_bits(payload@, bit_len as nat), channel),
{
    let mut bits: Vec<bool> = Vec::new();
    let mut i: usize = 0;
    while i < bit_len
        invariant
            i <= bit_len <= payload@.len() * 8,
            bits@ == unpack_bits(payload@, bit_len as nat).subrange(0, i as int),
        decreases bit_len - i,
    {
        let sh: u8 = (7 - i % 8) as u8;
        bits.push((payload[i / 8] >> sh) & 1 == 1);
        proof {
            assert(bits@ =~= unpack_bits(payload@, bit_len as nat).subrange(0, i + 1));
        }
        i = i + 1;
    }
    proof {
        assert(bits@ =~= unpack_bits(payload@, bit_len as nat));
    }
    let (armored, fill) = armor(bits.as_slice());
    let mut body: Vec<char> = Vec::new();
    let head = ['A', 'I', 'V', 'D', 'M', ',', '1', ',', '1', ',', ','];
    let mut k: usize = 0;
    while k < head.len()
        invariant
            k <= head@.len(),
            body@ == head@.subrange(0, k as int),
        decreases head.len() - k,
    {
        body.push(head[k]);
        proof {
            assert(body@ =~= head@.subrange(0, k + 1));
        }
        k = k + 1;
    }
    body.push(channel);
    body.push(',');
    let ac = crate::text::chars_of(armored.as_str());
    let ghost before = body@;
    let mut j: usize = 0;
    while j < ac.len()
        invariant
            j <= ac@.len(),
            body@ == before + ac@.subrange(0, j as int),
        decreases ac.len() - j,
    {
        body.push(ac[j]);
        proof {
            assert(body@ =~= before + ac@.subrange(0, j + 1));
        }
        j = j + 1;
    }
    body.push(',');
    push_decimal(&mut body, fill as u64);
    proof {
        assert(ac@.subrange(0, j as int) =~= ac@);
        assert(body@ =~= aivdm_body(bits@, channel));
    }
    let body_str = string_from_chars(body.as_slice());
    let cs = nmea_checksum(body_str.as_str());
    let mut out: Vec<char> = Vec::new();
    out.push('!');
    let mut m: usize = 0;
    while m < body.len()
        invariant
            m <= body@.len(),
            out@ == seq!['!'] + body@.subrange(0, m as int),
        decreases body.len() - m,
    {
        out.push(body[m]);
        proof {
            assert(out@ =~= seq!['!'] + body@.subrange(0, m + 1));
        }
        m = m + 1;
    }
    out.push('*');
    out.push(hex_upper(cs / 16));
    out.push(hex_upper(cs % 16));
    out.push('\r');
    out.push('\n');
    proof {
        assert(body@.subrange(0, m as int) =~= body@);
        assert(out@ =~= aivdm_sentence(bits@, channel));
    }
    string_from_chars(out.as_slice())
}

} // verus!
