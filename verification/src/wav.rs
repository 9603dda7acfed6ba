//! The 44-byte RIFF/WAVE header of the 16-bit PCM files the server writes:
//! two-channel I/Q recordings and mono audio dumps.

use vstd::prelude::*;

verus! {

/// Length of the header; the samples follow it.
pub const HEADER_LEN: u32 = 44;

/// `x` as two little-endian bytes.
pub open spec fn le16(x: u16) -> Seq<u8> {
    seq![(x & 0xff) as u8, ((x >> 8u16) & 0xff) as u8]
}

/// `x` as four little-endian bytes.
pub open spec fn le32(x: u32) -> Seq<u8> {
    seq![
        (x & 0xff) as u8,
        ((x >> 8u32) & 0xff) as u8,
        ((x >> 16u32) & 0xff) as u8,
        ((x >> 24u32) & 0xff) as u8,
    ]
}

/// A 16-bit PCM header: `RIFF`, the RIFF size, `WAVE`, the `fmt ` chunk
/// (size 16, format 1, channels, rate, byte rate, block alignment, 16 bits
/// per sample), then `data` and the data size.
pub open spec fn pcm16_header(channels: u16, sample_rate: u32, riff_size: u32, data_size: u32) -> Seq<u8> {
    seq![82u8, 73, 70, 70] + le32(riff_size) + seq![87u8, 65, 86, 69] + seq![102u8, 109, 116, 32]
        + le32(16) + le16(1) + le16(channels) + le32(sample_rate) + le32(
        (sample_rate * channels * 2) as u32,
    ) + le16((channels * 2) as u16) + le16(16) + seq![100u8, 97, 116, 97] + le32(data_size)
}

fn push_le16(out: &mut Vec<u8>, x: u16)
    ensures
        final(out)@ == old(out)@ + le16(x),
{
    out.push((x & 0xff) as u8);
    out.push(((x >> 8u16) & 0xff) as u8);
    proof {
        assert(final(out)@ =~= old(out)@ + le16(x));
    }
}

fn push_le32(out: &mut Vec<u8>, x: u32)
    ensures
        final(out)@ == old(out)@ + le32(x),
{
    out.push((x & 0xff) as u8);
    out.push(((x >> 8u32) & 0xff) as u8);
    out.push(((x >> 16u32) & 0xff) as u8);
    out.push(((x >> 24u32) & 0xff) as u8);
    proof {
        assert(final(out)@ =~= old(out)@ + le32(x));
    }
}

fn push_tag(out: &mut Vec<u8>, a: u8, b: u8, c: u8, d: u8)
    ensures
        final(out)@ == old(out)@ + seq![a, b, c, d],
{
    out.push(a);
    out.push(b);
    out.push(c);
    out.push(d);
    proof {
        assert(final(out)@ =~= old(out)@ + seq![a, b, c, d]);
    }
}

fn push_header(out: &mut Vec<u8>, channels: u16, sample_rate: u32, riff_size: u32, data_size: u32)
    requires
        sample_rate * channels * 2 <= u32::MAX,
        channels * 2 <= u16::MAX,
    ensures
        final(out)@ == old(out)@ + pcm16_header(channels, sample_rate, riff_size, data_size),
{
    let block_align: u16 = channels * 2;
    let byte_rate: u32 = sample_rate * (channels as u32) * 2;
    push_tag(out, 82, 73, 70, 70);
    push_le32(out, riff_size);
    push_tag(out, 87, 65, 86, 69);
    push_tag(out, 102, 109, 116, 32);
    push_le32(out, 16);
    push_le16(out, 1);
    push_le16(out, channels);
    push_le32(out, sample_rate);
    push_le32(out, byte_rate);
    push_le16(out, block_align);
    push_le16(out, 16);
    push_tag(out, 100, 97, 116, 97);
    push_le32(out, data_size);
    proof {
        assert(final(out)@ =~= old(out)@ + pcm16_header(channels, sample_rate, riff_size, data_size));
    }
}

/// Appends the header of a two-channel (I, Q) 16-bit recording holding
/// `data_bytes` bytes of samples: the RIFF size is 36 + `data_bytes`.
pub fn write_header(out: &mut Vec<u8>, sample_rate: u32, data_bytes: u32)
    requires
        sample_rate * 4 <= u32::MAX,
        data_bytes + 36 <= u32::MAX,
    ensures
        final(out)@ == old(out)@ + pcm16_header(2, sample_rate, (data_bytes + 36) as u32, data_bytes),
{
    push_header(out, 2, sample_rate, HEADER_LEN - 8 + data_bytes, data_bytes);
}

/// The header a mono or multi-channel audio dump starts with; both sizes
/// are left 0 until the file is finished.
pub fn dump_header(sample_rate: u32, channels: u16) -> (h: Vec<u8>)
    requires
        sample_rate * channels * 2 <= u32::MAX,
        channels * 2 <= u16::MAX,
    ensures
        h@ == pcm16_header(channels, sample_rate, 0, 0),
{
    let mut h: Vec<u8> = Vec::new();
    push_header(&mut h, channels, sample_rate, 0, 0);
    proof {
        assert(h@ =~= pcm16_header(channels, sample_rate, 0, 0));
    }
    h
}

} // verus!
