//! Beast binary output, the interchange format of 1090 MHz feeders. Each
//! message is `0x1a <type> <6-byte 12 MHz timestamp> <signal> <frame>`, with
//! every `0x1a` after the header doubled so that a reader can find message
//! starts.

use vstd::prelude::*;
use bytes::{BufMut, Bytes, BytesMut};

verus! {

#[verifier::external_type_specification]
#[verifier::external_body]
pub struct ExBytes(bytes::Bytes);

#[verifier::external_type_specification]
#[verifier::external_body]
pub struct ExBytesMut(bytes::BytesMut);

/// The bytes a frozen buffer holds.
pub uninterp spec fn bytes_content(b: Bytes) -> Seq<u8>;

/// The bytes a growable buffer holds (not its spare capacity).
pub uninterp spec fn buf_content(b: BytesMut) -> Seq<u8>;

/// `BytesMut::with_capacity`: an empty buffer (the capacity is only a hint
/// and is not described; `Vec::with_capacity` refuses more than
/// `isize::MAX` bytes).
#[verifier::external_body]
fn buf_with_capacity(capacity: usize) -> (b: BytesMut)
    requires
        capacity <= isize::MAX,
    ensures
        buf_content(b) == Seq::<u8>::empty(),
{
    BytesMut::with_capacity(capacity)
}

/// `BufMut::put_u8` on a `BytesMut`: appends one byte (it panics only when
/// the length would pass `isize::MAX`).
#[verifier::external_body]
fn buf_put_u8(b: &mut BytesMut, v: u8)
    requires
        buf_content(*old(b)).len() < isize::MAX,
    ensures
        buf_content(*final(b)) == buf_content(*old(b)).push(v),
{
    b.put_u8(v)
}

/// `BytesMut::freeze`: the same bytes as an immutable `Bytes`.
#[verifier::external_body]
fn buf_freeze(b: BytesMut) -> (r: Bytes)
    ensures
        bytes_content(r) == buf_content(b),
{
    b.freeze()
}

/// `Bytes::new`: no bytes.
#[verifier::external_body]
fn bytes_empty() -> (r: Bytes)
    ensures
        bytes_content(r) == Seq::<u8>::empty(),
{
    Bytes::new()
}

/// `Bytes::from(Vec<u8>)`: the same bytes, without copying.
#[verifier::external_body]
pub(crate) fn bytes_from_vec(v: Vec<u8>) -> (r: Bytes)
    ensures
        bytes_content(r) == v@,
{
    Bytes::from(v)
}

/// The escape delimiter, also the first byte of every message.
pub const ESCAPE: u8 = 0x1a;

/// One byte as it goes on the wire: the delimiter is doubled.
pub open spec fn escape_byte(b: u8) -> Seq<u8> {
    if b == ESCAPE {
        seq![b, b]
    } else {
        seq![b]
    }
}

/// Every byte of `s` escaped, in order.
pub open spec fn escape(s: Seq<u8>) -> Seq<u8>
    decreases s.len(),
{
    if s.len() == 0 {
        Seq::empty()
    } else {
        escape_byte(s[0]) + escape(s.drop_first())
    }
}

/// What a reader does with an escaped run: a doubled delimiter becomes one.
pub open spec fn unescape(s: Seq<u8>) -> Seq<u8>
    decreases s.len(),
{
    if s.len() == 0 {
        Seq::empty()
    } else if s.len() >= 2 && s[0] == ESCAPE && s[1] == ESCAPE {
        seq![ESCAPE] + unescape(s.subrange(2, s.len() as int))
    } else {
        seq![s[0]] + unescape(s.drop_first())
    }
}

/// Escaping distributes over concatenation.
pub proof fn lemma_escape_append(a: Seq<u8>, b: Seq<u8>)
    ensures
        escape(a + b) == escape(a) + escape(b),
    decreases a.len(),
{
    if a.len() == 0 {
        assert(a + b =~= b);
    } else {
        assert((a + b).drop_first() =~= a.drop_first() + b);
        lemma_escape_append(a.drop_first(), b);
        assert(escape(a + b) =~= escape_byte(a[0]) + (escape(a.drop_first()) + escape(b)));
    }
}

/// A reader gets back exactly the bytes that were escaped.
pub proof fn lemma_unescape_escape(s: Seq<u8>)
    ensures
        unescape(escape(s)) == s,
    decreases s.len(),
{
    if s.len() > 0 {
        let rest = escape(s.drop_first());
        lemma_unescape_escape(s.drop_first());
        let e = escape(s);
        if s[0] == ESCAPE {
            assert(e =~= seq![ESCAPE, ESCAPE] + rest);
            assert(e.subrange(2, e.len() as int) =~= rest);
        } else {
            assert(e =~= seq![s[0]] + rest);
            assert(e.drop_first() =~= rest);
        }
        assert(s =~= seq![s[0]] + s.drop_first());
    }
}

/// The message type for a frame length: Mode A/C, short and long Mode S.
pub open spec fn frame_type(len: nat) -> Option<u8> {
    if len == 2 {
        Some(0x31u8)
    } else if len == 7 {
        Some(0x32u8)
    } else if len == 14 {
        Some(0x33u8)
    } else {
        None
    }
}

/// The low 48 bits of the 12 MHz clock, most significant byte first.
pub open spec fn timestamp_bytes(clock: u64) -> Seq<u8> {
    Seq::new(6, |i: int| ((clock >> ((40 - 8 * i) as u64)) & 0xff) as u8)
}

/// A complete Beast message for a frame whose length has a type.
pub open spec fn beast_message(frame: Seq<u8>, level: u8, clock: u64, ty: u8) -> Seq<u8> {
    seq![ESCAPE, ty] + escape(timestamp_bytes(clock)) + escape(seq![level]) + escape(frame)
}

/// Appends the escaped `bytes` to `out`.
fn push_escaped(out: &mut BytesMut, bytes: &[u8])
    requires
        buf_content(*old(out)).len() + 2 * bytes@.len() < isize::MAX,
    ensures
        buf_content(*final(out)) == buf_content(*old(out)) + escape(bytes@),
{
    let mut i: usize = 0;
    while i < bytes.len()
        invariant
            i <= bytes@.len(),
            buf_content(*out) == buf_content(*old(out)) + escape(bytes@.take(i as int)),
            buf_content(*old(out)).len() + 2 * bytes@.len() < isize::MAX,
        decreases bytes.len() - i,
    {
        let b = bytes[i];
        proof {
            lemma_escape_append(bytes@.take(i as int), seq![b]);
            assert(bytes@.take(i + 1) =~= bytes@.take(i as int) + seq![b]);
            assert(escape(seq![b]) =~= escape_byte(b)) by {
                assert(seq![b].drop_first() =~= Seq::<u8>::empty());
                assert(escape(Seq::<u8>::empty()) =~= Seq::<u8>::empty());
                assert(seq![b][0] == b);
            }
            lemma_escape_len(bytes@.take(i as int));
        }
        buf_put_u8(out, b);
        if b == ESCAPE {
            buf_put_u8(out, ESCAPE);
        }
        proof {
            assert(buf_content(*out) =~= buf_content(*old(out)) + escape(bytes@.take(i + 1)));
        }
        i = i + 1;
    }
    proof {
        assert(bytes@.take(i as int) =~= bytes@);
    }
}

/// An escaped run is at most twice as long.
proof fn lemma_escape_len(s: Seq<u8>)
    ensures
        escape(s).len() <= 2 * s.len(),
    decreases s.len(),
{
    if s.len() > 0 {
        lemma_escape_len(s.drop_first());
    }
}

/// Encodes one Mode S frame (2, 7 or 14 bytes) as a Beast message with the
/// given signal level and 12 MHz clock; any other length gives no bytes.
pub fn encode(frame: &[u8], level: u8, clock_12mhz: u64) -> (r: Bytes)
    ensures
        bytes_content(r) == (match frame_type(frame@.len()) {
            Some(ty) => beast_message(frame@, level, clock_12mhz, ty),
            None => Seq::<u8>::empty(),
        }),
{
    let type_byte: u8 = if frame.len() == 2 {
        0x31
    } else if frame.len() == 7 {
        0x32
    } else if frame.len() == 14 {
        0x33
    } else {
        return bytes_empty();
    };
    let mut out = buf_with_capacity(2 + 14 + frame.len() * 2 + 4);
    buf_put_u8(&mut out, ESCAPE);
    buf_put_u8(&mut out, type_byte);
    let ts: [u8; 6] = [
        ((clock_12mhz >> 40u64) & 0xff) as u8,
        ((clock_12mhz >> 32u64) & 0xff) as u8,
        ((clock_12mhz >> 24u64) & 0xff) as u8,
        ((clock_12mhz >> 16u64) & 0xff) as u8,
        ((clock_12mhz >> 8u64) & 0xff) as u8,
        (clock_12mhz & 0xff) as u8,
    ];
    proof {
        assert(ts@ =~= timestamp_bytes(clock_12mhz)) by {
            assert(clock_12mhz >> 0u64 == clock_12mhz) by (bit_vector);
        }
    }
    push_escaped(&mut out, &ts);
    proof {
        lemma_escape_len(ts@);
    }
    let lv: [u8; 1] = [level];
    proof {
        assert(lv@ =~= seq![level]);
    }
    push_escaped(&mut out, &lv);
    proof {
        lemma_escape_len(lv@);
    }
    push_escaped(&mut out, frame);
    proof {
        assert(buf_content(out) =~= beast_message(frame@, level, clock_12mhz, type_byte));
    }
    buf_freeze(out)
}

} // verus!
