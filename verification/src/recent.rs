//! The bounded "recent traffic" rings behind the message endpoints (raw
//! Mode S frames as hex, AIVDM sentences, TNC2 lines) and the hex rendering
//! of a raw frame.

use vstd::prelude::*;
use std::collections::VecDeque;
use crate::text::{hex_digit_lower, hex_lower, string_from_chars};

verus! {

/// How many recent raw Mode S frames (hex) are kept.
pub const HEX_RING: usize = 512;

/// How many recent AIVDM sentences are kept.
pub const SENTENCE_RING: usize = 512;

/// How many recent TNC2 packet lines are kept.
pub const PACKET_RING: usize = 512;

/// The ring after one push: when it already holds `cap` or more entries the
/// oldest one leaves first.
pub open spec fn pushed_recent<T>(ring: Seq<T>, item: T, cap: nat) -> Seq<T> {
    (if ring.len() >= cap && ring.len() > 0 {
        ring.drop_first()
    } else {
        ring
    }).push(item)
}

/// Appends `item`, dropping the oldest entry when the ring is full.
pub fn push_recent<T>(ring: &mut VecDeque<T>, item: T, cap: usize)
    ensures
        final(ring)@ == pushed_recent(old(ring)@, item, cap as nat),
{
    if ring.len() >= cap {
        let _ = ring.pop_front();
    }
    ring.push_back(item);
    proof {
        if old(ring)@.len() >= cap && old(ring)@.len() > 0 {
            assert(old(ring)@.subrange(1, old(ring)@.len() as int) =~= old(ring)@.drop_first());
        }
    }
}

/// Two lower-case hex digits for one byte, high nibble first.
pub open spec fn hex_pair(b: u8) -> Seq<char> {
    seq![hex_digit_lower((b >> 4u8) as nat), hex_digit_lower((b & 0xfu8) as nat)]
}

/// Lower-case hex of a byte string, two digits per byte.
pub open spec fn spec_hex(s: Seq<u8>) -> Seq<char>
    decreases s.len(),
{
    if s.len() == 0 {
        Seq::empty()
    } else {
        spec_hex(s.drop_last()) + hex_pair(s.last())
    }
}

/// Lower-case hex rendering of a raw frame.
pub fn to_hex(bytes: &[u8]) -> (s: String)
    ensures
        s@ == spec_hex(bytes@),
        s@.len() == 2 * bytes@.len(),
{
    let mut out: Vec<char> = Vec::new();
    let mut i: usize = 0;
    while i < bytes.len()
        invariant
            i <= bytes@.len(),
            out@ == spec_hex(bytes@.take(i as int)),
            out@.len() == 2 * i,
        decreases bytes.len() - i,
    {
        let b = bytes[i];
        assert(b >> 4u8 < 16 && b & 0xfu8 < 16) by (bit_vector);
        out.push(hex_lower(b >> 4u8));
        out.push(hex_lower(b & 0xfu8));
        proof {
            let t = bytes@.take(i + 1);
            assert(t.drop_last() =~= bytes@.take(i as int));
            assert(out@ =~= spec_hex(t));
        }
        i = i + 1;
    }
    proof {
        assert(bytes@.take(i as int) =~= bytes@);
    }
    string_from_chars(out.as_slice())
}

} // verus!
