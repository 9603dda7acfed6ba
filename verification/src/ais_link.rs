//! AIS link layer: the NRZI/HDLC deframer that hunts for an opening flag,
//! collects de-stuffed data bits and hands out a frame at the closing flag,
//! and the octet reassembly + FCS check of a received frame.

use vstd::prelude::*;
use crate::ais::fcs_ok;
use crate::hdlc::{fcs_ok_spec, lsb_octets, pack_lsb};

verus! {

/// Everything the AIS deframer remembers between line levels.
pub struct AisHdlcView {
    pub prev_level: bool,
    pub in_frame: bool,
    pub hunt: u8,
    pub ones: u8,
    pub bits: Seq<bool>,
}

/// One line level through the AIS deframer. While hunting, only an opening
/// flag in the 8-bit window matters; in a frame a 1 is collected (seven in
/// a row abort), a 0 after five 1s is a stuffed bit and dropped, a 0 after
/// six 1s ends the closing flag and hands out the frame without the flag's
/// first 7 bits, and any other 0 is collected.
pub open spec fn ais_hdlc_step(s: AisHdlcView, level: bool) -> (AisHdlcView, Option<Seq<bool>>) {
    let bit = level == s.prev_level;
    let h = ((s.hunt << 1u8) | (if bit { 1u8 } else { 0u8 })) as u8;
    if !s.in_frame {
        if h == 0x7E {
            (AisHdlcView { prev_level: level, in_frame: true, hunt: h, ones: 0, bits: Seq::empty() }, None)
        } else {
            (AisHdlcView { prev_level: level, hunt: h, ..s }, None)
        }
    } else if bit {
        (
            AisHdlcView {
                prev_level: level,
                hunt: h,
                in_frame: s.ones + 1 < 7,
                ones: (s.ones + 1) as u8,
                bits: s.bits.push(true),
            },
            None,
        )
    } else if s.ones == 5 {
        (AisHdlcView { prev_level: level, hunt: h, ones: 0, ..s }, None)
    } else if s.ones == 6 {
        let n: int = if s.bits.len() >= 7 { s.bits.len() - 7 } else { 0 };
        (
            AisHdlcView { prev_level: level, hunt: h, in_frame: false, ones: 6, bits: Seq::empty() },
            Some(s.bits.take(n)),
        )
    } else {
        (
            AisHdlcView { prev_level: level, hunt: h, ones: 0, bits: s.bits.push(false), ..s },
            None,
        )
    }
}

/// NRZI decode + HDLC deframe / de-stuff for AIS.
pub struct Hdlc {
    prev_level: bool,
    in_frame: bool,
    hunt: u8,
    ones: u8,
    bits: Vec<bool>,
}

impl View for Hdlc {
    type V = AisHdlcView;

    closed spec fn view(&self) -> AisHdlcView {
        AisHdlcView {
            prev_level: self.prev_level,
            in_frame: self.in_frame,
            hunt: self.hunt,
            ones: self.ones,
            bits: self.bits@,
        }
    }
}

impl Hdlc {
    /// The run-of-ones counter stays small: an open frame has seen fewer
    /// than seven 1s in a row.
    pub closed spec fn wf(&self) -> bool {
        self.ones <= 7 && (self.in_frame ==> self.ones < 7)
    }

    /// A deframer hunting for its first flag, line low.
    pub fn new() -> (h: Self)
        ensures
            h.wf(),
            h@ == (AisHdlcView {
                prev_level: false,
                in_frame: false,
                hunt: 0,
                ones: 0,
                bits: Seq::empty(),
            }),
    {
        Self { prev_level: false, in_frame: false, hunt: 0, ones: 0, bits: Vec::new() }
    }

    /// Feed one line level (`true` = the symbol sample was non-negative);
    /// returns the frame's data bits (payload + FCS, wire order) when a good
    /// end flag is seen.
    pub fn push(&mut self, level: bool) -> (r: Option<Vec<bool>>)
        requires
            old(self).wf(),
        ensures
            final(self).wf(),
            final(self)@ == ais_hdlc_step(old(self)@, level).0,
            r matches Some(v) ==> ais_hdlc_step(old(self)@, level).1 == Some(v@),
            r is None ==> ais_hdlc_step(old(self)@, level).1 is None,
    {
        let bit = level == self.prev_level;
        self.prev_level = level;
        self.hunt = (self.hunt << 1u8) | (if bit { 1u8 } else { 0u8 });
        if !self.in_frame {
            if self.hunt == 0x7E {
                self.in_frame = true;
                self.ones = 0;
                self.bits = Vec::new();
            }
            return None;
        }
        if bit {
            self.ones = self.ones + 1;
            self.bits.push(true);
            if self.ones >= 7 {
                self.in_frame = false;
                return None;
            }
            return None;
        }
        if self.ones == 5 {
            self.ones = 0;
            return None;
        }
        if self.ones == 6 {
            let n = self.bits.len().saturating_sub(7);
            self.bits.truncate(n);
            self.in_frame = false;
            let mut frame: Vec<bool> = Vec::new();
            std::mem::swap(&mut frame, &mut self.bits);
            return Some(frame);
        }
        self.ones = 0;
        self.bits.push(false);
        None
    }
}

/// What `validate` accepts: 5 to 150 whole octets whose FCS checks.
pub open spec fn ais_frame_ok(frame: Seq<bool>) -> bool {
    frame.len() >= 40 && frame.len() % 8 == 0 && frame.len() <= 1200 && fcs_ok_spec(
        lsb_octets(frame),
    )
}

/// Wire-order data bits -> octets (each byte reconstructed LSB-first) -> FCS
/// check -> payload octets without the trailing FCS, and the payload's bit
/// length.
pub fn validate(frame: &[bool]) -> (r: Option<(Vec<u8>, usize)>)
    ensures
        r is Some <==> ais_frame_ok(frame@),
        r matches Some((p, n)) ==> p@ == lsb_octets(frame@).drop_last().drop_last() && n
            == frame@.len() - 16,
{
    if frame.len() < 40 || frame.len() % 8 != 0 || frame.len() > 1200 {
        return None;
    }
    let mut octets = pack_lsb(frame);
    if !fcs_ok(octets.as_slice()) {
        return None;
    }
    let bit_len = frame.len() - 16;
    let n = octets.len() - 2;
    octets.truncate(n);
    proof {
        assert(octets@ =~= lsb_octets(frame@).drop_last().drop_last());
    }
    Some((octets, bit_len))
}

} // verus!
