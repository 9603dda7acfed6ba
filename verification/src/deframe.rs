//! What the AX.25 deframer makes of a transmitted packet: fed the line
//! levels `frame_levels` produces, it hands out exactly the packet's bits
//! (between empty frames from the flag runs), and `validate` turns those
//! bits back into the packet.

use vstd::prelude::*;
use crate::ais_link::{ais_frame_ok, ais_hdlc_step, AisHdlcView};
use crate::hdlc::{
    aprs_frame_ok, destuff_from, fcs_ok_spec, flag_bits, flags, hdlc_step, lemma_destuff_stuff,
    lemma_fcs_residual, lsb_bits, lsb_byte, lsb_octets, nrzi_from, spec_frame_levels, stuff_from,
    wire_bits, with_fcs, HdlcView, lemma_lsb_byte_bits,
};

verus! {

/// Runs the deframer over `levels` from state `s`: the state it ends in and
/// every frame it hands out, in order.
pub open spec fn run_deframer(s: HdlcView, levels: Seq<bool>) -> (HdlcView, Seq<Seq<bool>>)
    decreases levels.len(),
{
    if levels.len() == 0 {
        (s, Seq::empty())
    } else {
        let (s1, o) = hdlc_step(s, levels[0]);
        let (s2, outs) = run_deframer(s1, levels.drop_first());
        (
            s2,
            match o {
                Some(f) => seq![f] + outs,
                None => outs,
            },
        )
    }
}

/// The state of a new deframer.
pub open spec fn deframer_start() -> HdlcView {
    HdlcView { prev_level: false, window: 0, in_frame: false, ones: 0, bits: Seq::empty() }
}

/// Right after a flag, line at `level`.
pub open spec fn after_flag(level: bool) -> HdlcView {
    HdlcView { prev_level: level, window: 0x7E, in_frame: true, ones: 0, bits: Seq::empty() }
}

/// `n` empty frames.
pub open spec fn empties(n: nat) -> Seq<Seq<bool>> {
    Seq::new(n, |i: int| Seq::<bool>::empty())
}

/// The line level after NRZI-coding `wire` from `level`.
pub open spec fn nrzi_end(wire: Seq<bool>, level: bool) -> bool
    decreases wire.len(),
{
    if wire.len() == 0 {
        level
    } else {
        nrzi_end(wire.drop_first(), if wire[0] { level } else { !level })
    }
}

proof fn lemma_run_concat(s: HdlcView, a: Seq<bool>, b: Seq<bool>)
    ensures
        run_deframer(s, a + b) == (
            run_deframer(run_deframer(s, a).0, b).0,
            run_deframer(s, a).1 + run_deframer(run_deframer(s, a).0, b).1,
        ),
    decreases a.len(),
{
    if a.len() == 0 {
        assert(a + b =~= b);
        assert(run_deframer(s, a).1 + run_deframer(s, b).1 =~= run_deframer(s, b).1);
    } else {
        assert((a + b).drop_first() =~= a.drop_first() + b);
        assert((a + b)[0] == a[0]);
        let (s1, o) = hdlc_step(s, a[0]);
        lemma_run_concat(s1, a.drop_first(), b);
        let x = run_deframer(s1, a.drop_first()).1;
        let y = run_deframer(run_deframer(s1, a.drop_first()).0, b).1;
        match o {
            Some(f) => {
                assert(seq![f] + (x + y) =~= (seq![f] + x) + y);
            },
            None => {},
        }
    }
}

proof fn lemma_nrzi_concat(a: Seq<bool>, b: Seq<bool>, level: bool)
    ensures
        nrzi_from(a + b, level) == nrzi_from(a, level) + nrzi_from(b, nrzi_end(a, level)),
        nrzi_end(a + b, level) == nrzi_end(b, nrzi_end(a, level)),
    decreases a.len(),
{
    if a.len() == 0 {
        assert(a + b =~= b);
        assert(nrzi_from(a, level) + nrzi_from(b, level) =~= nrzi_from(b, level));
    } else {
        let l = if a[0] { level } else { !level };
        assert((a + b).drop_first() =~= a.drop_first() + b);
        assert((a + b)[0] == a[0]);
        lemma_nrzi_concat(a.drop_first(), b, l);
        assert(seq![l] + (nrzi_from(a.drop_first(), l) + nrzi_from(b, nrzi_end(a, level))) =~= (
        seq![l] + nrzi_from(a.drop_first(), l)) + nrzi_from(b, nrzi_end(a, level)));
    }
}

proof fn lemma_flags_concat(a: nat, b: nat)
    ensures
        flags(a + b) == flags(a) + flags(b),
    decreases b,
{
    if b == 0 {
        assert(flags(a) + flags(0) =~= flags(a));
    } else {
        lemma_flags_concat(a, (b - 1) as nat);
        assert(flags((a + b) as nat) == flags((a + b - 1) as nat) + flag_bits());
        assert(flags(a) + flags(b) =~= (flags(a) + flags((b - 1) as nat)) + flag_bits());
    }
}

/// A flag's line levels: seven at the other level, then back.
pub open spec fn flag_levels(level: bool) -> Seq<bool> {
    seq![!level, !level, !level, !level, !level, !level, !level, level]
}

proof fn lemma_flag_levels(level: bool)
    ensures
        nrzi_from(flag_bits(), level) == flag_levels(level),
        nrzi_end(flag_bits(), level) == level,
{
    let f = flag_bits();
    assert(f.skip(8) =~= Seq::<bool>::empty());
    assert(nrzi_from(f.skip(8), level) == Seq::<bool>::empty());
    assert(nrzi_end(f.skip(8), level) == level);
    assert(f.skip(7).drop_first() =~= f.skip(8));
    assert(nrzi_from(f.skip(7), !level) =~= seq![level]);
    assert(nrzi_end(f.skip(7), !level) == level);
    assert(f.skip(6).drop_first() =~= f.skip(7));
    assert(nrzi_from(f.skip(6), !level) =~= seq![!level, level]);
    assert(nrzi_end(f.skip(6), !level) == level);
    assert(f.skip(5).drop_first() =~= f.skip(6));
    assert(nrzi_from(f.skip(5), !level) =~= seq![!level, !level, level]);
    assert(nrzi_end(f.skip(5), !level) == level);
    assert(f.skip(4).drop_first() =~= f.skip(5));
    assert(nrzi_from(f.skip(4), !level) =~= seq![!level, !level, !level, level]);
    assert(nrzi_end(f.skip(4), !level) == level);
    assert(f.skip(3).drop_first() =~= f.skip(4));
    assert(nrzi_from(f.skip(3), !level) =~= seq![!level, !level, !level, !level, level]);
    assert(nrzi_end(f.skip(3), !level) == level);
    assert(f.skip(2).drop_first() =~= f.skip(3));
    assert(nrzi_from(f.skip(2), !level) =~= seq![!level, !level, !level, !level, !level, level]);
    assert(nrzi_end(f.skip(2), !level) == level);
    assert(f.skip(1).drop_first() =~= f.skip(2));
    assert(nrzi_from(f.skip(1), !level) =~= seq![!level, !level, !level, !level, !level, !level, level]);
    assert(nrzi_end(f.skip(1), !level) == level);
    assert(f.drop_first() =~= f.skip(1));
    assert(nrzi_from(f, level) =~= flag_levels(level));
}

/// The flag window after one more decoded bit.
pub open spec fn wstep(w: u8, b: bool) -> u8 {
    ((w << 1u8) | (if b { 1u8 } else { 0u8 })) as u8
}

/// The window facts the proofs below need: the windows a garbled first
/// flag and a clean flag pass through, and how a window whose bit `k` is 0
/// (the 0 before a run of `k` 1s) moves.
proof fn lemma_windows(w: u8, k: u8)
    by (bit_vector)
    ensures
        wstep(0u8, true) == 0x01u8 && wstep(0x01u8, true) == 0x03u8 && wstep(0x03u8, true)
            == 0x07u8 && wstep(0x07u8, true) == 0x0Fu8 && wstep(0x0Fu8, true) == 0x1Fu8 && wstep(
            0x1Fu8,
            true,
        ) == 0x3Fu8 && wstep(0x3Fu8, true) == 0x7Fu8 && wstep(0x7Fu8, false) == 0xFEu8 && wstep(
            0xFEu8,
            false,
        ) == 0xFCu8 && wstep(0xFCu8, true) == 0xF9u8 && wstep(0xF9u8, true) == 0xF3u8 && wstep(
            0xF3u8,
            true,
        ) == 0xE7u8 && wstep(0xE7u8, true) == 0xCFu8 && wstep(0xCFu8, true) == 0x9Fu8 && wstep(
            0x9Fu8,
            true,
        ) == 0x3Fu8 && wstep(0x3Fu8, false) == 0x7Eu8 && (0x7Eu8 >> 0u8) & 1u8 == 0u8 && wstep(
            0u8,
            false,
        ) == 0u8,
        k <= 5 && (w >> k) & 1u8 == 0u8 ==> wstep(w, false) != 0x7Eu8,
        wstep(w, true) != 0x7Eu8,
        k <= 4 && (w >> k) & 1u8 == 0u8 ==> (wstep(w, true) >> ((k + 1) as u8)) & 1u8 == 0u8,
        (wstep(w, false) >> 0u8) & 1u8 == 0u8,
        wstep(
            wstep(wstep(wstep(wstep(wstep(wstep(wstep(w, false), true), true), true), true), true), true),
            false,
        ) == 0x7Eu8,
{
}

/// An open frame whose run of 1s is at most five, preceded by a 0 in the
/// window.
pub open spec fn data_state(s: HdlcView) -> bool {
    s.in_frame && s.ones <= 5 && (s.window >> s.ones) & 1u8 == 0u8
}

/// No run of six 1s, counting `k` already seen, and the stream ends with
/// fewer than five.
pub open spec fn runs_ok(x: Seq<bool>, k: nat) -> bool
    decreases x.len(),
{
    if x.len() == 0 {
        k <= 4
    } else if x[0] {
        k + 1 <= 5 && runs_ok(x.drop_first(), k + 1)
    } else {
        runs_ok(x.drop_first(), 0)
    }
}

proof fn lemma_stuffed_runs(d: Seq<bool>, k: nat)
    requires
        k <= 4,
    ensures
        runs_ok(stuff_from(d, k), k),
    decreases d.len(),
{
    if d.len() > 0 {
        let rest = d.drop_first();
        if d[0] {
            if k + 1 == 5 {
                lemma_stuffed_runs(rest, 0);
                let x = seq![true, false] + stuff_from(rest, 0);
                assert(stuff_from(d, k) == x);
                let y = x.drop_first();
                assert(y =~= seq![false] + stuff_from(rest, 0));
                assert(y.drop_first() =~= stuff_from(rest, 0));
                assert(!y[0]);
                assert(runs_ok(y, 5));
                assert(x[0]);
            } else {
                lemma_stuffed_runs(rest, k + 1);
                let x = seq![true] + stuff_from(rest, k + 1);
                assert(stuff_from(d, k) == x);
                assert(x.drop_first() =~= stuff_from(rest, k + 1));
                assert(x[0]);
            }
        } else {
            lemma_stuffed_runs(rest, 0);
            let x = seq![false] + stuff_from(rest, 0);
            assert(stuff_from(d, k) == x);
            assert(x.drop_first() =~= stuff_from(rest, 0));
            assert(!x[0]);
        }
    }
}

/// Through stuffed data the deframer collects the de-stuffed bits and hands
/// out nothing.
proof fn lemma_data(s: HdlcView, x: Seq<bool>)
    requires
        data_state(s),
        runs_ok(x, s.ones as nat),
    ensures
        ({
            let (t, outs) = run_deframer(s, nrzi_from(x, s.prev_level));
            &&& outs == Seq::<Seq<bool>>::empty()
            &&& data_state(t)
            &&& t.ones <= 4
            &&& t.bits == s.bits + destuff_from(x, s.ones as nat)
            &&& t.prev_level == nrzi_end(x, s.prev_level)
        }),
    decreases x.len(),
{
    let lv = nrzi_from(x, s.prev_level);
    if x.len() == 0 {
        assert(s.bits + destuff_from(x, s.ones as nat) =~= s.bits);
    } else {
        let l = if x[0] { s.prev_level } else { !s.prev_level };
        assert(lv[0] == l);
        assert(lv.drop_first() == nrzi_from(x.drop_first(), l));
        lemma_windows(s.window, s.ones);
        let (s1, o) = hdlc_step(s, l);
        assert(o is None);
        assert(s1.prev_level == l);
        assert(s1.window == wstep(s.window, x[0]));
        if x[0] {
            assert(s1.ones == s.ones + 1);
            assert(s1.bits == s.bits.push(true));
            assert(data_state(s1));
            lemma_data(s1, x.drop_first());
            assert(destuff_from(x, s.ones as nat) == seq![true] + destuff_from(x.drop_first(), s1.ones as nat));
            assert(s1.bits + destuff_from(x.drop_first(), s1.ones as nat) =~= s.bits + destuff_from(x, s.ones as nat));
        } else {
            assert(s1.ones == 0);
            assert(data_state(s1));
            lemma_data(s1, x.drop_first());
            if s.ones == 5 {
                assert(s1.bits == s.bits);
                assert(destuff_from(x, s.ones as nat) == destuff_from(x.drop_first(), 0));
            } else {
                assert(s1.bits == s.bits.push(false));
                assert(destuff_from(x, s.ones as nat) == seq![false] + destuff_from(x.drop_first(), 0));
                assert(s1.bits + destuff_from(x.drop_first(), 0) =~= s.bits + destuff_from(x, s.ones as nat));
            }
        }
    }
}

/// One level, then the rest.
proof fn lemma_run_cons(s: HdlcView, l: bool, rest: Seq<bool>)
    ensures
        run_deframer(s, seq![l] + rest) == (
            run_deframer(hdlc_step(s, l).0, rest).0,
            match hdlc_step(s, l).1 {
                Some(f) => seq![f] + run_deframer(hdlc_step(s, l).0, rest).1,
                None => run_deframer(hdlc_step(s, l).0, rest).1,
            },
        ),
{
    let x = seq![l] + rest;
    assert(x[0] == l);
    assert(x.drop_first() =~= rest);
}

/// A decoded 1 inside an open frame with at most five 1s before it.
proof fn lemma_step_one(s: HdlcView)
    requires
        s.in_frame,
        s.ones <= 5,
    ensures
        hdlc_step(s, s.prev_level) == (
            HdlcView {
                prev_level: s.prev_level,
                window: wstep(s.window, true),
                in_frame: true,
                ones: (s.ones + 1) as u8,
                bits: s.bits.push(true),
            },
            Option::<Seq<bool>>::None,
        ),
{
    lemma_windows(s.window, s.ones);
}

/// A decoded 0 inside an open frame that is not the end of a flag.
proof fn lemma_step_zero(s: HdlcView)
    requires
        data_state(s),
    ensures
        hdlc_step(s, !s.prev_level) == (
            HdlcView {
                prev_level: !s.prev_level,
                window: wstep(s.window, false),
                in_frame: true,
                ones: 0,
                bits: if s.ones != 5 {
                    s.bits.push(false)
                } else {
                    s.bits
                },
            },
            Option::<Seq<bool>>::None,
        ),
{
    lemma_windows(s.window, s.ones);
}

/// The window after `n` decoded 1s.
pub open spec fn wsteps_true(w: u8, n: nat) -> u8
    decreases n,
{
    if n == 0 {
        w
    } else {
        wstep(wsteps_true(w, (n - 1) as nat), true)
    }
}

/// `n` 1s inside an open frame: all collected, nothing handed out.
proof fn lemma_ones(s: HdlcView, n: nat)
    requires
        s.in_frame,
        s.ones + n <= 6,
    ensures
        ({
            let (t, outs) = run_deframer(s, Seq::new(n, |i: int| s.prev_level));
            &&& outs == Seq::<Seq<bool>>::empty()
            &&& t.in_frame && t.ones == s.ones + n && t.prev_level == s.prev_level
            &&& t.bits == s.bits + Seq::new(n, |i: int| true)
            &&& t.window == wsteps_true(s.window, n)
        }),
    decreases n,
{
    if n > 0 {
        let l = s.prev_level;
        let lv = Seq::new(n, |i: int| l);
        let m = (n - 1) as nat;
        lemma_ones(s, m);
        let t = run_deframer(s, Seq::new(m, |i: int| l)).0;
        lemma_step_one(t);
        lemma_run_cons(t, l, Seq::<bool>::empty());
        assert(seq![l] + Seq::<bool>::empty() =~= seq![l]);
        lemma_run_concat(s, Seq::new(m, |i: int| l), seq![l]);
        assert(Seq::new(m, |i: int| l) + seq![l] =~= lv);
        assert(t.bits.push(true) =~= s.bits + Seq::new(n, |i: int| true));
        assert(Seq::<Seq<bool>>::empty() + Seq::<Seq<bool>>::empty() =~= Seq::<Seq<bool>>::empty());
    } else {
        assert(s.bits + Seq::new(0, |i: int| true) =~= s.bits);
    }
}

/// The seven levels of a flag before its last, from an open frame: a 0 then
/// six 1s, all collected.
proof fn lemma_flag_body(s: HdlcView)
    requires
        data_state(s),
        s.ones <= 4,
    ensures
        ({
            let l = s.prev_level;
            let (t, outs) = run_deframer(s, seq![!l, !l, !l, !l, !l, !l, !l]);
            &&& outs == Seq::<Seq<bool>>::empty()
            &&& t.in_frame && t.ones == 6 && t.prev_level == !l
            &&& t.bits == s.bits + seq![false, true, true, true, true, true, true]
            &&& t.window == wsteps_true(wstep(s.window, false), 6)
        }),
{
    let l = s.prev_level;
    lemma_step_zero(s);
    let s1 = hdlc_step(s, !l).0;
    lemma_ones(s1, 6);
    let six = Seq::new(6, |i: int| !l);
    lemma_run_cons(s, !l, six);
    assert(seq![!l] + six =~= seq![!l, !l, !l, !l, !l, !l, !l]);
    assert(s1.bits + Seq::new(6, |i: int| true) =~= s.bits + seq![false, true, true, true, true, true, true]);
}

/// A flag after data (or after another flag) hands out the bits collected
/// since the last flag and leaves the deframer just after a flag.
proof fn lemma_closing_flag(s: HdlcView)
    requires
        data_state(s),
        s.ones <= 4,
    ensures
        run_deframer(s, flag_levels(s.prev_level)) == (after_flag(s.prev_level), seq![s.bits]),
{
    let l = s.prev_level;
    lemma_flag_body(s);
    let body = seq![!l, !l, !l, !l, !l, !l, !l];
    let t = run_deframer(s, body).0;
    lemma_windows(s.window, s.ones);
    reveal_with_fuel(wsteps_true, 7);
    let (u, o) = hdlc_step(t, l);
    assert(u.window == 0x7Eu8);
    assert(t.bits.take(t.bits.len() - 7) =~= s.bits);
    assert(o == Some(s.bits));
    assert(u == after_flag(l));
    lemma_run_cons(t, l, Seq::<bool>::empty());
    assert(seq![l] + Seq::<bool>::empty() =~= seq![l]);
    assert(seq![s.bits] + Seq::<Seq<bool>>::empty() =~= seq![s.bits]);
    lemma_run_concat(s, body, seq![l]);
    assert(body + seq![l] =~= flag_levels(l));
    assert(Seq::<Seq<bool>>::empty() + seq![s.bits] =~= seq![s.bits]);
}

/// Flags back to back after a flag: each hands out an empty frame.
proof fn lemma_flag_run(l: bool, n: nat)
    ensures
        nrzi_end(flags(n), l) == l,
        nrzi_from(flags(n), l) =~= Seq::new(n * 8, |i: int| flag_levels(l)[i % 8]),
        run_deframer(after_flag(l), nrzi_from(flags(n), l)) == (after_flag(l), empties(n)),
    decreases n,
{
    if n == 0 {
        assert(nrzi_from(flags(0), l) =~= Seq::<bool>::empty());
        assert(empties(0) =~= Seq::<Seq<bool>>::empty());
    } else {
        let m = (n - 1) as nat;
        lemma_flag_run(l, m);
        lemma_flag_levels(l);
        lemma_nrzi_concat(flags(m), flag_bits(), l);
        assert(flags(n) == flags(m) + flag_bits());
        let a = nrzi_from(flags(m), l);
        assert(nrzi_from(flags(n), l) == a + flag_levels(l));
        assert(a + flag_levels(l) =~= Seq::new(n * 8, |i: int| flag_levels(l)[i % 8])) by {
            assert forall|i: int| 0 <= i < n * 8 implies #[trigger] (a + flag_levels(l))[i] == flag_levels(l)[i % 8] by {
                if i >= m * 8 {
                    assert(i - m * 8 == i % 8) by (nonlinear_arith)
                        requires
                            m * 8 <= i < m * 8 + 8,
                    ;
                }
            }
        }
        lemma_run_concat(after_flag(l), a, flag_levels(l));
        let f = after_flag(l);
        assert(data_state(f)) by {
            lemma_windows(0, 0);
        }
        lemma_closing_flag(f);
        assert(empties(m) + seq![Seq::<bool>::empty()] =~= empties(n));
    }
}

/// The first two flags a new deframer hears: the first is garbled (the line
/// level before it is unknown), the second opens a frame.
proof fn lemma_lead_two()
    ensures
        nrzi_end(flags(2), true) == true,
        run_deframer(deframer_start(), nrzi_from(flags(2), true)) == (
            after_flag(true),
            Seq::<Seq<bool>>::empty(),
        ),
{
    lemma_flags_concat(1, 1);
    assert(flags(1) =~= flag_bits()) by {
        assert(flags(0) + flag_bits() =~= flag_bits());
    }
    lemma_flag_levels(true);
    lemma_nrzi_concat(flag_bits(), flag_bits(), true);
    let fl = flag_levels(true);
    assert(nrzi_from(flags(2), true) == fl + fl);
    lemma_windows(0, 0);
    let s0 = deframer_start();
    let s1 = hdlc_step(s0, false).0;
    let s2 = hdlc_step(s1, false).0;
    let s3 = hdlc_step(s2, false).0;
    let s4 = hdlc_step(s3, false).0;
    let s5 = hdlc_step(s4, false).0;
    let s6 = hdlc_step(s5, false).0;
    let s7 = hdlc_step(s6, false).0;
    let s8 = hdlc_step(s7, true).0;
    assert(s8 == (HdlcView { prev_level: true, window: 0xFEu8, in_frame: false, ones: 0, bits: Seq::empty() }));
    let t1 = hdlc_step(s8, false).0;
    let t2 = hdlc_step(t1, false).0;
    let t3 = hdlc_step(t2, false).0;
    let t4 = hdlc_step(t3, false).0;
    let t5 = hdlc_step(t4, false).0;
    let t6 = hdlc_step(t5, false).0;
    let t7 = hdlc_step(t6, false).0;
    let t8 = hdlc_step(t7, true).0;
    assert(hdlc_step(t7, true).1 is None);
    assert(t8 == after_flag(true));
    reveal_with_fuel(run_deframer, 17);
    assert((fl + fl).drop_first() =~= seq![false, false, false, false, false, false, true] + fl);
}

/// The frame bits a packet carries: the packet and its FCS, each octet
/// least-significant bit first.
pub open spec fn packet_bits(frame: Seq<u8>) -> Seq<bool> {
    lsb_bits(with_fcs(frame))
}

/// For every packet, with at least two opening flags: fed the line levels
/// `frame_levels` produces, a new deframer hands out one empty frame for
/// each opening flag after the second, then exactly the packet's bits, then
/// four empty frames (one per closing flag after the first).
pub proof fn lemma_deframer_recovers_frame(frame: Seq<u8>, lead: nat)
    requires
        lead >= 2,
    ensures
        run_deframer(deframer_start(), spec_frame_levels(frame, lead)).1 == empties(
            (lead - 2) as nat,
        ) + seq![packet_bits(frame)] + empties(4),
{
    let d = packet_bits(frame);
    let a = flags(2);
    let b = flags((lead - 2) as nat);
    let c = stuff_from(d, 0);
    let e = flags(5);
    lemma_flags_concat(2, (lead - 2) as nat);
    assert(wire_bits(frame, lead) == ((a + b) + c) + e);
    // line levels, piece by piece
    lemma_lead_two();
    lemma_flag_run(true, (lead - 2) as nat);
    lemma_nrzi_concat(a, b, true);
    lemma_nrzi_concat(a + b, c, true);
    let l2 = nrzi_end(c, true);
    lemma_nrzi_concat((a + b) + c, e, true);
    let la = nrzi_from(a, true);
    let lb = nrzi_from(b, true);
    let lc = nrzi_from(c, true);
    let ld = nrzi_from(e, l2);
    assert(spec_frame_levels(frame, lead) == ((la + lb) + lc) + ld);
    // the deframer, piece by piece
    let s0 = deframer_start();
    let f1 = after_flag(true);
    lemma_run_concat(s0, la, lb);
    assert(run_deframer(s0, la + lb) == (f1, Seq::<Seq<bool>>::empty() + empties((lead - 2) as nat)));
    lemma_stuffed_runs(d, 0);
    assert(data_state(f1)) by {
        lemma_windows(0, 0);
    }
    lemma_data(f1, c);
    lemma_destuff_stuff(d, 0);
    let dst = run_deframer(f1, lc).0;
    assert(dst.bits =~= d);
    lemma_run_concat(s0, la + lb, lc);
    // closing flags
    lemma_flags_concat(1, 4);
    assert(flags(1) =~= flag_bits()) by {
        assert(flags(0) + flag_bits() =~= flag_bits());
    }
    lemma_flag_levels(l2);
    lemma_nrzi_concat(flag_bits(), flags(4), l2);
    lemma_closing_flag(dst);
    lemma_flag_run(l2, 4);
    lemma_run_concat(dst, flag_levels(l2), nrzi_from(flags(4), l2));
    lemma_run_concat(s0, (la + lb) + lc, ld);
    assert(Seq::<Seq<bool>>::empty() + empties((lead - 2) as nat) =~= empties((lead - 2) as nat));
    assert(empties((lead - 2) as nat) + Seq::<Seq<bool>>::empty() =~= empties((lead - 2) as nat));
    assert(empties((lead - 2) as nat) + (seq![d] + empties(4)) =~= empties((lead - 2) as nat) + seq![d]
        + empties(4));
}

/// Two bytes with the same eight bits are equal.
proof fn lemma_byte_from_bits(x: u8, y: u8)
    by (bit_vector)
    requires
        (x >> 0u8) & 1u8 == (y >> 0u8) & 1u8,
        (x >> 1u8) & 1u8 == (y >> 1u8) & 1u8,
        (x >> 2u8) & 1u8 == (y >> 2u8) & 1u8,
        (x >> 3u8) & 1u8 == (y >> 3u8) & 1u8,
        (x >> 4u8) & 1u8 == (y >> 4u8) & 1u8,
        (x >> 5u8) & 1u8 == (y >> 5u8) & 1u8,
        (x >> 6u8) & 1u8 == (y >> 6u8) & 1u8,
        (x >> 7u8) & 1u8 == (y >> 7u8) & 1u8,
    ensures
        x == y,
{
}

/// Bit `b` of a rebuilt octet is bit `b` of the octet.
proof fn lemma_rebuilt_bit(o: Seq<u8>, j: int, b: int)
    requires
        0 <= j < o.len(),
        0 <= b < 8,
    ensures
        (lsb_byte(lsb_bits(o), j, 8) >> (b as u8)) & 1u8 == (o[j] >> (b as u8)) & 1u8,
{
    let bits = lsb_bits(o);
    lemma_lsb_byte_bits(bits, j, 8, b);
    assert((8 * j + b) / 8 == j && (8 * j + b) % 8 == b) by (nonlinear_arith)
        requires
            0 <= b < 8,
    ;
    assert(8 * j + b < o.len() * 8) by (nonlinear_arith)
        requires
            0 <= j < o.len(),
            0 <= b < 8,
    ;
    let v = o[j];
    let bb = b as u8;
    assert((v >> bb) & 1u8 == 0u8 || (v >> bb) & 1u8 == 1u8) by (bit_vector);
}

/// Reading octets' bits back into octets gives the octets.
pub proof fn lemma_octets_round_trip(o: Seq<u8>)
    ensures
        lsb_octets(lsb_bits(o)) == o,
{
    let bits = lsb_bits(o);
    assert forall|j: int| 0 <= j < o.len() implies #[trigger] lsb_octets(bits)[j] == o[j] by {
        lemma_rebuilt_bit(o, j, 0);
        lemma_rebuilt_bit(o, j, 1);
        lemma_rebuilt_bit(o, j, 2);
        lemma_rebuilt_bit(o, j, 3);
        lemma_rebuilt_bit(o, j, 4);
        lemma_rebuilt_bit(o, j, 5);
        lemma_rebuilt_bit(o, j, 6);
        lemma_rebuilt_bit(o, j, 7);
        lemma_byte_from_bits(lsb_byte(bits, j, 8), o[j]);
    }
    assert(lsb_octets(bits) =~= o);
}

/// `validate` accepts the bits of every packet of 16 to 254 octets and
/// gives the packet back.
pub proof fn lemma_validate_packet(frame: Seq<u8>)
    requires
        16 <= frame.len() <= 254,
    ensures
        aprs_frame_ok(packet_bits(frame)),
        lsb_octets(packet_bits(frame)).drop_last().drop_last() == frame,
{
    let w = with_fcs(frame);
    lemma_octets_round_trip(w);
    lemma_fcs_residual(frame);
    assert(w.drop_last().drop_last() =~= frame);
    assert(fcs_ok_spec(w));
}

/// A frame with no bits is never a packet.
pub proof fn lemma_validate_refuses_empty()
    ensures
        !aprs_frame_ok(Seq::<bool>::empty()),
{
}

// --- the AIS deframer ----------------------------------------------------------

/// Runs the AIS deframer over `levels` from state `s`: the state it ends in
/// and every frame it hands out, in order.
pub open spec fn run_ais(s: AisHdlcView, levels: Seq<bool>) -> (AisHdlcView, Seq<Seq<bool>>)
    decreases levels.len(),
{
    if levels.len() == 0 {
        (s, Seq::empty())
    } else {
        let (s1, o) = ais_hdlc_step(s, levels[0]);
        let (s2, outs) = run_ais(s1, levels.drop_first());
        (
            s2,
            match o {
                Some(f) => seq![f] + outs,
                None => outs,
            },
        )
    }
}

/// The state of a new AIS deframer.
pub open spec fn ais_start() -> AisHdlcView {
    AisHdlcView { prev_level: false, in_frame: false, hunt: 0, ones: 0, bits: Seq::empty() }
}

proof fn lemma_run_ais_concat(s: AisHdlcView, a: Seq<bool>, b: Seq<bool>)
    ensures
        run_ais(s, a + b) == (
            run_ais(run_ais(s, a).0, b).0,
            run_ais(s, a).1 + run_ais(run_ais(s, a).0, b).1,
        ),
    decreases a.len(),
{
    if a.len() == 0 {
        assert(a + b =~= b);
        assert(run_ais(s, a).1 + run_ais(s, b).1 =~= run_ais(s, b).1);
    } else {
        assert((a + b).drop_first() =~= a.drop_first() + b);
        assert((a + b)[0] == a[0]);
        let (s1, o) = ais_hdlc_step(s, a[0]);
        lemma_run_ais_concat(s1, a.drop_first(), b);
        let x = run_ais(s1, a.drop_first()).1;
        let y = run_ais(run_ais(s1, a.drop_first()).0, b).1;
        match o {
            Some(f) => {
                assert(seq![f] + (x + y) =~= (seq![f] + x) + y);
            },
            None => {},
        }
    }
}

proof fn lemma_run_ais_cons(s: AisHdlcView, l: bool, rest: Seq<bool>)
    ensures
        run_ais(s, seq![l] + rest) == (
            run_ais(ais_hdlc_step(s, l).0, rest).0,
            match ais_hdlc_step(s, l).1 {
                Some(f) => seq![f] + run_ais(ais_hdlc_step(s, l).0, rest).1,
                None => run_ais(ais_hdlc_step(s, l).0, rest).1,
            },
        ),
{
    let x = seq![l] + rest;
    assert(x[0] == l);
    assert(x.drop_first() =~= rest);
}

/// Through stuffed data an open AIS frame collects the de-stuffed bits.
proof fn lemma_ais_data(s: AisHdlcView, x: Seq<bool>)
    requires
        s.in_frame,
        s.ones <= 5,
        runs_ok(x, s.ones as nat),
    ensures
        ({
            let (t, outs) = run_ais(s, nrzi_from(x, s.prev_level));
            &&& outs == Seq::<Seq<bool>>::empty()
            &&& t.in_frame
            &&& t.ones <= 4
            &&& t.bits == s.bits + destuff_from(x, s.ones as nat)
            &&& t.prev_level == nrzi_end(x, s.prev_level)
        }),
    decreases x.len(),
{
    let lv = nrzi_from(x, s.prev_level);
    if x.len() == 0 {
        assert(s.bits + destuff_from(x, s.ones as nat) =~= s.bits);
    } else {
        let l = if x[0] { s.prev_level } else { !s.prev_level };
        assert(lv[0] == l);
        assert(lv.drop_first() == nrzi_from(x.drop_first(), l));
        let (s1, o) = ais_hdlc_step(s, l);
        assert(o is None);
        lemma_ais_data(s1, x.drop_first());
        if x[0] {
            assert(destuff_from(x, s.ones as nat) == seq![true] + destuff_from(x.drop_first(), s1.ones as nat));
            assert(s1.bits + destuff_from(x.drop_first(), s1.ones as nat) =~= s.bits + destuff_from(x, s.ones as nat));
        } else if s.ones == 5 {
            assert(destuff_from(x, s.ones as nat) == destuff_from(x.drop_first(), 0));
        } else {
            assert(destuff_from(x, s.ones as nat) == seq![false] + destuff_from(x.drop_first(), 0));
            assert(s1.bits + destuff_from(x.drop_first(), 0) =~= s.bits + destuff_from(x, s.ones as nat));
        }
    }
}

/// `n` 1s inside an open AIS frame: all collected.
proof fn lemma_ais_ones(s: AisHdlcView, n: nat)
    requires
        s.in_frame,
        s.ones + n <= 6,
    ensures
        ({
            let (t, outs) = run_ais(s, Seq::new(n, |i: int| s.prev_level));
            &&& outs == Seq::<Seq<bool>>::empty()
            &&& t.in_frame && t.ones == s.ones + n && t.prev_level == s.prev_level
            &&& t.bits == s.bits + Seq::new(n, |i: int| true)
        }),
    decreases n,
{
    if n > 0 {
        let l = s.prev_level;
        let m = (n - 1) as nat;
        lemma_ais_ones(s, m);
        let t = run_ais(s, Seq::new(m, |i: int| l)).0;
        lemma_run_ais_cons(t, l, Seq::<bool>::empty());
        assert(seq![l] + Seq::<bool>::empty() =~= seq![l]);
        lemma_run_ais_concat(s, Seq::new(m, |i: int| l), seq![l]);
        assert(Seq::new(m, |i: int| l) + seq![l] =~= Seq::new(n, |i: int| l));
        assert(t.bits.push(true) =~= s.bits + Seq::new(n, |i: int| true));
        assert(Seq::<Seq<bool>>::empty() + Seq::<Seq<bool>>::empty() =~= Seq::<Seq<bool>>::empty());
    } else {
        assert(s.bits + Seq::new(0, |i: int| true) =~= s.bits);
    }
}

/// A closing flag hands out the collected bits and goes back to hunting.
proof fn lemma_ais_closing_flag(s: AisHdlcView)
    requires
        s.in_frame,
        s.ones <= 4,
    ensures
        run_ais(s, flag_levels(s.prev_level)).1 == seq![s.bits],
{
    let l = s.prev_level;
    let s1 = ais_hdlc_step(s, !l).0;
    assert(ais_hdlc_step(s, !l).1 is None);
    assert(s1.in_frame && s1.ones == 0 && s1.bits == s.bits.push(false) && s1.prev_level == !l);
    lemma_ais_ones(s1, 6);
    let six = Seq::new(6, |i: int| !l);
    let t = run_ais(s1, six).0;
    let (u, o) = ais_hdlc_step(t, l);
    assert(t.bits =~= s.bits + seq![false, true, true, true, true, true, true]);
    assert(t.bits.take(t.bits.len() - 7) =~= s.bits);
    assert(o == Some(s.bits));
    lemma_run_ais_cons(t, l, Seq::<bool>::empty());
    assert(seq![l] + Seq::<bool>::empty() =~= seq![l]);
    assert(seq![s.bits] + Seq::<Seq<bool>>::empty() =~= seq![s.bits]);
    lemma_run_ais_concat(s1, six, seq![l]);
    lemma_run_ais_cons(s, !l, six + seq![l]);
    assert(seq![!l] + (six + seq![l]) =~= flag_levels(l));
    assert(Seq::<Seq<bool>>::empty() + seq![s.bits] =~= seq![s.bits]);
}

/// The opening flag, from a line resting where the deframer expects it.
proof fn lemma_ais_opening_flag()
    ensures
        run_ais(ais_start(), flag_levels(false)) == (
            AisHdlcView { prev_level: false, in_frame: true, hunt: 0x7Eu8, ones: 0, bits: Seq::empty() },
            Seq::<Seq<bool>>::empty(),
        ),
{
    lemma_windows(0, 0);
    reveal_with_fuel(run_ais, 9);
    let fl = flag_levels(false);
    assert(fl.drop_first() =~= seq![true, true, true, true, true, true, false]);
}

/// The bits an AIS station sends for a payload: one flag, the stuffed bits
/// of the payload and its FCS, one flag; NRZI-coded from a line resting low
/// (the level the deframer starts from).
pub open spec fn ais_burst_levels(payload: Seq<u8>) -> Seq<bool> {
    nrzi_from(flag_bits() + stuff_from(packet_bits(payload), 0) + flag_bits(), false)
}

/// Fed one burst, a new AIS deframer hands out exactly the burst's bits
/// (payload and FCS, least-significant bit first).
pub proof fn lemma_ais_deframer_recovers_burst(payload: Seq<u8>)
    ensures
        run_ais(ais_start(), ais_burst_levels(payload)).1 == seq![packet_bits(payload)],
{
    let d = packet_bits(payload);
    let c = stuff_from(d, 0);
    let f = flag_bits();
    lemma_flag_levels(false);
    lemma_nrzi_concat(f, c, false);
    let l2 = nrzi_end(c, false);
    lemma_nrzi_concat(f + c, f, false);
    lemma_flag_levels(l2);
    let lf = flag_levels(false);
    let lc = nrzi_from(c, false);
    let le = flag_levels(l2);
    assert(ais_burst_levels(payload) == (lf + lc) + le);
    lemma_ais_opening_flag();
    let open = AisHdlcView { prev_level: false, in_frame: true, hunt: 0x7Eu8, ones: 0, bits: Seq::empty() };
    lemma_stuffed_runs(d, 0);
    lemma_ais_data(open, c);
    lemma_destuff_stuff(d, 0);
    let dst = run_ais(open, lc).0;
    assert(dst.bits =~= d);
    lemma_ais_closing_flag(dst);
    lemma_run_ais_concat(ais_start(), lf, lc);
    lemma_run_ais_concat(ais_start(), lf + lc, le);
    assert(Seq::<Seq<bool>>::empty() + Seq::<Seq<bool>>::empty() + seq![d] =~= seq![d]);
}

/// The AIS `validate` accepts the bits of every burst whose payload is 3 to
/// 148 octets and gives the payload back.
pub proof fn lemma_ais_validate_packet(payload: Seq<u8>)
    requires
        3 <= payload.len() <= 148,
    ensures
        ais_frame_ok(packet_bits(payload)),
        lsb_octets(packet_bits(payload)).drop_last().drop_last() == payload,
        packet_bits(payload).len() - 16 == payload.len() * 8,
{
    let w = with_fcs(payload);
    lemma_octets_round_trip(w);
    lemma_fcs_residual(payload);
    assert(w.drop_last().drop_last() =~= payload);
    assert(fcs_ok_spec(w));
}

} // verus!
