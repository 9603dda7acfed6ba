//! Static catalogs: the capability strings a server advertises, which modes
//! produce demodulated audio, and whether a real web bundle is embedded.

use vstd::prelude::*;
use crate::text::{chars_eq, chars_of, string_from_chars};

verus! {

/// The capabilities every server has: receive, WebRTC audio and each mode.
pub open spec fn base_capability_names() -> Seq<Seq<char>> {
    seq![
        seq!['r', 'x'],
        seq!['w', 'e', 'b', 'r', 't', 'c'],
        seq!['n', 'b', 'f', 'm'],
        seq!['w', 'b', 'f', 'm'],
        seq!['a', 'm'],
        seq!['f', 'r', 's'],
        seq!['a', 'p', 't'],
        seq!['a', 'd', 's', 'b'],
        seq!['a', 'i', 's'],
        seq!['d', 'e', 'b', 'u', 'g', '_', 't', 'o', 'n', 'e'],
    ]
}

/// The characters of each string, in order.
pub open spec fn texts(v: Seq<String>) -> Seq<Seq<char>> {
    v.map_values(|s: String| s@)
}

fn push_text(out: &mut Vec<String>, t: &[char])
    ensures
        texts(final(out)@) == texts(old(out)@).push(t@),
{
    out.push(string_from_chars(t));
    proof {
        assert(texts(final(out)@) =~= texts(old(out)@).push(t@));
    }
}

/// Capability strings for the server info and the beacon (`tx` is added
/// by the caller when the device can transmit).
pub fn base_capabilities() -> (caps: Vec<String>)
    ensures
        texts(caps@) == base_capability_names(),
{
    let mut caps: Vec<String> = Vec::new();
    proof {
        assert(texts(caps@) =~= Seq::<Seq<char>>::empty());
    }
    push_text(&mut caps, &['r', 'x']);
    push_text(&mut caps, &['w', 'e', 'b', 'r', 't', 'c']);
    push_text(&mut caps, &['n', 'b', 'f', 'm']);
    push_text(&mut caps, &['w', 'b', 'f', 'm']);
    push_text(&mut caps, &['a', 'm']);
    push_text(&mut caps, &['f', 'r', 's']);
    push_text(&mut caps, &['a', 'p', 't']);
    push_text(&mut caps, &['a', 'd', 's', 'b']);
    push_text(&mut caps, &['a', 'i', 's']);
    push_text(&mut caps, &['d', 'e', 'b', 'u', 'g', '_', 't', 'o', 'n', 'e']);
    proof {
        assert(texts(caps@) =~= base_capability_names());
    }
    caps
}

/// A radio allowed to transmit also advertises `tx` and `ptt`.
pub open spec fn radio_capability_names(enable_tx: bool) -> Seq<Seq<char>> {
    if enable_tx {
        base_capability_names() + seq![seq!['t', 'x'], seq!['p', 't', 't']]
    } else {
        base_capability_names()
    }
}

/// The capabilities a fleet radio's beacon advertises.
pub fn radio_capabilities(enable_tx: bool) -> (caps: Vec<String>)
    ensures
        texts(caps@) == radio_capability_names(enable_tx),
{
    let mut caps = base_capabilities();
    if enable_tx {
        push_text(&mut caps, &['t', 'x']);
        push_text(&mut caps, &['p', 't', 't']);
        proof {
            assert(texts(caps@) =~= radio_capability_names(enable_tx));
        }
    }
    caps
}

/// Modes whose pipeline produces the 48 kHz demodulated audio a recording
/// captures.
pub open spec fn audio_mode_ids() -> Seq<Seq<char>> {
    seq![
        seq!['n', 'b', 'f', 'm'],
        seq!['w', 'b', 'f', 'm'],
        seq!['a', 'm'],
        seq!['f', 'r', 's'],
        seq!['h', 'a', 'm'],
        seq!['d', 'e', 'b', 'u', 'g', '_', 't', 'o', 'n', 'e'],
    ]
}

pub fn is_audio_mode(mode: &str) -> (r: bool)
    ensures
        r == audio_mode_ids().contains(mode@),
{
    let m = chars_of(mode);
    let ids: [&[char]; 6] = [
        &['n', 'b', 'f', 'm'],
        &['w', 'b', 'f', 'm'],
        &['a', 'm'],
        &['f', 'r', 's'],
        &['h', 'a', 'm'],
        &['d', 'e', 'b', 'u', 'g', '_', 't', 'o', 'n', 'e'],
    ];
    proof {
        assert(ids@.map_values(|s: &[char]| s@) =~= audio_mode_ids());
    }
    let mut i: usize = 0;
    while i < 6
        invariant
            i <= 6,
            m@ == mode@,
            ids@.map_values(|s: &[char]| s@) == audio_mode_ids(),
            forall|j: int| 0 <= j < i ==> audio_mode_ids()[j] != mode@,
        decreases 6 - i,
    {
        if chars_eq(m.as_slice(), ids[i]) {
            proof {
                assert(audio_mode_ids()[i as int] == ids@[i as int]@);
            }
            return true;
        }
        proof {
            assert(audio_mode_ids()[i as int] == ids@[i as int]@);
        }
        i = i + 1;
    }
    false
}

/// `pat` occurs in `s`.
pub open spec fn contains_text(s: Seq<char>, pat: Seq<char>) -> bool {
    exists|i: int| 0 <= i <= s.len() - pat.len() && #[trigger] s.subrange(i, i + pat.len()) == pat
}

fn occurs(s: &Vec<char>, pat: &[char]) -> (r: bool)
    ensures
        r == contains_text(s@, pat@),
{
    if pat.len() > s.len() {
        return false;
    }
    let mut i: usize = 0;
    let last = s.len() - pat.len();
    while i <= last
        invariant
            last == s@.len() - pat@.len(),
            pat@.len() <= s@.len(),
            i <= s@.len() - pat@.len() + 1,
            forall|k: int| 0 <= k < i ==> #[trigger] s@.subrange(k, k + pat@.len()) != pat@,
        decreases s.len() - i,
    {
        let mut j: usize = 0;
        let mut same = true;
        while j < pat.len()
            invariant
                i + pat@.len() <= s@.len(),
                s@.len() <= usize::MAX,
                j <= pat@.len(),
                same == (forall|t: int| 0 <= t < j ==> s@[i + t] == pat@[t]),
            decreases pat.len() - j,
        {
            if s[i + j] != pat[j] {
                same = false;
            }
            j = j + 1;
        }
        if same {
            proof {
                assert(s@.subrange(i as int, i + pat@.len()) =~= pat@);
            }
            return true;
        }
        proof {
            let w = s@.subrange(i as int, i + pat@.len());
            let t = choose|t: int| 0 <= t < pat@.len() && s@[i + t] != pat@[t];
            assert(w[t] != pat@[t]);
        }
        i = i + 1;
    }
    false
}

/// Whether the embedded page is a real web bundle (its root element,
/// `id="app"` or `id=app`) rather than the build-time placeholder.
pub fn bundled(index_html: &str) -> (r: bool)
    ensures
        r == (contains_text(index_html@, seq!['i', 'd', '=', '"', 'a', 'p', 'p', '"'])
            || contains_text(index_html@, seq!['i', 'd', '=', 'a', 'p', 'p'])),
{
    let s = chars_of(index_html);
    let quoted: [char; 8] = ['i', 'd', '=', '"', 'a', 'p', 'p', '"'];
    let bare: [char; 6] = ['i', 'd', '=', 'a', 'p', 'p'];
    proof {
        assert(quoted@ =~= seq!['i', 'd', '=', '"', 'a', 'p', 'p', '"']);
        assert(bare@ =~= seq!['i', 'd', '=', 'a', 'p', 'p']);
    }
    occurs(&s, &quoted) || occurs(&s, &bare)
}

} // verus!
