//! The transmit audit log: a bounded, in-memory station log of every
//! push-to-talk keying — who keyed, on what frequency, and for how long.

use vstd::prelude::*;
use std::collections::VecDeque;
use crate::recent::pushed_recent;

verus! {

/// How many transmit-log entries are kept.
pub const TX_AUDIT_CAP: usize = 200;

/// Timestamps are nanoseconds since the Unix epoch, within ±2^100.
pub open spec fn stamp_ok(t: i128) -> bool {
    -0x10_0000_0000_0000_0000_0000_0000i128 < t < 0x10_0000_0000_0000_0000_0000_0000i128
}

/// One keying. The CTCSS tone and gain are carried as the bit patterns of
/// their `f64` values.
#[derive(Debug)]
pub struct TxLogEntry {
    pub keyed_at_ns: i128,
    /// The keying client's declared name.
    pub client: String,
    pub mode: String,
    /// Actual transmit frequency (RX frequency + `offset_hz`).
    pub tx_frequency_hz: u64,
    pub offset_hz: i64,
    pub tone_hz_bits: u64,
    pub gain_db_bits: u64,
    /// `None` while the transmission is still open.
    pub released_at_ns: Option<i128>,
    pub duration_ms: Option<u64>,
}

pub struct TxLogView {
    pub keyed_at_ns: i128,
    pub client: Seq<char>,
    pub mode: Seq<char>,
    pub tx_frequency_hz: u64,
    pub offset_hz: i64,
    pub tone_hz_bits: u64,
    pub gain_db_bits: u64,
    pub released_at_ns: Option<i128>,
    pub duration_ms: Option<u64>,
}

impl View for TxLogEntry {
    type V = TxLogView;

    open spec fn view(&self) -> TxLogView {
        TxLogView {
            keyed_at_ns: self.keyed_at_ns,
            client: self.client@,
            mode: self.mode@,
            tx_frequency_hz: self.tx_frequency_hz,
            offset_hz: self.offset_hz,
            tone_hz_bits: self.tone_hz_bits,
            gain_db_bits: self.gain_db_bits,
            released_at_ns: self.released_at_ns,
            duration_ms: self.duration_ms,
        }
    }
}

impl TxLogEntry {
    /// A field-by-field copy.
    pub fn duplicate(&self) -> (r: Self)
        ensures
            r@ == self@,
    {
        TxLogEntry {
            keyed_at_ns: self.keyed_at_ns,
            client: self.client.clone(),
            mode: self.mode.clone(),
            tx_frequency_hz: self.tx_frequency_hz,
            offset_hz: self.offset_hz,
            tone_hz_bits: self.tone_hz_bits,
            gain_db_bits: self.gain_db_bits,
            released_at_ns: self.released_at_ns,
            duration_ms: self.duration_ms,
        }
    }
}

/// The index of `client`'s most recent still-open entry, searching
/// `log[..n]` from the back.
pub open spec fn last_open(log: Seq<TxLogView>, client: Seq<char>, n: int) -> Option<int>
    decreases n,
{
    if n <= 0 {
        None
    } else if log[n - 1].client == client && log[n - 1].released_at_ns is None {
        Some(n - 1)
    } else {
        last_open(log, client, n - 1)
    }
}

/// How long a keying lasted, in whole milliseconds (never negative).
pub open spec fn held_ms(keyed: i128, released: i128) -> u64 {
    let d = released - keyed;
    if d <= 0 {
        0
    } else {
        (d / 1_000_000) as u64
    }
}

/// An entry closed at `now`.
pub open spec fn closed(e: TxLogView, now: i128) -> TxLogView {
    TxLogView { released_at_ns: Some(now), duration_ms: Some(held_ms(e.keyed_at_ns, now)), ..e }
}

/// The log after `client` releases at `now`: its most recent open entry is
/// closed; without one nothing changes.
pub open spec fn released(log: Seq<TxLogView>, client: Seq<char>, now: i128) -> Seq<TxLogView> {
    match last_open(log, client, log.len() as int) {
        Some(i) => log.update(i, closed(log[i], now)),
        None => log,
    }
}

/// The bounded ring of keyings, oldest first.
pub struct TxAudit {
    log: VecDeque<TxLogEntry>,
}

impl View for TxAudit {
    type V = Seq<TxLogView>;

    closed spec fn view(&self) -> Seq<TxLogView> {
        self.log@.map_values(|e: TxLogEntry| e@)
    }
}

impl TxAudit {
    /// At most `TX_AUDIT_CAP` entries, each stamped within range.
    pub closed spec fn wf(&self) -> bool {
        &&& self.log@.len() <= TX_AUDIT_CAP
        &&& forall|i: int| 0 <= i < self.log@.len() ==> #[trigger] stamp_ok(self.log@[i].keyed_at_ns)
    }

    pub fn new() -> (a: Self)
        ensures
            a.wf(),
            a@ == Seq::<TxLogView>::empty(),
    {
        let a = TxAudit { log: VecDeque::new() };
        proof {
            assert(a@ =~= Seq::<TxLogView>::empty());
        }
        a
    }

    /// Records a keying at `now_ns` (still open), dropping the oldest entry
    /// when the log is full.
    pub fn key(
        &mut self,
        client: String,
        mode: String,
        tx_frequency_hz: u64,
        offset_hz: i64,
        tone_hz_bits: u64,
        gain_db_bits: u64,
        now_ns: i128,
    )
        requires
            old(self).wf(),
            stamp_ok(now_ns),
        ensures
            final(self).wf(),
            final(self)@ == pushed_recent(
                old(self)@,
                TxLogView {
                    keyed_at_ns: now_ns,
                    client: client@,
                    mode: mode@,
                    tx_frequency_hz,
                    offset_hz,
                    tone_hz_bits,
                    gain_db_bits,
                    released_at_ns: None,
                    duration_ms: None,
                },
                TX_AUDIT_CAP as nat,
            ),
    {
        let ghost before = self.log@;
        let e = TxLogEntry {
            keyed_at_ns: now_ns,
            client,
            mode,
            tx_frequency_hz,
            offset_hz,
            tone_hz_bits,
            gain_db_bits,
            released_at_ns: None,
            duration_ms: None,
        };
        let ghost ev = e@;
        crate::recent::push_recent(&mut self.log, e, TX_AUDIT_CAP);
        proof {
            let after = self.log@;
            if before.len() >= TX_AUDIT_CAP && before.len() > 0 {
                assert(after =~= before.drop_first().push(after.last()));
            }
            assert(self@ =~= pushed_recent(before.map_values(|x: TxLogEntry| x@), ev, TX_AUDIT_CAP as nat));
            assert forall|i: int| 0 <= i < self.log@.len() implies #[trigger] stamp_ok(self.log@[i].keyed_at_ns) by {
                if i == self.log@.len() - 1 {
                } else if before.len() >= TX_AUDIT_CAP && before.len() > 0 {
                    assert(self.log@[i] == before[i + 1]);
                } else {
                    assert(self.log@[i] == before[i]);
                }
            }
        }
    }

    /// Closes `client`'s most recent still-open entry at `now_ns`; a release
    /// with no open entry of that client changes nothing.
    pub fn release(&mut self, client: &str, now_ns: i128)
        requires
            old(self).wf(),
            stamp_ok(now_ns),
        ensures
            final(self).wf(),
            final(self)@ == released(old(self)@, client@, now_ns),
    {
        let ghost v = self@;
        let mut k: usize = self.log.len();
        while k > 0
            invariant
                k <= self.log@.len(),
                self@ == v,
                v == old(self)@,
                self.wf(),
                stamp_ok(now_ns),
                last_open(v, client@, self.log@.len() as int) == last_open(v, client@, k as int),
            decreases k,
        {
            let e = &self.log[k - 1];
            let same = chars_match(&e.client, client);
            if same && e.released_at_ns.is_none() {
                proof {
                    assert(v[k - 1] == self.log@[k - 1]@);
                    assert(stamp_ok(self.log@[k - 1].keyed_at_ns));
                    assert(last_open(v, client@, k as int) == Some((k - 1) as int));
                }
                let keyed = e.keyed_at_ns;
                let d: i128 = now_ns - keyed;
                let ms: u64 = if d <= 0 { 0 } else { #[verifier::truncate] ((d / 1_000_000) as u64) };
                let ghost old_log = self.log@;
                let removed = self.log.remove(k - 1);
                let ghost closed_view = closed(v[k - 1], now_ns);
                match removed {
                    Some(mut x) => {
                        x.released_at_ns = Some(now_ns);
                        x.duration_ms = Some(ms);
                        proof {
                            assert(x@ == closed_view);
                        }
                        self.log.insert(k - 1, x);
                    },
                    None => {},
                }
                proof {
                    assert(self.log@.len() == old_log.len());
                    assert forall|i: int| 0 <= i < self.log@.len() && i != k - 1 implies self.log@[i] == old_log[i] by {
                    }
                    assert(self.log@[k - 1]@ == closed_view);
                    assert(self@ =~= v.update(k - 1, closed_view));
                    assert(v.len() == self.log@.len());
                    assert(last_open(v, client@, v.len() as int) == Some((k - 1) as int));
                    assert(released(v, client@, now_ns) == v.update(k - 1, closed_view));
                    assert forall|i: int| 0 <= i < self.log@.len() implies #[trigger] stamp_ok(
                        self.log@[i].keyed_at_ns,
                    ) by {
                        assert(self.log@[i]@.keyed_at_ns == old_log[i]@.keyed_at_ns);
                    }
                }
                return;
            }
            proof {
                assert(v[k - 1] == self.log@[k - 1]@);
            }
            k = k - 1;
        }
    }

    /// The entries, newest first.
    pub fn snapshot(&self) -> (r: Vec<TxLogEntry>)
        ensures
            r@.map_values(|e: TxLogEntry| e@) == self@.reverse(),
    {
        let mut r: Vec<TxLogEntry> = Vec::new();
        let n = self.log.len();
        let mut k: usize = n;
        while k > 0
            invariant
                k <= n,
                n == self.log@.len(),
                r@.len() == n - k,
                forall|j: int| 0 <= j < r@.len() ==> #[trigger] r@[j]@ == self.log@[n - 1 - j]@,
            decreases k,
        {
            r.push(self.log[k - 1].duplicate());
            k = k - 1;
        }
        proof {
            assert(r@.map_values(|e: TxLogEntry| e@) =~= self@.reverse());
        }
        r
    }

    pub fn len(&self) -> (n: usize)
        ensures
            n == self@.len(),
    {
        self.log.len()
    }
}

/// The log never holds more than `TX_AUDIT_CAP` entries: every log that
/// `new`, `key` and `release` leave is well formed, and a well-formed log is
/// this short.
pub proof fn lemma_audit_bounded(a: &TxAudit)
    requires
        a.wf(),
    ensures
        a@.len() <= TX_AUDIT_CAP,
{
}

/// A release right after a key closes exactly that keying: whatever the
/// log held before, the newest entry (the one just keyed, still open) is
/// the one the release finds.
pub proof fn lemma_key_then_release(log: Seq<TxLogView>, e: TxLogView, now: i128)
    requires
        e.released_at_ns is None,
    ensures
        ({
            let keyed = pushed_recent(log, e, TX_AUDIT_CAP as nat);
            released(keyed, e.client, now) == keyed.update(keyed.len() - 1, closed(e, now))
        }),
{
    let keyed = pushed_recent(log, e, TX_AUDIT_CAP as nat);
    assert(keyed[keyed.len() - 1] == e);
    assert(last_open(keyed, e.client, keyed.len() as int) == Some(keyed.len() - 1));
}

/// Whether a `String` and a `&str` hold the same characters.
fn chars_match(a: &String, b: &str) -> (r: bool)
    ensures
        r == (a@ == b@),
{
    let x = crate::text::chars_of(a.as_str());
    let y = crate::text::chars_of(b);
    crate::text::chars_eq(x.as_slice(), y.as_slice())
}

} // verus!
