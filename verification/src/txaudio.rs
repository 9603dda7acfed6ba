//! The microphone FIFO between the audio receive path and the transmit
//! loop: bounded to about two seconds, drained oldest first, padded with
//! silence on underrun. Samples travel as the bit patterns of their `f32`
//! values (`0` is silence).

use vstd::prelude::*;
use std::collections::VecDeque;

verus! {

/// About two seconds of 48 kHz mono audio.
pub const TX_AUDIO_CAP: usize = 96_000;

/// The newest `cap` elements of `s`.
pub open spec fn keep_newest<T>(s: Seq<T>, cap: nat) -> Seq<T> {
    if s.len() > cap {
        s.subrange(s.len() - cap, s.len() as int)
    } else {
        s
    }
}

/// What a pull of `n` samples hands out: the oldest buffered ones, then
/// silence.
pub open spec fn pulled(buf: Seq<u32>, n: nat) -> Seq<u32> {
    Seq::new(n, |i: int| if i < buf.len() { buf[i] } else { 0u32 })
}

pub struct TxAudioSource {
    buf: VecDeque<u32>,
}

impl View for TxAudioSource {
    type V = Seq<u32>;

    closed spec fn view(&self) -> Seq<u32> {
        self.buf@
    }
}

impl TxAudioSource {
    pub fn new() -> (s: Self)
        ensures
            s@ == Seq::<u32>::empty(),
    {
        TxAudioSource { buf: VecDeque::new() }
    }

    /// Appends samples, then drops the oldest beyond the cap.
    pub fn push(&mut self, samples: &[u32])
        ensures
            final(self)@ == keep_newest(old(self)@ + samples@, TX_AUDIO_CAP as nat),
    {
        let ghost all = self@ + samples@;
        let mut i: usize = 0;
        while i < samples.len()
            invariant
                i <= samples@.len(),
                all == old(self)@ + samples@,
                self.buf@ == old(self)@ + samples@.take(i as int),
            decreases samples.len() - i,
        {
            self.buf.push_back(samples[i]);
            proof {
                assert(self.buf@ =~= old(self)@ + samples@.take(i + 1));
            }
            i = i + 1;
        }
        proof {
            assert(samples@.take(i as int) =~= samples@);
        }
        while self.buf.len() > TX_AUDIO_CAP
            invariant
                self.buf@.len() <= all.len(),
                self.buf@.len() == all.len() || self.buf@.len() >= TX_AUDIO_CAP,
                self.buf@ == all.subrange(all.len() - self.buf@.len(), all.len() as int),
            decreases self.buf.len(),
        {
            let ghost before = self.buf@;
            let _ = self.buf.pop_front();
            proof {
                assert(self.buf@ =~= all.subrange(all.len() - self.buf@.len(), all.len() as int));
            }
        }
        proof {
            if all.len() <= TX_AUDIO_CAP {
                assert(self.buf@ =~= all);
            }
        }
    }

    /// Replaces `out` with `n` samples, oldest first, padded with silence
    /// when fewer are buffered; those samples leave the buffer.
    pub fn pull(&mut self, n: usize, out: &mut Vec<u32>)
        ensures
            final(out)@ == pulled(old(self)@, n as nat),
            final(self)@ == if n < old(self)@.len() {
                old(self)@.subrange(n as int, old(self)@.len() as int)
            } else {
                Seq::<u32>::empty()
            },
    {
        out.clear();
        let mut i: usize = 0;
        while i < n
            invariant
                i <= n,
                out@ == pulled(old(self)@, i as nat),
                self.buf@ == if i < old(self)@.len() {
                    old(self)@.subrange(i as int, old(self)@.len() as int)
                } else {
                    Seq::<u32>::empty()
                },
            decreases n - i,
        {
            let v = match self.buf.pop_front() {
                Some(x) => x,
                None => 0u32,
            };
            out.push(v);
            proof {
                assert(out@ =~= pulled(old(self)@, (i + 1) as nat));
                if i + 1 < old(self)@.len() {
                    assert(self.buf@ =~= old(self)@.subrange(i + 1, old(self)@.len() as int));
                } else {
                    assert(self.buf@ =~= Seq::<u32>::empty());
                }
            }
            i = i + 1;
        }
    }

    /// Drops anything buffered.
    pub fn clear(&mut self)
        ensures
            final(self)@ == Seq::<u32>::empty(),
    {
        self.buf.clear();
    }

    pub fn len(&self) -> (n: usize)
        ensures
            n == self@.len(),
    {
        self.buf.len()
    }
}

/// The buffer never holds more than two seconds of audio after a push.
pub proof fn lemma_push_bounded(buf: Seq<u32>, samples: Seq<u32>)
    ensures
        keep_newest(buf + samples, TX_AUDIO_CAP as nat).len() <= TX_AUDIO_CAP,
{
}

} // verus!
