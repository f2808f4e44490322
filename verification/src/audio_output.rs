//! The playback buffer of the audio output: samples wait here until the output device
//! takes them.
use std::collections::VecDeque;
use vstd::prelude::*;

verus! {

/// Samples waiting to be played, at most two seconds of them; it starts with 200 ms of
/// silence so that the device does not run dry at once.
pub struct PlaybackBuffer {
    samples: VecDeque<i16>,
    max_size: usize,
    prebuffer_samples: usize,
}

impl PlaybackBuffer {
    /// The samples waiting, oldest first.
    pub closed spec fn queued(&self) -> Seq<i16> {
        self.samples@
    }

    /// How many samples the buffer holds at most.
    pub closed spec fn capacity(&self) -> nat {
        self.max_size as nat
    }

    /// How many samples of silence it started with.
    pub closed spec fn prebuffer(&self) -> nat {
        self.prebuffer_samples as nat
    }

    /// A buffer for `sample_rate` samples per second: room for two seconds, and 200 ms of
    /// silence in it.
    pub fn new(sample_rate: u32) -> (b: Self)
        requires
            2 * sample_rate <= usize::MAX,
        ensures
            b.capacity() == 2 * sample_rate,
            b.prebuffer() == sample_rate * 200 / 1000,
            b.queued() == Seq::new(b.prebuffer(), |i: int| 0i16),
    {
        let prebuffer_samples = ((sample_rate as u64) * 200 / 1000) as usize;
        let mut samples: VecDeque<i16> = VecDeque::new();
        let mut i: usize = 0;
        while i < prebuffer_samples
            invariant
                i <= prebuffer_samples,
                samples@ == Seq::new(i as nat, |j: int| 0i16),
            decreases prebuffer_samples - i,
        {
            samples.push_back(0);
            assert(samples@ =~= Seq::new((i + 1) as nat, |j: int| 0i16));
            i += 1;
        }
        PlaybackBuffer { samples, max_size: (sample_rate as usize) * 2, prebuffer_samples }
    }

    /// An empty buffer with no silence in it.
    pub fn empty(sample_rate: u32) -> (b: Self)
        requires
            2 * sample_rate <= usize::MAX,
        ensures
            b.capacity() == 2 * sample_rate,
            b.prebuffer() == 0,
            b.queued().len() == 0,
    {
        PlaybackBuffer { samples: VecDeque::new(), max_size: (sample_rate as usize) * 2, prebuffer_samples: 0 }
    }

    /// Appends samples, then drops the oldest ones beyond the capacity.
    pub fn play_samples(&mut self, samples: &[i16])
        ensures
            ({
                let all = old(self).queued() + samples@;
                final(self).queued() == if all.len() > old(self).capacity() {
                    all.skip(all.len() - old(self).capacity())
                } else {
                    all
                }
            }),
            final(self).capacity() == old(self).capacity(),
            final(self).prebuffer() == old(self).prebuffer(),
    {
        let ghost all = self.samples@ + samples@;
        let mut i: usize = 0;
        while i < samples.len()
            invariant
                i <= samples@.len(),
                all == old(self).queued() + samples@,
                self.samples@ == old(self).queued() + samples@.take(i as int),
                self.max_size == old(self).max_size,
                self.prebuffer_samples == old(self).prebuffer_samples,
            decreases samples@.len() - i,
        {
            self.samples.push_back(samples[i]);
            assert(self.samples@ =~= old(self).queued() + samples@.take(i + 1));
            i += 1;
        }
        assert(samples@.take(i as int) =~= samples@);
        let ghost mut dropped: int = 0;
        while self.samples.len() > self.max_size
            invariant
                0 <= dropped <= all.len(),
                self.samples@ == all.skip(dropped),
                dropped <= (if all.len() > self.max_size {
                    all.len() - self.max_size
                } else {
                    0
                }),
                self.max_size == old(self).max_size,
                self.prebuffer_samples == old(self).prebuffer_samples,
            decreases self.samples@.len(),
        {
            self.samples.pop_front();
            proof {
                assert(self.samples@ =~= all.skip(dropped + 1));
                dropped = dropped + 1;
            }
        }
        assert(all.skip(0) =~= all);
    }

    /// How many samples wait beyond the initial silence.
    pub fn buffer_size(&self) -> (n: usize)
        ensures
            n == (if self.queued().len() > self.prebuffer() {
                self.queued().len() - self.prebuffer()
            } else {
                0
            }),
    {
        self.samples.len().saturating_sub(self.prebuffer_samples)
    }

    /// Drops every waiting sample.
    pub fn clear(&mut self)
        ensures
            final(self).queued().len() == 0,
            final(self).capacity() == old(self).capacity(),
            final(self).prebuffer() == old(self).prebuffer(),
    {
        self.samples.clear();
    }

    /// The oldest waiting sample, taken out; none when the buffer is empty (the device
    /// then plays silence).
    pub fn next_sample(&mut self) -> (s: Option<i16>)
        ensures
            old(self).queued().len() == 0 ==> s is None && final(self).queued() == old(self).queued(),
            old(self).queued().len() > 0 ==> s == Some(old(self).queued()[0]) && final(self).queued()
                == old(self).queued().drop_first(),
            final(self).capacity() == old(self).capacity(),
            final(self).prebuffer() == old(self).prebuffer(),
    {
        self.samples.pop_front()
    }
}

} // verus!
