//! Audio frames captured from the microphone, and how samples are grouped into them.
use std::collections::VecDeque;
use vstd::prelude::*;

verus! {

/// A frame of captured audio: 16-bit PCM samples, their sample rate and channel count.
#[derive(Debug, Clone)]
pub struct AudioFrame {
    pub samples: Vec<i16>,
    pub sample_rate: u32,
    pub channels: u8,
}

/// How many frames wait for the sender at most (100 ms of audio).
pub const MAX_QUEUED_FRAMES: usize = 5;

/// The number of samples in 20 ms of audio at `sample_rate`.
pub fn frame_size_for(sample_rate: u32) -> (n: usize)
    ensures
        n == sample_rate * 20 / 1000,
{
    let n = (sample_rate as u64) * 20 / 1000;
    assert(n <= 0xffff_ffff);
    n as usize
}

/// Takes a frame of the first `frame_size` samples waiting in `buffer`, once there are
/// that many.
pub fn take_frame(buffer: &mut Vec<i16>, frame_size: usize, sample_rate: u32) -> (f: Option<AudioFrame>)
    ensures
        old(buffer)@.len() < frame_size ==> f is None && final(buffer)@ == old(buffer)@,
        old(buffer)@.len() >= frame_size ==> {
            &&& f matches Some(fr) && fr.samples@ == old(buffer)@.take(frame_size as int)
                && fr.sample_rate == sample_rate && fr.channels == 1
            &&& final(buffer)@ == old(buffer)@.skip(frame_size as int)
        },
{
    if buffer.len() < frame_size {
        return None;
    }
    let mut samples: Vec<i16> = Vec::new();
    let mut rest: Vec<i16> = Vec::new();
    let mut i: usize = 0;
    while i < buffer.len()
        invariant
            i <= buffer@.len(),
            buffer@ == old(buffer)@,
            frame_size <= buffer@.len(),
            i <= frame_size ==> samples@ == buffer@.take(i as int) && rest@.len() == 0,
            i > frame_size ==> samples@ == buffer@.take(frame_size as int) && rest@
                == buffer@.subrange(frame_size as int, i as int),
        decreases buffer@.len() - i,
    {
        if i < frame_size {
            samples.push(buffer[i]);
            assert(samples@ =~= buffer@.take(i + 1));
        } else {
            rest.push(buffer[i]);
            assert(rest@ =~= buffer@.subrange(frame_size as int, i + 1));
        }
        i += 1;
    }
    assert(buffer@.subrange(frame_size as int, buffer@.len() as int) =~= buffer@.skip(
        frame_size as int,
    ));
    proof {
        if buffer@.len() == frame_size {
            assert(rest@ =~= buffer@.skip(frame_size as int));
        }
    }
    *buffer = rest;
    Some(AudioFrame { samples, sample_rate, channels: 1 })
}

/// Queues a frame for the sender, keeping only the newest `MAX_QUEUED_FRAMES`.
pub fn enqueue_frame(queue: &mut VecDeque<AudioFrame>, frame: AudioFrame)
    ensures
        final(queue)@ == (if old(queue)@.len() + 1 > MAX_QUEUED_FRAMES {
            old(queue)@.push(frame).skip(old(queue)@.len() + 1 - MAX_QUEUED_FRAMES)
        } else {
            old(queue)@.push(frame)
        }),
{
    let ghost all = queue@.push(frame);
    queue.push_back(frame);
    let ghost mut dropped: int = 0;
    while queue.len() > MAX_QUEUED_FRAMES
        invariant
            0 <= dropped <= all.len(),
            queue@ == all.skip(dropped),
            dropped <= (if all.len() > MAX_QUEUED_FRAMES {
                all.len() - MAX_QUEUED_FRAMES
            } else {
                0
            }),
        decreases queue@.len(),
    {
        queue.pop_front();
        proof {
            assert(queue@ =~= all.skip(dropped + 1));
            dropped = dropped + 1;
        }
    }
    assert(all.skip(0) =~= all);
}

} // verus!
