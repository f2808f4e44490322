use roomrtc::audio_output::PlaybackBuffer;
use roomrtc::microphone::{enqueue_frame, frame_size_for, take_frame, AudioFrame, MAX_QUEUED_FRAMES};
use std::collections::VecDeque;

#[test]
fn frame_size_is_20_ms() {
    assert_eq!(frame_size_for(48000), 960);
    assert_eq!(frame_size_for(16000), 320);
    assert_eq!(frame_size_for(8000), 160);
}

#[test]
fn frames_are_cut_once_full() {
    let mut buffer: Vec<i16> = vec![1, 2, 3];
    assert!(take_frame(&mut buffer, 4, 8000).is_none());
    assert_eq!(buffer, vec![1, 2, 3]);
    buffer.extend([4, 5]);
    let f = take_frame(&mut buffer, 4, 8000).unwrap();
    assert_eq!(f.samples, vec![1, 2, 3, 4]);
    assert_eq!((f.sample_rate, f.channels), (8000, 1));
    assert_eq!(buffer, vec![5]);
}

#[test]
fn queue_keeps_the_newest_frames() {
    let mut q: VecDeque<AudioFrame> = VecDeque::new();
    for i in 0..8i16 {
        enqueue_frame(&mut q, AudioFrame { samples: vec![i], sample_rate: 48000, channels: 1 });
    }
    assert_eq!(q.len(), MAX_QUEUED_FRAMES);
    let firsts: Vec<i16> = q.iter().map(|f| f.samples[0]).collect();
    assert_eq!(firsts, vec![3, 4, 5, 6, 7]);
}

#[test]
fn playback_starts_with_silence_and_is_bounded() {
    let mut b = PlaybackBuffer::new(1000);
    assert_eq!(b.buffer_size(), 0);
    b.play_samples(&[7; 500]);
    assert_eq!(b.buffer_size(), 500);
    // 200 of silence + 500 queued; the limit is 2000
    b.play_samples(&[9; 1500]);
    assert_eq!(b.buffer_size(), 1800);
    assert_eq!(b.next_sample(), Some(7));
    b.clear();
    assert_eq!(b.buffer_size(), 0);
    assert_eq!(b.next_sample(), None);
}

#[test]
fn playback_drains_in_order() {
    let mut b = PlaybackBuffer::empty(4);
    b.play_samples(&[1, 2, 3]);
    assert_eq!(b.next_sample(), Some(1));
    b.play_samples(&[4, 5, 6, 7, 8, 9]);
    // holds at most 8: [2..=9] is 8 samples
    let mut out = Vec::new();
    while let Some(s) = b.next_sample() {
        out.push(s);
    }
    assert_eq!(out, vec![2, 3, 4, 5, 6, 7, 8, 9]);
}
