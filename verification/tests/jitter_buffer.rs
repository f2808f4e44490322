use roomrtc::protocols::jitter_buffer::JitterBuffer;
use roomrtc::protocols::rtp_packet::{RtpHeader, RtpParams};

fn header(seq: u16) -> RtpHeader {
    RtpHeader::new(
        RtpParams { version: 2, padding: false, extension: false, csrc_count: 0 },
        false,
        96,
        seq,
        seq as u32 * 3000,
        0x1234,
    )
}

fn pop_seq(b: &mut JitterBuffer) -> Option<u16> {
    b.pop().map(|(h, _)| h.seq)
}

#[test]
fn waits_until_min_buffering_then_delivers_in_order() {
    let mut b = JitterBuffer::new(10, 3);
    b.push(header(10), vec![10]);
    b.push(header(12), vec![12]);
    assert_eq!(pop_seq(&mut b), None);
    b.push(header(11), vec![11]);
    let (h, payload) = b.pop().unwrap();
    assert_eq!(h.seq, 10);
    assert_eq!(payload, vec![10]);
    assert_eq!(pop_seq(&mut b), Some(11));
    assert_eq!(pop_seq(&mut b), Some(12));
    assert_eq!(pop_seq(&mut b), None);
}

#[test]
fn late_packets_are_dropped() {
    let mut b = JitterBuffer::new(10, 1);
    b.push(header(100), vec![]);
    b.push(header(99), vec![]);
    assert_eq!(pop_seq(&mut b), Some(100));
    assert_eq!(pop_seq(&mut b), None);
}

#[test]
fn missing_packet_is_waited_for_until_full() {
    let mut b = JitterBuffer::new(3, 1);
    b.push(header(5), vec![]);
    assert_eq!(pop_seq(&mut b), Some(5));
    b.push(header(8), vec![]);
    b.push(header(7), vec![]);
    assert_eq!(pop_seq(&mut b), None);
    b.push(header(9), vec![]);
    // full: skips the lost 6 to the nearest packet ahead
    assert_eq!(pop_seq(&mut b), Some(7));
    assert_eq!(pop_seq(&mut b), Some(8));
    assert_eq!(pop_seq(&mut b), Some(9));
}

#[test]
fn sequence_numbers_wrap() {
    let mut b = JitterBuffer::new(10, 1);
    b.push(header(65535), vec![]);
    b.push(header(0), vec![]);
    b.push(header(1), vec![]);
    assert_eq!(pop_seq(&mut b), Some(65535));
    assert_eq!(pop_seq(&mut b), Some(0));
    assert_eq!(pop_seq(&mut b), Some(1));
}

#[test]
fn full_buffer_with_nothing_near_ahead_takes_the_lowest() {
    let mut b = JitterBuffer::new(1, 1);
    b.push(header(0), vec![]);
    assert_eq!(pop_seq(&mut b), Some(0));
    // next is 1; 32768 is 32767 ahead, too far to skip to, so it is taken as the lowest
    b.push(header(32768), vec![]);
    assert_eq!(pop_seq(&mut b), Some(32768));
    assert_eq!(pop_seq(&mut b), None);
}

#[test]
fn full_buffer_drops_new_packets() {
    let mut b = JitterBuffer::new(2, 1);
    b.push(header(1), vec![]);
    assert_eq!(pop_seq(&mut b), Some(1));
    b.push(header(3), vec![]);
    b.push(header(4), vec![]);
    b.push(header(5), vec![]);
    b.push(header(4), vec![44]);
    assert_eq!(pop_seq(&mut b), Some(3));
    assert_eq!(b.pop().map(|(h, p)| (h.seq, p)), Some((4, vec![44])));
    assert_eq!(pop_seq(&mut b), None);
}
