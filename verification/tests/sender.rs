use roomrtc::app::sender::{AudioSender, VideoSender};
use roomrtc::protocols::h264_rtp::H264RtpPacketizer;
use roomrtc::protocols::srtp::{decrypt_rtp_payload, SrtpContext};

fn frame() -> Vec<u8> {
    let mut f = vec![0, 0, 0, 1, 0x67, 1, 2, 3];
    f.extend_from_slice(&[0, 0, 0, 1, 0x65]);
    f.extend_from_slice(&[7u8; 3000]);
    f
}

#[test]
fn video_packets_continue_the_numbering() {
    let mut s = VideoSender::new(1200, 96, 0x1234);
    let (pkts, payload) = s.send_rtp_packets(&frame(), None);
    let expected = H264RtpPacketizer::new(1200, 96, 0, 0x1234).packetize_frame(&frame(), 0);
    assert_eq!(pkts, expected);
    assert!(pkts.len() > 2);
    assert_eq!(payload as usize, pkts.iter().map(|p| p.len() - 12).sum::<usize>());
    assert_eq!(s.seq as usize, pkts.len());
    assert_eq!(s.packetizer.seq, s.seq);
    assert!(pkts.iter().all(|p| p.len() <= 1200));

    s.next_frame(3000);
    assert_eq!(s.timestamp, 3000);
    let (more, _) = s.send_rtp_packets(&frame(), None);
    assert_eq!(u16::from_be_bytes([more[0][2], more[0][3]]) as usize, pkts.len());
    assert_eq!(u32::from_be_bytes([more[0][4], more[0][5], more[0][6], more[0][7]]), 3000);
}

#[test]
fn video_packets_are_sealed_per_number() {
    let ctx = SrtpContext::new(&[5u8; 32]);
    let mut plain = VideoSender::new(1200, 96, 1);
    let mut sealed = VideoSender::new(1200, 96, 1);
    plain.seq = 65534;
    sealed.seq = 65534;
    let (p, pb) = plain.send_rtp_packets(&frame(), None);
    let (c, cb) = sealed.send_rtp_packets(&frame(), Some(&ctx));
    assert_eq!(pb, cb);
    assert_eq!(p.len(), c.len());
    for (i, (pp, cc)) in p.iter().zip(c.iter()).enumerate() {
        let seq = 65534u16.wrapping_add(i as u16);
        assert_eq!(&cc[..12], &pp[..12]);
        assert_eq!(cc.len(), pp.len() + 16);
        assert_eq!(decrypt_rtp_payload(Some(&ctx), &cc[12..], seq).unwrap(), pp[12..].to_vec());
    }
    assert_eq!(sealed.seq, 65534u16.wrapping_add(c.len() as u16));
}

#[test]
fn empty_frame_sends_nothing() {
    let mut s = VideoSender::new(1200, 96, 1);
    let (pkts, payload) = s.send_rtp_packets(&[], None);
    assert!(pkts.is_empty());
    assert_eq!(payload, 0);
    assert_eq!(s.seq, 0);
}

#[test]
fn audio_frame_is_one_packet() {
    let mut a = AudioSender::new(0xabc);
    let pkt = a.send_frame(&[1, 2, 3], 960, None);
    assert_eq!(pkt.len(), 15);
    assert_eq!(pkt[1], 111);
    assert_eq!(&pkt[2..4], &[0, 0]);
    assert_eq!(&pkt[12..], &[1, 2, 3]);
    assert_eq!((a.packets_sent, a.bytes_sent, a.timestamp, a.packetizer.seq), (1, 3, 960, 1));

    let ctx = SrtpContext::new(b"secret");
    let sealed = a.send_frame(&[9, 9], 960, Some(&ctx));
    assert_eq!(&sealed[2..4], &[0, 1]);
    assert_eq!(u32::from_be_bytes([sealed[4], sealed[5], sealed[6], sealed[7]]), 960);
    assert_eq!(decrypt_rtp_payload(Some(&ctx), &sealed[12..], 1).unwrap(), vec![9, 9]);
    assert_eq!((a.packets_sent, a.bytes_sent, a.timestamp), (2, 5, 1920));
}
