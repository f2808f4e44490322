use roomrtc::protocols::h264_rtp::{split_nalus, H264RtpDepacketizer, H264RtpPacketizer};
use roomrtc::protocols::rtp_packet::RtpHeader;

fn annexb(units: &[&[u8]]) -> Vec<u8> {
    let mut out = Vec::new();
    for u in units {
        out.extend_from_slice(&[0, 0, 0, 1]);
        out.extend_from_slice(u);
    }
    out
}

#[test]
fn split_nalus_handles_both_start_codes() {
    let data = [0, 0, 0, 1, 0x67, 1, 2, 0, 0, 1, 0x68, 3, 0, 0, 0, 1, 0x65, 4, 5, 6];
    let nalus = split_nalus(&data);
    assert_eq!(nalus, vec![&[0x67u8, 1, 2][..], &[0x68, 3][..], &[0x65, 4, 5, 6][..]]);
    assert!(split_nalus(&[1, 2, 3, 4, 5]).is_empty());
    assert!(split_nalus(&[0, 0, 0, 1]).is_empty());
}

#[test]
fn small_units_travel_in_single_packets() {
    let mut p = H264RtpPacketizer::new(1200, 97, 10, 0xAABBCCDD);
    let frame = annexb(&[&[0x67, 1, 2], &[0x65, 9, 9, 9]]);
    let packets = p.packetize_frame(&frame, 3000);
    assert_eq!(packets.len(), 2);
    let h0 = RtpHeader::from_bytes(&packets[0]).unwrap();
    let h1 = RtpHeader::from_bytes(&packets[1]).unwrap();
    assert_eq!((h0.seq, h0.marker, h0.payload_type, h0.timestamp, h0.ssrc), (10, false, 97, 3000, 0xAABBCCDD));
    assert_eq!((h1.seq, h1.marker), (11, true));
    assert_eq!(&packets[0][12..], &[0x67, 1, 2]);
    assert_eq!(&packets[1][12..], &[0x65, 9, 9, 9]);
    assert_eq!(p.seq, 12);
}

#[test]
fn large_units_are_fragmented_and_reassembled() {
    let unit: Vec<u8> = std::iter::once(0x65u8).chain((0..100u32).map(|i| i as u8)).collect();
    let frame = annexb(&[&unit]);
    let mut p = H264RtpPacketizer::new(12 + 2 + 30, 97, 65535, 1);
    let packets = p.packetize_frame(&frame, 90);
    assert_eq!(packets.len(), 4);
    assert_eq!(p.seq, 3);
    for (i, pkt) in packets.iter().enumerate() {
        assert!(pkt.len() <= 44);
        assert_eq!(pkt[12], (0x65 & 0xE0) | 28);
        let fu = pkt[13];
        assert_eq!(fu & 0x80 != 0, i == 0);
        assert_eq!(fu & 0x40 != 0, i == 3);
        assert_eq!(fu & 0x1F, 5);
    }
    let mut d = H264RtpDepacketizer::new();
    let mut out = None;
    for pkt in &packets {
        let h = RtpHeader::from_bytes(pkt).unwrap();
        out = d.push_rtp(&h, &pkt[12..]);
    }
    assert_eq!(out, Some(frame));
}

#[test]
fn zero_room_for_fragments_drops_the_unit() {
    let mut p = H264RtpPacketizer::new(14, 97, 0, 1);
    let frame = annexb(&[&[0x65, 1, 2, 3]]);
    assert!(p.packetize_frame(&frame, 0).is_empty());
    assert_eq!(p.seq, 0);
}

#[test]
fn access_unit_is_emitted_on_marker_only_with_a_slice() {
    let mut d = H264RtpDepacketizer::default();
    let mut h = RtpHeader::from_bytes(&[0x80, 97, 0, 1, 0, 0, 0, 5, 0, 0, 0, 7]).unwrap();
    assert_eq!(d.push_rtp(&h, &[0x67, 1]), None);
    h.marker = true;
    h.seq = 2;
    assert_eq!(d.push_rtp(&h, &[0x68, 2]), None);
    h.seq = 3;
    assert_eq!(d.push_rtp(&h, &[0x65, 3]), Some(annexb(&[&[0x67, 1], &[0x68, 2], &[0x65, 3]])));
    assert_eq!(d.push_rtp(&h, &[]), None);
}

#[test]
fn stap_a_units_are_unpacked() {
    let mut d = H264RtpDepacketizer::new();
    let mut h = RtpHeader::from_bytes(&[0x80, 0xE1, 0, 1, 0, 0, 0, 9, 0, 0, 0, 7]).unwrap();
    h.marker = true;
    let payload = [24, 0, 2, 0x67, 1, 0, 3, 0x41, 2, 3];
    assert_eq!(d.push_rtp(&h, &payload), Some(annexb(&[&[0x67, 1], &[0x41, 2, 3]])));
}

#[test]
fn out_of_order_fragment_drops_the_reassembly() {
    let mut d = H264RtpDepacketizer::new();
    let mut h = RtpHeader::from_bytes(&[0x80, 97, 0, 10, 0, 0, 0, 9, 0, 0, 0, 7]).unwrap();
    assert_eq!(d.push_rtp(&h, &[0x7C, 0x85, 1, 2]), None);
    h.seq = 12;
    h.marker = true;
    assert_eq!(d.push_rtp(&h, &[0x7C, 0x45, 3, 4]), None);
}

#[test]
fn payload_fits_rejects_a_trailing_empty_stap_unit() {
    assert!(roomrtc::protocols::h264_rtp::payload_fits(&[0x65, 1, 2]));
    assert!(roomrtc::protocols::h264_rtp::payload_fits(&[]));
    assert!(roomrtc::protocols::h264_rtp::payload_fits(&[24, 0, 1, 5]));
    assert!(!roomrtc::protocols::h264_rtp::payload_fits(&[24, 0, 0]));
    assert!(!roomrtc::protocols::h264_rtp::payload_fits(&[24, 0, 1, 5, 0, 0]));
    assert!(roomrtc::protocols::h264_rtp::payload_fits(&[24, 0, 9, 5]));
}

#[test]
fn reassembly_does_not_depend_on_the_payload_type() {
    let big: Vec<u8> = std::iter::once(0x41u8).chain((0..50u32).map(|i| (i * 3) as u8)).collect();
    let frame = annexb(&[&[0x67, 1], &big, &[0x68, 2, 2]]);
    let mut p = H264RtpPacketizer::new(32, 200, 7, 9);
    let packets = p.packetize_frame(&frame, 1234);
    assert!(packets.len() > 3);
    let mut d = H264RtpDepacketizer::new();
    let mut outs = Vec::new();
    for pkt in &packets {
        let h = RtpHeader::from_bytes(pkt).unwrap();
        assert_eq!(h.payload_type, 200 & 0x7F);
        outs.push(d.push_rtp(&h, &pkt[12..]));
    }
    let last = outs.pop().unwrap();
    assert!(outs.iter().all(|o| o.is_none()));
    assert_eq!(last, Some(frame));
}

#[test]
fn streams_of_start_codes_and_units_split_back() {
    let data = [0, 0, 0, 1, 0x67, 0xAA, 0, 0, 1, 0x68, 0xBB];
    assert_eq!(split_nalus(&data), vec![&[0x67u8, 0xAA][..], &[0x68, 0xBB][..]]);
    let data = [0, 0, 1, 0x41, 0, 0, 2, 7, 0, 0, 0, 1, 9];
    assert_eq!(split_nalus(&data), vec![&[0x41u8, 0, 0, 2, 7][..], &[9][..]]);
    assert!(split_nalus(&[]).is_empty());
}
