use roomrtc::app::receiver::{route_rtp, RtcpStates, RtpRoute, VideoReceiver};
use roomrtc::protocols::h264_rtp::H264RtpPacketizer;
use roomrtc::protocols::rtcp::{build_rr, decode_compound, middle_ntp32, ReportBlock, RtcpPacket, SenderReport};
use roomrtc::protocols::rtp_packet::{RtpHeader, RtpParams};

fn header(version: u8, pt: u8, seq: u16, ts: u32, ssrc: u32) -> RtpHeader {
    RtpHeader::new(RtpParams { version, padding: false, extension: false, csrc_count: 0 }, false, pt, seq, ts, ssrc)
}

fn packet(h: &RtpHeader) -> Vec<u8> {
    let mut p = h.to_bytes().to_vec();
    p.extend_from_slice(&[1, 2, 3]);
    p
}

#[test]
fn packets_go_to_their_stream() {
    match route_rtp(&packet(&header(2, 96, 7, 90, 5)), 96, 111) {
        RtpRoute::Video(h) => assert_eq!((h.seq, h.timestamp, h.ssrc), (7, 90, 5)),
        _ => panic!("not routed to video"),
    }
    assert!(matches!(route_rtp(&packet(&header(2, 111, 1, 2, 3)), 96, 111), RtpRoute::Audio(_)));
    assert!(matches!(route_rtp(&packet(&header(2, 0, 1, 2, 3)), 96, 111), RtpRoute::Drop));
    assert!(matches!(route_rtp(&packet(&header(1, 96, 1, 2, 3)), 96, 111), RtpRoute::Drop));
    assert!(matches!(route_rtp(&[0x80, 96, 0, 1], 96, 111), RtpRoute::Drop));
    assert!(matches!(route_rtp(&packet(&header(2, 96, 1, 2, 3)), 96, 96), RtpRoute::Video(_)));
}

#[test]
fn sources_are_counted_apart() {
    let mut st = RtcpStates::new();
    assert_eq!(st.update_rtcp_state(&header(2, 96, 100, 1000, 1)), None);
    assert_eq!(st.update_rtcp_state(&header(2, 111, 5, 50, 2)), None);
    assert_eq!(st.update_rtcp_state(&header(2, 96, 102, 4000, 1)), Some(3000));
    let video = &st.states[&1];
    assert_eq!((video.base_seq, video.received, video.highest_seq), (100, 2, 102));
    assert_eq!(st.states[&2].received, 1);
}

fn sr(ssrc: u32) -> SenderReport {
    SenderReport { ssrc, ntp_secs: 0x1234_5678, ntp_frac: 0x9abc_def0, rtp_ts: 0, packet_count: 0, byte_count: 0, reports: Vec::new() }
}

#[test]
fn sender_report_is_answered_once_packets_arrived() {
    let mut st = RtcpStates::new();
    assert!(st.process_sr(&sr(9), 0, 0).is_none());
    assert_eq!(st.states[&9].last_sr_mid, Some(middle_ntp32(0x1234_5678, 0x9abc_def0)));

    st.update_rtcp_state(&header(2, 96, 10, 0, 1));
    st.update_rtcp_state(&header(2, 96, 13, 0, 1));
    let block = st.process_sr(&sr(1), 7, 3).unwrap();
    assert_eq!(block.ssrc, 1);
    assert_eq!(block.lsr, 0x5678_9abc);
    assert_eq!((block.jitter, block.dlsr), (7, 3));
    assert_eq!(block.cumulative_lost, 2);
    assert_eq!(block.fraction_lost, 128);
    assert_eq!(block.ext_highest_seq, 13);
    assert_eq!(st.states[&1].expected_prior, 4);
}

#[test]
fn periodic_report_only_for_known_sources() {
    let mut st = RtcpStates::new();
    assert!(st.periodic_report(4, 0, 0).is_none());
    st.update_rtcp_state(&header(2, 96, 1, 0, 4));
    let block = st.periodic_report(4, 11, 0).unwrap();
    assert_eq!((block.ssrc, block.jitter, block.cumulative_lost), (4, 11, 0));
}

#[test]
fn receiver_report_carries_the_block() {
    let block = ReportBlock { ssrc: 1, fraction_lost: 2, cumulative_lost: 3, ext_highest_seq: 4, jitter: 5, lsr: 6, dlsr: 7 };
    let bytes = build_rr(0xaabb, block);
    assert_eq!(bytes.len(), 32);
    match &decode_compound(&bytes)[..] {
        [RtcpPacket::RR(rr)] => {
            assert_eq!(rr.ssrc, 0xaabb);
            assert_eq!(rr.reports.len(), 1);
            assert_eq!((rr.reports[0].ssrc, rr.reports[0].dlsr), (1, 7));
        }
        _ => panic!("not one receiver report"),
    }
}

#[test]
fn video_packets_are_reordered_and_reassembled() {
    let mut frame = vec![0, 0, 0, 1, 0x67, 1, 2, 3];
    frame.extend_from_slice(&[0, 0, 0, 1, 0x65]);
    frame.extend_from_slice(&[7u8; 2500]);
    let packets = H264RtpPacketizer::new(1200, 96, 10, 0x42).packetize_frame(&frame, 9000);
    assert!(packets.len() >= 3);
    let mut rx = VideoReceiver::new(20, 1);
    let mut aus = Vec::new();
    let mut sources = Vec::new();
    let order: Vec<usize> = std::iter::once(0).chain((1..packets.len()).rev()).collect();
    for i in order {
        let h = RtpHeader::from_bytes(&packets[i]).unwrap();
        let (a, s) = rx.handle_video_rtp(h, packets[i][12..].to_vec());
        aus.extend(a);
        sources.extend(s);
    }
    assert_eq!(sources, vec![0x42; packets.len()]);
    assert_eq!(aus, vec![frame]);
}
