use roomrtc::protocols::rtcp::{
    build_bye, build_pli, build_sr_sdes, decode_compound, encode_compound, is_rtcp, middle_ntp32,
    ntp_from_unix, ReportBlock, RtcpHeader, RtcpPacket, SdesChunk, SdesItem, SenderReport, PT_RR, PT_SR, RTCP_VERSION,
};

#[test]
fn rtcp_header_to_from_bytes_roundtrip() {
    let header = RtcpHeader {
        version: RTCP_VERSION,
        padding: true,
        count: 2,
        pt: PT_SR,
        length: 1,
    };
    let mut packet = header.to_bytes().to_vec();
    packet.extend_from_slice(&[0u8; 4]);

    let (parsed, consumed) = RtcpHeader::from_bytes(&packet).expect("header expected");
    assert_eq!(parsed.version, header.version);
    assert_eq!(parsed.padding, header.padding);
    assert_eq!(parsed.count, header.count);
    assert_eq!(parsed.pt, header.pt);
    assert_eq!(parsed.length, header.length);
    assert_eq!(consumed, packet.len());
}

#[test]
fn report_block_serializes_expected_bytes() {
    let block = ReportBlock {
        ssrc: 0x1122_3344,
        fraction_lost: 0x55,
        cumulative_lost: 0x0123_4567,
        ext_highest_seq: 0x89AB_CDEF,
        jitter: 0x1234_5678,
        lsr: 0x9ABC_DEF0,
        dlsr: 0x1234_5678,
    };

    let bytes = block.as_bytes_from_ref();
    assert_eq!(bytes.len(), 24);
    assert_eq!(
        bytes,
        [
            0x11, 0x22, 0x33, 0x44, 0x55, 0x23, 0x45, 0x67, 0x89, 0xAB, 0xCD, 0xEF, 0x12, 0x34,
            0x56, 0x78, 0x9A, 0xBC, 0xDE, 0xF0, 0x12, 0x34, 0x56, 0x78,
        ]
    );
}

#[test]
fn middle_ntp32_extracts_expected_bits() {
    let value = middle_ntp32(0x1234_5678, 0x9ABC_DEF0);
    assert_eq!(value, 0x5678_9ABC);
}

#[test]
fn is_rtcp_validates_basic_header() {
    let header = RtcpHeader {
        version: RTCP_VERSION,
        padding: false,
        count: 0,
        pt: PT_RR,
        length: 0,
    };
    let packet = header.to_bytes();
    assert!(is_rtcp(&packet));

    let mut invalid = packet;
    invalid[0] = 0;
    assert!(!is_rtcp(&invalid));
}

#[test]
fn encode_decode_roundtrip_for_sender_report() {
    let report = ReportBlock {
        ssrc: 0x0000_0001,
        fraction_lost: 0x01,
        cumulative_lost: 0x0001_0203,
        ext_highest_seq: 0x0004_0506,
        jitter: 0x0007_0809,
        lsr: 0x000A_0B0C,
        dlsr: 0x000D_0E0F,
    };
    let sr = SenderReport {
        ssrc: 0xFFEEDDCC,
        ntp_secs: 1,
        ntp_frac: 2,
        rtp_ts: 3,
        packet_count: 4,
        byte_count: 5,
        reports: vec![report],
    };

    let encoded = encode_compound(&[RtcpPacket::SR(sr.clone())]);
    let decoded = decode_compound(&encoded);

    assert_eq!(decoded.len(), 1);
    match &decoded[0] {
        RtcpPacket::SR(parsed) => {
            assert_eq!(parsed.ssrc, sr.ssrc);
            assert_eq!(parsed.ntp_secs, sr.ntp_secs);
            assert_eq!(parsed.ntp_frac, sr.ntp_frac);
            assert_eq!(parsed.rtp_ts, sr.rtp_ts);
            assert_eq!(parsed.packet_count, sr.packet_count);
            assert_eq!(parsed.byte_count, sr.byte_count);
            assert_eq!(parsed.reports.len(), 1);
            assert_eq!(parsed.reports[0].ssrc, report.ssrc);
            assert_eq!(parsed.reports[0].fraction_lost, report.fraction_lost);
            assert_eq!(parsed.reports[0].cumulative_lost, report.cumulative_lost & 0x00FF_FFFF);
        }
        other => panic!("Unexpected packet: {:?}", other),
    }
}

#[test]
fn sr_sdes_bye_and_pli_are_decoded_back() {
    let compound = build_sr_sdes(7, 90000, 10, 1000, "alice@host");
    let decoded = decode_compound(&compound);
    assert_eq!(decoded.len(), 2);
    match &decoded[0] {
        RtcpPacket::SR(sr) => {
            assert_eq!(sr.ssrc, 7);
            assert_eq!(sr.rtp_ts, 90000);
            assert_eq!(sr.packet_count, 10);
            assert_eq!(sr.byte_count, 1000);
        }
        other => panic!("Unexpected packet: {:?}", other),
    }
    match &decoded[1] {
        RtcpPacket::SDES(chunks) => {
            assert!(chunks.is_empty(), "SDES contents are not decoded");
        }
        other => panic!("Unexpected packet: {:?}", other),
    }

    let bye = decode_compound(&build_bye(9, Some("bye")));
    match &bye[0] {
        RtcpPacket::BYE(b) => {
            assert_eq!(b.ssrcs, vec![9]);
            assert_eq!(b.reason.as_deref(), Some("bye"));
        }
        other => panic!("Unexpected packet: {:?}", other),
    }

    let pli = decode_compound(&build_pli(1, 2));
    match &pli[0] {
        RtcpPacket::PLI(p) => {
            assert_eq!(p.sender_ssrc, 1);
            assert_eq!(p.media_ssrc, 2);
        }
        other => panic!("Unexpected packet: {:?}", other),
    }
}

#[test]
fn ntp_from_unix_offsets_the_epoch() {
    let (secs, frac) = ntp_from_unix(0, 500_000_000);
    assert_eq!(secs, 2_208_988_800u64 as u32);
    assert_eq!(frac, 1u32 << 31);
}

#[test]
fn sdes_with_many_chunks_still_decodes() {
    let chunks: Vec<SdesChunk> = (0..33u32)
        .map(|i| SdesChunk { ssrc: i, items: vec![SdesItem { typ: 1, text: "x".to_string() }] })
        .collect();
    let packets = vec![RtcpPacket::SDES(chunks), RtcpPacket::BYE(roomrtc::protocols::rtcp::Bye { ssrcs: vec![5], reason: None })];
    let bytes = encode_compound(&packets);
    assert_eq!(bytes.len() % 4, 0);
    assert_eq!(bytes[0], 0x80 | (33 & 0x1F));
    let decoded = decode_compound(&bytes);
    assert_eq!(decoded.len(), 2);
    assert!(matches!(&decoded[0], RtcpPacket::SDES(c) if c.is_empty()));
    assert!(matches!(&decoded[1], RtcpPacket::BYE(b) if b.ssrcs == vec![5] && b.reason.is_none()));
}
