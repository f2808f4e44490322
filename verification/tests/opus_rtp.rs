use roomrtc::protocols::opus_rtp::{OpusRtpDepacketizer, OpusRtpPacketizer};
use roomrtc::protocols::rtp_packet::{RtpHeader, RtpParams};

#[test]
fn test_packetizer_creation() {
    let packetizer = OpusRtpPacketizer::new(54321, 0);
    assert_eq!(packetizer.payload_type, 111);
    assert_eq!(packetizer.ssrc(), 54321);
    assert_eq!(packetizer.sequence(), 0);
}

#[test]
fn test_packetize_simple() {
    let mut packetizer = OpusRtpPacketizer::new(12345, 100);

    let opus_frame = vec![0xAB; 50];
    let timestamp = 0;

    let rtp_packet = packetizer.packetize(&opus_frame, timestamp);

    assert_eq!(rtp_packet.len(), 62);

    let version = rtp_packet[0] >> 6;
    assert_eq!(version, 2);

    let payload_type = rtp_packet[1] & 0x7F;
    assert_eq!(payload_type, 111);

    let seq = u16::from_be_bytes([rtp_packet[2], rtp_packet[3]]);
    assert_eq!(seq, 100);

    let ts = u32::from_be_bytes([rtp_packet[4], rtp_packet[5], rtp_packet[6], rtp_packet[7]]);
    assert_eq!(ts, 0);

    let ssrc = u32::from_be_bytes([rtp_packet[8], rtp_packet[9], rtp_packet[10], rtp_packet[11]]);
    assert_eq!(ssrc, 12345);

    assert_eq!(&rtp_packet[12..], &opus_frame[..]);
}

#[test]
fn test_sequence_incrementing() {
    let mut packetizer = OpusRtpPacketizer::new(54321, 0);

    let opus_frame = vec![0; 100];

    for i in 0..10 {
        let packet = packetizer.packetize(&opus_frame, i * 960);
        let seq = u16::from_be_bytes([packet[2], packet[3]]);
        assert_eq!(seq, i as u16);
    }

    assert_eq!(packetizer.sequence(), 10);
}

#[test]
fn test_sequence_wrapping() {
    let mut packetizer = OpusRtpPacketizer::new(54321, 65535);

    let opus_frame = vec![0; 50];

    let packet1 = packetizer.packetize(&opus_frame, 0);
    let seq1 = u16::from_be_bytes([packet1[2], packet1[3]]);
    assert_eq!(seq1, 65535);

    let packet2 = packetizer.packetize(&opus_frame, 960);
    let seq2 = u16::from_be_bytes([packet2[2], packet2[3]]);
    assert_eq!(seq2, 0);

    assert_eq!(packetizer.sequence(), 1);
}

#[test]
fn test_timestamp_incrementing() {
    let mut packetizer = OpusRtpPacketizer::new(54321, 0);

    let opus_frame = vec![0; 100];

    for i in 0..5 {
        let timestamp = i * 960;
        let packet = packetizer.packetize(&opus_frame, timestamp);
        let ts = u32::from_be_bytes([packet[4], packet[5], packet[6], packet[7]]);
        assert_eq!(ts, timestamp);
    }
}

#[test]
fn test_depacketizer() {
    let depacketizer = OpusRtpDepacketizer::new();

    let opus_frame = vec![1, 2, 3, 4, 5, 6, 7, 8, 9, 10];

    let rtp_params = RtpParams {
        version: 2,
        padding: false,
        extension: false,
        csrc_count: 0,
    };
    let header = RtpHeader::new(rtp_params, false, 111, 0, 0, 12345);

    let result = depacketizer.depacketize(&header, &opus_frame);

    assert_eq!(result, opus_frame);
}

#[test]
fn test_roundtrip() {
    let mut packetizer = OpusRtpPacketizer::new(99999, 500);
    let depacketizer = OpusRtpDepacketizer::new();

    let original_opus = vec![0xDE, 0xAD, 0xBE, 0xEF, 0xCA, 0xFE];
    let timestamp = 12345;

    let rtp_packet = packetizer.packetize(&original_opus, timestamp);

    let header = RtpHeader::from_bytes(&rtp_packet).unwrap();
    let payload = &rtp_packet[12..];

    let recovered_opus = depacketizer.depacketize(&header, payload);

    assert_eq!(recovered_opus, original_opus);
    assert_eq!(header.payload_type, 111);
    assert_eq!(header.timestamp, timestamp);
    assert_eq!(header.seq, 500);
    assert_eq!(header.ssrc, 99999);
}

#[test]
fn test_large_opus_frame() {
    let mut packetizer = OpusRtpPacketizer::new(54321, 0);

    let large_frame = vec![0xAA; 1000];
    let packet = packetizer.packetize(&large_frame, 0);

    assert_eq!(packet.len(), 12 + 1000);
    assert_eq!(&packet[12..], &large_frame[..]);
}
