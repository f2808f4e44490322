use roomrtc::app::multiplexer::{detect_packet_type, MultiplexerConfig, PacketType};

#[test]
fn test_stun_detection() {
    let mut buf = vec![0u8; 20];
    buf[4] = 0x21;
    buf[5] = 0x12;
    buf[6] = 0xA4;
    buf[7] = 0x42;

    match detect_packet_type(&buf, 20) {
        PacketType::Stun => (),
        other => panic!("Expected Stun, got {:?}", other),
    }
}

#[test]
fn test_dtls_detection() {
    let buf = vec![22u8, 0, 0, 0];
    match detect_packet_type(&buf, 4) {
        PacketType::Dtls => (),
        other => panic!("Expected Dtls, got {:?}", other),
    }
}

#[test]
fn test_rtp_h264_detection() {
    let mut buf = vec![0u8; 20];
    buf[0] = 2 << 6;
    buf[1] = 97;

    match detect_packet_type(&buf, 20) {
        PacketType::Rtp => (),
        other => panic!("Expected Rtp, got {:?}", other),
    }
}

#[test]
fn test_unknown_detection() {
    let buf = vec![255u8, 254, 253, 252];
    match detect_packet_type(&buf, 4) {
        PacketType::Unknown => (),
        other => panic!("Expected Unknown, got {:?}", other),
    }
}

#[test]
fn rtcp_and_opus_rtp_are_told_apart() {
    let mut rtcp = vec![0x80u8, 200, 0, 6];
    rtcp.extend_from_slice(&[0u8; 24]);
    assert_eq!(detect_packet_type(&rtcp, rtcp.len()), PacketType::Rtcp);

    let mut opus = vec![0x80u8, 111];
    opus.extend_from_slice(&[0u8; 10]);
    assert_eq!(detect_packet_type(&opus, 12), PacketType::Rtp);
}

#[test]
fn multiplexer_defaults() {
    let c = MultiplexerConfig::default();
    assert_eq!(c.recv_timeout_ms, 500);
    assert_eq!(c.buffer_size, 65_535);
}
