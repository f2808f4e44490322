use roomrtc::protocols::rtp_packet::{RtpHeader, RtpParams};

fn build_params() -> RtpParams {
    RtpParams {
        version: 2,
        padding: false,
        extension: true,
        csrc_count: 3,
    }
}

#[test]
fn rtp_header_to_bytes_matches_expected_layout() {
    let header = RtpHeader::new(build_params(), true, 96, u16::MAX, 0x1122_3344, 0x5566_7788);

    let bytes = header.to_bytes();
    assert_eq!(bytes, [0x93, 0xE0, 0xFF, 0xFF, 0x11, 0x22, 0x33, 0x44, 0x55, 0x66, 0x77, 0x88]);
}

#[test]
fn rtp_header_roundtrip_from_bytes() {
    let header = RtpHeader::new(build_params(), false, 120, 0x3456, 0x0102_0304, 0x0A0B_0C0D);
    let bytes = header.to_bytes();
    let parsed = RtpHeader::from_bytes(&bytes).expect("valid RTP header");

    assert_eq!(parsed.version, header.version);
    assert_eq!(parsed.padding, header.padding);
    assert_eq!(parsed.extension, header.extension);
    assert_eq!(parsed.csrc_count, header.csrc_count);
    assert_eq!(parsed.marker, header.marker);
    assert_eq!(parsed.payload_type, header.payload_type);
    assert_eq!(parsed.seq, header.seq);
    assert_eq!(parsed.timestamp, header.timestamp);
    assert_eq!(parsed.ssrc, header.ssrc);
}

#[test]
fn from_bytes_rejects_short_buffer() {
    let err = RtpHeader::from_bytes(&[0x80, 0x20]).unwrap_err();
    assert!(err.contains("Buffer too small"));
}
