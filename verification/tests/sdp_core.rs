use roomrtc::config::SdpConfig;
use roomrtc::protocols::ice::IceCandidate;
use roomrtc::sdp::sdp_core::{Sdp, SdpSessionParams};

fn build_sample_sdp(is_lite: bool) -> String {
    let config = SdpConfig::default();
    Sdp::new(&config)
        .build_sdp_with_ice(SdpSessionParams {
            ufrag: "localufrag",
            pwd: "localpwd",
            ip_str: "192.168.0.1",
            ports: &[4000, 5000],
            candidates: &[],
            is_lite,
            fingerprint: None,
            setup: None,
        })
        .expect("SDP válido")
}

#[test]
fn sdp_builder_includes_core_lines() {
    let sdp = build_sample_sdp(false);

    assert!(sdp.contains("v=0\r\n"));
    assert!(sdp.contains("a=ice-ufrag:localufrag\r\n"));
    assert!(sdp.contains("a=ice-pwd:localpwd\r\n"));
    assert!(sdp.contains("m=audio 4000 RTP/AVP"));
    assert!(sdp.contains("m=video 5000 RTP/AVP"));
    assert!(sdp.contains("a=mid:0\r\n"));
    assert!(sdp.contains("a=mid:1\r\n"));
    assert!(!sdp.contains("a=ice-lite\r\n"));
}

#[test]
fn sdp_builder_adds_ice_lite_when_requested() {
    let sdp = build_sample_sdp(true);
    assert!(sdp.contains("a=ice-lite\r\n"));
}

#[test]
fn sdp_builder_writes_the_whole_description() {
    let config = SdpConfig::default();
    let host = IceCandidate::host_candidate("1".to_string(), 1, "10.0.0.2".to_string(), 4000, 65535);
    let other = IceCandidate::host_candidate("2".to_string(), 1, "10.0.0.3".to_string(), 4100, 1);
    let mut srflx = IceCandidate::host_candidate("3".to_string(), 1, "8.8.4.4".to_string(), 6000, 1);
    srflx.typ = "srflx".to_string();
    srflx.rel_addr = Some("10.0.0.2".to_string());
    srflx.rel_port = Some(5000);
    let cands = [host.clone(), other, srflx.clone()];
    let sdp = Sdp::new(&config)
        .build_sdp_with_ice(SdpSessionParams {
            ufrag: "u",
            pwd: "p",
            ip_str: "10.0.0.2",
            ports: &[4000],
            candidates: &cands,
            is_lite: false,
            fingerprint: Some("sha-256 AA"),
            setup: Some("actpass"),
        })
        .unwrap();
    let expected = format!(
        "v=0\r\no=user 123456789 1 IN IP4 10.0.0.2\r\ns=-\r\nc=IN IP4 10.0.0.2\r\nt=0 0\r\n\
a=ice-ufrag:u\r\na=ice-pwd:p\r\na=fingerprint:sha-256 AA\r\na=setup:actpass\r\n\
m=audio 4000 RTP/AVP 0 111\r\na=rtpmap:0 PCMU/8000\r\na=rtpmap:111 opus/48000/2\r\n\
a=fmtp:111 minptime=10;useinbandfec=1\r\n\
a=candidate:1 1 UDP {} 10.0.0.2 4000 typ host\r\na=rtcp-mux\r\na=mid:0\r\n\
m=video 0 RTP/AVP 96 97\r\na=rtpmap:96 VP8/90000\r\na=rtpmap:97 H264/90000\r\n\
a=fmtp:97 profile-level-id=42e01f;packetization-mode=1\r\na=rtcp-mux\r\na=mid:1\r\n",
        host.priority
    );
    assert_eq!(sdp, expected);
}
