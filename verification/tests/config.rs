use roomrtc::config::{
    CameraConfig, DataChannelConfig, IceConfig, LoggingConfig, MediaConfig, MultiplexerConfig,
    RtpConfig, SdpConfig, ServerConfig, TlsConfig,
};

#[test]
fn component_defaults() {
    let camera = CameraConfig::default();
    assert_eq!((camera.resolution_width, camera.resolution_height, camera.framerate), (1280, 720, 30));
    let rtp = RtpConfig::default();
    assert_eq!(rtp.payload_type, 97);
    assert_eq!(rtp.audio_frame_size, 960);
    assert_eq!(IceConfig::default().timeout_ms, 500);
    assert_eq!(MultiplexerConfig::default().recv_timeout_ms, 50);
    assert_eq!(MediaConfig::default().audio_bitrate, 32_000);
    assert_eq!(DataChannelConfig::default().sctp_port, 5000);
    assert_eq!(ServerConfig::default().bind_address, "0.0.0.0:7777");
    assert_eq!(LoggingConfig::default().log_file, "app.log");
    assert_eq!(TlsConfig::default().psk, "default_psk");
    let sdp = SdpConfig::default();
    assert_eq!(sdp.video_codecs, vec!["96".to_string(), "97".to_string()]);
    assert_eq!(sdp.audio_fmtp[0], "");
}
