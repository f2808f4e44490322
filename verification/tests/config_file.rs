use roomrtc::config_file::AppConfig;

#[test]
fn test_default_config() {
    let config = AppConfig::default();
    assert_eq!(config.camera.resolution_width, 1280);
    assert_eq!(config.camera.resolution_height, 720);
    assert_eq!(config.camera.framerate, 30);
    assert_eq!(config.rtp.payload_type, 97);
}

#[test]
fn test_parse_simple_config() {
    let content = r#"
[camera]
resolution_width=1280
resolution_height=720
framerate=60

[rtp]
payload_type=96
"#;
    let config = AppConfig::parse(content).unwrap();
    assert_eq!(config.camera.resolution_width, 1280);
    assert_eq!(config.camera.resolution_height, 720);
    assert_eq!(config.camera.framerate, 60);
    assert_eq!(config.rtp.payload_type, 96);
}

#[test]
fn test_parse_with_comments() {
    let content = r#"
# Comentarios al inicio del archivo
[camera]
# Configuración de la cámara
resolution_width=800
"#;
    let config = AppConfig::parse(content).unwrap();
    assert_eq!(config.camera.resolution_width, 800);
}

#[test]
fn later_lines_override_and_headers_ignore_case() {
    let content = "[CAMERA]\n  framerate = 15 \nframerate=+25\r\n[Media]\naudio_bitrate=-64000\n";
    let config = AppConfig::parse(content).unwrap();
    assert_eq!(config.camera.framerate, 25);
    assert_eq!(config.media.audio_bitrate, -64000);
    assert_eq!(config.camera.resolution_width, 1280);
}

#[test]
fn lists_texts_and_flags() {
    let content = "[sdp]\nusername = alice\nvideo_codecs= 96 , 97,98\nenable_srflx=true\n[server]\nbind_address=127.0.0.1:9000\n";
    let config = AppConfig::parse(content).unwrap();
    assert_eq!(config.sdp.username, "alice");
    assert_eq!(config.sdp.video_codecs, vec!["96".to_string(), "97".to_string(), "98".to_string()]);
    assert!(config.sdp.enable_srflx);
    assert_eq!(config.server.bind_address, "127.0.0.1:9000");
}

#[test]
fn ui_values_are_kept_with_their_lines() {
    let config = AppConfig::parse("[ui]\nframe_scaling=0.5\n\nframe_scaling = 2\n").unwrap();
    assert_eq!(config.ui.frame_scaling, vec![(2, "0.5".to_string()), (4, "2".to_string())]);
}

#[test]
fn line_without_equals_is_refused() {
    let e = AppConfig::parse("[camera]\nframerate\n").unwrap_err();
    assert_eq!(e.message, "Line 2: Valor invalido para format (expected key=value)");
}

#[test]
fn unknown_section_is_refused() {
    let e = AppConfig::parse("[video]\nfps=1\n").unwrap_err();
    assert_eq!(e.message, "Line 2: Seccion invalida [video]");
    let e = AppConfig::parse("key=value\n").unwrap_err();
    assert_eq!(e.message, "Line 1: Seccion invalida []");
}

#[test]
fn unknown_key_is_refused() {
    let e = AppConfig::parse("[tls]\npsk=x\ncert=y\n").unwrap_err();
    assert_eq!(e.message, "Line 3: Clave invalida para tls config: cert");
    let e = AppConfig::parse("[ui]\nzoom=2\n").unwrap_err();
    assert_eq!(e.message, "Line 2: Clave invalida para ui config: zoom");
}

#[test]
fn invalid_values_are_refused() {
    let e = AppConfig::parse("[rtp]\npayload_type=256\n").unwrap_err();
    assert_eq!(e.message, "Line 2: Valor invalido para payload_type: 256");
    let e = AppConfig::parse("[media]\naudio_bitrate=-+5\n").unwrap_err();
    assert_eq!(e.message, "Line 2: Valor invalido para audio_bitrate: -+5");
    let e = AppConfig::parse("[data_channel]\nenable_data_channels=yes\n").unwrap_err();
    assert_eq!(e.message, "Line 2: Valor invalido para enable_data_channels: yes");
}

#[test]
fn error_keeps_earlier_ui_values() {
    let e = AppConfig::parse("[ui]\nframe_scaling=abc\n[rtp]\nbad=1\n").unwrap_err();
    assert_eq!(e.message, "Line 4: Clave invalida para rtp config: bad");
    assert_eq!(e.ui.frame_scaling, vec![(2, "abc".to_string())]);
}

#[test]
fn signed_range_limits() {
    let ok = AppConfig::parse("[media]\naudio_bitrate=-2147483648\n").unwrap();
    assert_eq!(ok.media.audio_bitrate, i32::MIN);
    assert!(AppConfig::parse("[media]\naudio_bitrate=2147483648\n").is_err());
}
