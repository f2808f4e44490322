use roomrtc::protocols::dtls::DtlsRole;
use roomrtc::config::SdpConfig;
use roomrtc::protocols::ice::IceAgent;
use roomrtc::sdp::sdp_utils::{generar_sdp_answer, generar_sdp_local, get_dtls_role, parse_remote_sdp};
use roomrtc::utils::parse_sdp_ice;

#[test]
fn remote_sdp_gives_first_video_candidate_and_fingerprint() {
    let sdp = "v=0\r\n\
a=fingerprint:sha-256 AA:BB\r\n\
m=audio 4000 RTP/AVP 0\r\n\
a=candidate:1 1 UDP 10 10.0.0.1 4000 typ host\r\n\
m=video 5000 RTP/AVP 97\r\n\
a=candidate:2 1 UDP 10 10.0.0.1 notaport typ host\r\n\
a=candidate:3 1 UDP 10 10.0.0.2 5000 typ host\r\n\
a=candidate:4 1 UDP 10 10.0.0.3 5002 typ host\r\n";
    let (ip, port, fp) = parse_remote_sdp(sdp).unwrap();
    assert_eq!(ip, "10.0.0.2");
    assert_eq!(port, 5000);
    assert_eq!(fp.as_deref(), Some("sha-256 AA:BB"));
}

#[test]
fn remote_sdp_without_video_candidate_gives_nothing() {
    assert!(parse_remote_sdp("v=0\nm=audio 1 RTP/AVP 0\na=candidate:1 1 UDP 1 1.1.1.1 9 typ host").is_none());
    assert!(parse_remote_sdp("").is_none());
    let (_, port, fp) = parse_remote_sdp("m=video 1 x\na=candidate:1 1 UDP 1 1.1.1.1 9 typ host").unwrap();
    assert_eq!(port, 9);
    assert!(fp.is_none());
}

#[test]
fn dtls_role_follows_setup_attribute() {
    assert_eq!(get_dtls_role("v=0\r\na=setup:actpass\r\n"), DtlsRole::Client);
    assert_eq!(get_dtls_role("v=0\r\na=setup:passive\r\n"), DtlsRole::Server);
    assert_eq!(get_dtls_role("v=0\r\na=setup:active\r\na=setup:passive\r\n"), DtlsRole::Server);
    assert_eq!(get_dtls_role("v=0\r\n"), DtlsRole::Client);
}


fn sample_agent() -> IceAgent {
    IceAgent::new("locufrag".to_string(), "locpwd".to_string(), true)
}

#[test]
fn generar_sdp_local_includes_credentials_and_ports() {
    let agent = sample_agent();
    let config = SdpConfig::default();
    let sdp = generar_sdp_local(&agent, "198.168.0.1", 50, 52, "sha-256 00:00:00:00:00:00:00:00:00:00:00:00:00:00:00:00:00:00:00:00:00:00:00:00:00:00:00:00:00:00:00:00", &config).expect("SDP local válido");

    assert!(sdp.contains("a=ice-ufrag:locufrag"));
    assert!(sdp.contains("a=ice-pwd:locpwd"));
    assert!(sdp.contains("m=audio 50"));
    assert!(sdp.contains("m=video 52"));
}

#[test]
fn generar_sdp_answer_usa_credenciales_remotas() {
    let remote_sdp = "v=0\n\
o=- 0 0 IN IP4 192.168.0.1\n\
s=-\n\
a=ice-ufrag:rem123\n\
a=ice-pwd:rempwd456789012345678\n\
a=candidate:1 1 udp 19216801 192.168.0.1 9000 typ host";
    let mut agent = sample_agent();

    let result = generar_sdp_answer(
        &remote_sdp.replace('\n', "\r\n"),
        &mut agent,
        "192.168.0.1",
        60,
        70,
        "sha-256 00:00:00:00:00:00:00:00:00:00:00:00:00:00:00:00:00:00:00:00:00:00:00:00:00:00:00:00:00:00:00:00",
        &SdpConfig::default(),
    )
    .expect("SDP answer válido");

    let remote = agent
        .remote_credentials
        .as_ref()
        .expect("Credenciales remotas set");
    assert_eq!(remote.ufrag, "rem123");
    assert_eq!(remote.pwd, "rempwd456789012345678");
    assert!(result.contains("a=ice-lite"));
    assert!(result.contains("m=video 70"));
}

#[test]
fn answer_without_credentials_is_refused() {
    let mut agent = sample_agent();
    let r = generar_sdp_answer("v=0\r\na=ice-ufrag:x\r\n", &mut agent, "1.2.3.4", 1, 2, "fp", &SdpConfig::default());
    assert_eq!(r, Err("No se encontraron credenciales ICE en el SDP remoto".to_string()));
    assert!(agent.remote_credentials.is_none());
}

#[test]
fn parse_sdp_ice_extracts_credentials_and_udp_candidate() {
    let sdp = "v=0\n\
o=- 0 0 IN IP4 192.168.0.1\n\
s=-\n\
a=ice-ufrag:local123\n\
a=ice-pwd:pwd1234\n\
a=candidate:1 1 udp 2130706431 192.168.0.1 3456 typ host\n\
a=candidate:2 1 tcp 1 10.0.0.1 9 typ host";

    let parsed = parse_sdp_ice(sdp);

    assert_eq!(parsed.ice_ufrag.as_deref(), Some("local123"));
    assert_eq!(parsed.ice_pwd.as_deref(), Some("pwd1234"));
    assert_eq!(parsed.candidates.len(), 1);

    let candidate = &parsed.candidates[0];
    assert_eq!(candidate.transport, "UDP");
    assert_eq!(candidate.ip.to_string(), "192.168.0.1");
    assert_eq!(candidate.port, 3456);
    assert_eq!(candidate.typ, "host");
}

#[test]
fn candidate_lines_missing_fields_are_skipped() {
    let parsed = parse_sdp_ice("  a=ice-pwd:  spaced  \na=candidate:1 x udp 1 10.0.0.1 9 typ host\na=candidate:1 1 udp 1 10.0.0.1 70000 typ host\na=candidate:7 2 UDP 5 10.0.0.9 99\n");
    assert_eq!(parsed.ice_pwd.as_deref(), Some("spaced"));
    assert!(parsed.ice_ufrag.is_none());
    assert_eq!(parsed.candidates.len(), 1);
    let c = &parsed.candidates[0];
    assert_eq!((c.foundation.as_str(), c.component_id, c.priority, c.port), ("7", 2, 5, 99));
    assert_eq!(c.typ, "");
}

#[test]
fn parse_sdp_ice_ignores_invalid_candidates() {
    let sdp = "a=candidate:1 1 udp 1 not_an_ip 9999 typ host";
    let parsed = parse_sdp_ice(sdp);

    assert!(parsed.ice_ufrag.is_none());
    assert!(parsed.ice_pwd.is_none());
    assert!(parsed.candidates.is_empty());
}

#[test]
fn candidate_addresses_may_be_ipv6() {
    let parsed = parse_sdp_ice(
        "a=candidate:1 1 udp 5 fe80::1 4000 typ host\na=candidate:2 1 udp 5 1.2.3.4:: 4000 typ host\na=candidate:3 1 udp 5 ::ffff:10.0.0.1 4001 typ srflx",
    );
    assert_eq!(parsed.candidates.len(), 2);
    assert_eq!(parsed.candidates[0].ip, "fe80::1");
    assert_eq!(parsed.candidates[1].ip, "::ffff:10.0.0.1");
    assert_eq!(parsed.candidates[1].typ, "srflx");
}
