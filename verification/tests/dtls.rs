use roomrtc::certificate::CertificateInfo;
use roomrtc::protocols::dtls::{DtlsAgent, DtlsHandshakeState, DtlsRole};
use std::time::{Duration, Instant};

#[test]
fn test_client_handshake() {
    let mut client = DtlsAgent::new_client(
        "sha-256 AA:BB:CC:DD".to_string(),
        Some("sha-256 11:22:33:44".to_string()),
    );

    assert_eq!(client.state, DtlsHandshakeState::Start);

    let hello = client.process_packet(&[]).unwrap().unwrap();
    assert!(!hello.is_empty());
    assert_eq!(client.state, DtlsHandshakeState::ClientHelloSent);

    assert!(client.process_packet(&[1, 2, 3]).is_ok());
    assert_eq!(client.state, DtlsHandshakeState::ServerHelloReceived);
}

#[test]
fn test_server_handshake() {
    let mut server = DtlsAgent::new_server(
        "sha-256 AA:BB:CC:DD".to_string(),
        Some("sha-256 11:22:33:44".to_string()),
    );

    assert_eq!(server.state, DtlsHandshakeState::Start);

    let response = server.process_packet(&[1, 2, 3, 4, 5, 6]).unwrap().unwrap();
    assert!(!response.is_empty());
    assert_eq!(server.state, DtlsHandshakeState::ClientHelloSent);
}

#[test]
fn test_retransmission() {
    let mut client = DtlsAgent::new_client(
        "sha-256 AA:BB:CC:DD".to_string(),
        Some("sha-256 11:22:33:44".to_string()),
    );

    assert!(client.check_retransmission().is_none());
    let hello = client.process_packet(&[]).unwrap().unwrap();
    assert!(client.last_flight.is_some());
    assert_eq!(client.retransmit_count, 0);
    assert!(client.check_retransmission().is_none());

    client.last_flight_timestamp = Some(Instant::now() - Duration::from_secs(1));

    let retransmitted = client.check_retransmission();
    assert!(retransmitted.is_some());
    assert_eq!(retransmitted.unwrap(), hello);
    assert_eq!(client.retransmit_count, 1);
    let _ = client.process_packet(&[0x16, 0x02, 0x00]);
    assert!(client.last_flight.is_none());
}

fn cert_message(der: &[u8]) -> Vec<u8> {
    let mut cert_msg = vec![0x16, 0x0b];
    cert_msg.extend_from_slice(b"Certificate");
    cert_msg.extend_from_slice(&(der.len() as u16).to_be_bytes());
    cert_msg.extend_from_slice(der);
    cert_msg
}

#[test]
fn test_dtls_certificate_validation_with_matching_fingerprint() {
    let cert_client = CertificateInfo::generate().expect("Fallo al generar cert cliente");
    let cert_server = CertificateInfo::generate().expect("Fallo al generar cert servidor");

    let mut client = DtlsAgent::new_client(
        cert_client.fingerprint.clone(),
        Some(cert_server.fingerprint.clone()),
    );

    let cert_msg = cert_message(&cert_server.certificate);

    let result = client
        .validate_certificate_message(&cert_msg)
        .expect("Validación debe completarse");

    assert!(result, "Validación debe tener éxito con certificado correcto");
    assert!(client.fingerprint_verified, "fingerprint_verified debe ser true");
}

#[test]
fn test_dtls_certificate_validation_with_mismatched_fingerprint() {
    let cert_client = CertificateInfo::generate().expect("Fallo al generar cert cliente");
    let cert_server = CertificateInfo::generate().expect("Fallo al generar cert servidor");
    let cert_attacker = CertificateInfo::generate().expect("Fallo al generar cert atacante");

    let mut client = DtlsAgent::new_client(
        cert_client.fingerprint.clone(),
        Some(cert_server.fingerprint.clone()),
    );

    let cert_msg = cert_message(&cert_attacker.certificate);

    let result = client
        .validate_certificate_message(&cert_msg)
        .expect("Validación debe completarse");

    assert!(!result, "Validación debe fallar con certificado incorrecto");
    assert!(!client.fingerprint_verified, "fingerprint_verified debe ser false");
}

#[test]
fn test_dtls_master_secret_derivation_from_randoms() {
    let cert_client = CertificateInfo::generate().expect("Fallo al generar cert cliente");
    let cert_server = CertificateInfo::generate().expect("Fallo al generar cert servidor");

    let mut client = DtlsAgent::new_client(cert_client.fingerprint.clone(), None);
    let mut server = DtlsAgent::new_server(cert_server.fingerprint.clone(), None);

    let client_random = client.client_random.clone();
    let server_random = server.server_random.clone();

    client.server_random = server_random.clone();
    server.client_random = client_random.clone();

    client.fingerprint_verified = true;
    server.fingerprint_verified = true;

    let client_secret = client.compute_master_secret().expect("Cliente debe derivar master_secret");
    let server_secret = server.compute_master_secret().expect("Servidor debe derivar master_secret");

    assert_eq!(client_secret, server_secret, "Ambos peers deben derivar IDÉNTICO master_secret");
    assert_eq!(client_secret.len(), 32, "Master secret debe tener 32 bytes");
}

#[test]
fn test_dtls_handshake_complete_flow() {
    let cert_client = CertificateInfo::generate().expect("Fallo al generar cert cliente");
    let cert_server = CertificateInfo::generate().expect("Fallo al generar cert servidor");

    let mut client = DtlsAgent::new_client(
        cert_client.fingerprint.clone(),
        Some(cert_server.fingerprint.clone()),
    );
    let mut server = DtlsAgent::new_server(
        cert_server.fingerprint.clone(),
        Some(cert_client.fingerprint.clone()),
    );

    let client_random = client.client_random.clone();
    let server_random = server.server_random.clone();
    client.server_random = server_random.clone();
    server.client_random = client_random.clone();

    let cert_msg_server = cert_message(&cert_server.certificate);
    let client_validation = client
        .validate_certificate_message(&cert_msg_server)
        .expect("Validación cliente debe completarse");
    assert!(client_validation, "Cliente debe validar fingerprint del servidor");

    let cert_msg_client = cert_message(&cert_client.certificate);
    let server_validation = server
        .validate_certificate_message(&cert_msg_client)
        .expect("Validación servidor debe completarse");
    assert!(server_validation, "Servidor debe validar fingerprint del cliente");

    let client_secret = client.compute_master_secret().expect("Cliente debe derivar master_secret");
    let server_secret = server.compute_master_secret().expect("Servidor debe derivar master_secret");

    assert_eq!(client_secret, server_secret, "Master secrets deben ser idénticos");
    assert_eq!(client_secret.len(), 32, "Master secret debe tener 32 bytes");
    assert!(client.fingerprint_verified, "Cliente debe tener fingerprint verificado");
    assert!(server.fingerprint_verified, "Servidor debe tener fingerprint verificado");
}

#[test]
fn full_exchange_completes_both_sides_with_the_same_secret() {
    let cert_client = CertificateInfo::generate().unwrap();
    let cert_server = CertificateInfo::generate().unwrap();
    let mut client = DtlsAgent::new_client(
        cert_client.fingerprint.clone(),
        Some(cert_server.fingerprint.clone()),
    );
    let mut server = DtlsAgent::new_server(
        cert_server.fingerprint.clone(),
        Some(cert_client.fingerprint.clone()),
    );
    client.set_local_certificate(cert_client.certificate.clone());
    server.set_local_certificate(cert_server.certificate.clone());

    let hello = client.process_packet(&[]).unwrap().unwrap();
    let flight = server.process_packet(&hello).unwrap().unwrap();
    let reply = client.process_packet(&flight).unwrap().unwrap();
    assert_eq!(client.state, DtlsHandshakeState::FinishedSent);
    let finished = server.process_packet(&reply).unwrap().unwrap();
    assert!(server.is_complete());
    assert!(client.process_packet(&finished).unwrap().is_none());
    assert!(client.is_complete());

    assert!(client.fingerprint_verified && server.fingerprint_verified);
    assert_eq!(client.server_random, server.server_random);
    assert_eq!(client.client_random, server.client_random);
    let a = client.compute_master_secret().unwrap();
    let b = server.compute_master_secret().unwrap();
    assert_eq!(a, b);
    assert_eq!(client.get_master_secret(), &a[..]);
    assert!(client.get_validation_report().starts_with("✓ Fingerprint verified: "));
}

#[test]
fn fingerprint_in_place_of_certificate_is_compared() {
    let mut client = DtlsAgent::new_client("mine".to_string(), Some("sha-256 AB".to_string()));
    let mut msg = vec![0x16, 0x0b];
    msg.extend_from_slice(b"Certificate");
    msg.extend_from_slice(&[0, 0]);
    msg.extend_from_slice(b"sha-256 AB");
    assert_eq!(client.validate_certificate_message(&msg), Ok(true));
    assert_eq!(
        client.get_validation_report(),
        "✓ Fingerprint verified (from message): sha-256 AB"
    );
    assert_eq!(
        client.validate_certificate_message(&msg[..10]).unwrap_err(),
        "Certificate message too short"
    );
    let mut cut = vec![0x16, 0x0b];
    cut.extend_from_slice(b"Certificate");
    cut.extend_from_slice(&[0, 9, 1, 2]);
    assert_eq!(client.validate_certificate_message(&cut).unwrap_err(), "Datos del certificado truncados");
}

#[test]
fn errors_of_the_state_machine() {
    let mut server = DtlsAgent::new_server("s".to_string(), None);
    assert_eq!(server.process_packet(&[1, 2]).unwrap_err(), "Expected ClientHello");
    assert_eq!(server.role, DtlsRole::Server);
    let mut client = DtlsAgent::new_client("c".to_string(), None);
    assert!(client.process_packet(&[]).is_ok());
    assert_eq!(
        client.process_packet(&[0x16, 0x0e]).unwrap().map(|v| v.len()),
        Some(2 + 11 + 2 + 2 + 17 + 2 + 8)
    );
    client.state = DtlsHandshakeState::Complete;
    assert_eq!(client.process_packet(&[1]).unwrap_err(), "Invalid state for client: Complete");
    let mut unverified = DtlsAgent::new_client("c".to_string(), None);
    assert!(unverified.compute_master_secret().is_err());
    assert_eq!(
        unverified.get_validation_report(),
        "Fingerprint NOT verified (validation failed or not yet performed)"
    );
}

#[test]
fn resend_happens_only_when_expired() {
    let mut client = DtlsAgent::new_client("sha-256 AA".to_string(), None);
    assert!(client.resend_if_expired(true).is_none());
    let hello = client.process_packet(&[]).unwrap().unwrap();
    assert!(client.resend_if_expired(false).is_none());
    assert_eq!(client.retransmit_count, 0);
    for i in 1..=5 {
        assert_eq!(client.resend_if_expired(true), Some(hello.clone()));
        assert_eq!(client.retransmit_count, i);
    }
    assert!(client.resend_if_expired(true).is_none());
}
