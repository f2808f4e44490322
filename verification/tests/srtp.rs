use roomrtc::certificate::CertificateInfo;
use roomrtc::protocols::dtls::DtlsAgent;
use roomrtc::protocols::srtp::{decrypt_rtp_payload, encrypt_rtp_packet, SrtpContext};

#[test]
fn test_encrypt_decrypt_roundtrip() {
    let master_secret = b"test_master_secret_32_bytes_long";
    let srtp = SrtpContext::new(master_secret);

    let payload = b"Hello, this is test H.264 video data";
    let seq = 1000u16;

    let encrypted = srtp.encrypt_payload(payload, seq);
    assert_ne!(encrypted, payload.to_vec(), "Encrypted should differ from plaintext");

    let decrypted = srtp.decrypt_payload(&encrypted, seq).expect("Decryption failed");
    assert_eq!(decrypted, payload.to_vec(), "Decrypted should match original");
}

#[test]
fn test_different_seq_produces_different_ciphertext() {
    let master_secret = b"test_master_secret_32_bytes_long";
    let srtp = SrtpContext::new(master_secret);

    let payload = b"Same payload data";
    let encrypted1 = srtp.encrypt_payload(payload, 1000);
    let encrypted2 = srtp.encrypt_payload(payload, 1001);

    assert_ne!(encrypted1, encrypted2, "Different sequence numbers should produce different ciphertexts");
}

#[test]
fn test_decrypt_with_wrong_seq_fails() {
    let master_secret = b"test_master_secret_32_bytes_long";
    let srtp = SrtpContext::new(master_secret);

    let payload = b"Test payload";
    let encrypted = srtp.encrypt_payload(payload, 1000);

    let result = srtp.decrypt_payload(&encrypted, 1001);
    assert!(result.is_err(), "Decryption with wrong seq should fail");
}

#[test]
fn test_decrypt_corrupted_ciphertext_fails() {
    let master_secret = b"test_master_secret_32_bytes_long";
    let srtp = SrtpContext::new(master_secret);

    let payload = b"Test payload";
    let mut encrypted = srtp.encrypt_payload(payload, 1000);

    if !encrypted.is_empty() {
        encrypted[0] ^= 0xFF;
    }

    let result = srtp.decrypt_payload(&encrypted, 1000);
    assert!(result.is_err(), "Decryption of corrupted data should fail due to auth tag verification");
}

#[test]
fn test_srtp_authentication_fails_on_corruption() {
    let master_secret = b"test_master_secret_32_bytes_long";
    let srtp = SrtpContext::new(master_secret);

    let payload = b"Test payload";
    let mut encrypted = srtp.encrypt_payload(payload, 1000);

    if !encrypted.is_empty() {
        encrypted[0] ^= 0xFF;
    }

    let result = srtp.decrypt_payload(&encrypted, 1000);
    assert!(result.is_err(), "Decriptación de datos corruptos debe fallar");
}

struct Peer {
    dtls_agent: DtlsAgent,
}

fn create_peer(_name: &str, is_server: bool) -> Peer {
    let cert_info = CertificateInfo::generate().expect("Failed to generate cert");
    let dtls_agent = if is_server {
        DtlsAgent::new_server(cert_info.fingerprint.clone(), None)
    } else {
        DtlsAgent::new_client(cert_info.fingerprint.clone(), None)
    };

    Peer { dtls_agent }
}

#[test]
fn test_srtp_bidirectional_encrypted_communication() {
    let mut peer_a = create_peer("PeerA", false);
    let mut peer_b = create_peer("PeerB", true);

    let client_random = peer_a.dtls_agent.client_random.clone();
    let server_random = peer_b.dtls_agent.server_random.clone();
    peer_a.dtls_agent.server_random = server_random;
    peer_b.dtls_agent.client_random = client_random;

    peer_a.dtls_agent.fingerprint_verified = true;
    peer_b.dtls_agent.fingerprint_verified = true;
    peer_a.dtls_agent.compute_master_secret().ok();
    peer_b.dtls_agent.compute_master_secret().ok();

    let msg_ab = b"Message from A to B";
    let srtp_a = SrtpContext::new(peer_a.dtls_agent.get_master_secret());
    let enc_ab = srtp_a.encrypt_payload(msg_ab, 1000);
    let srtp_b = SrtpContext::new(peer_b.dtls_agent.get_master_secret());
    let dec_ab = srtp_b.decrypt_payload(&enc_ab, 1000).expect("B decrypts");
    assert_eq!(dec_ab, msg_ab.to_vec());

    let msg_ba = b"Message from B to A";
    let enc_ba = srtp_b.encrypt_payload(msg_ba, 2000);
    let dec_ba = srtp_a.decrypt_payload(&enc_ba, 2000).expect("A decrypts");
    assert_eq!(dec_ba, msg_ba.to_vec());
}

#[test]
fn test_srtp_nonce_uniqueness() {
    let mut peer_a = create_peer("PeerA", false);
    let mut peer_b = create_peer("PeerB", true);

    let client_random = peer_a.dtls_agent.client_random.clone();
    let server_random = peer_b.dtls_agent.server_random.clone();
    peer_a.dtls_agent.server_random = server_random;
    peer_b.dtls_agent.client_random = client_random;

    peer_a.dtls_agent.fingerprint_verified = true;
    peer_b.dtls_agent.fingerprint_verified = true;
    peer_a.dtls_agent.compute_master_secret().ok();
    peer_b.dtls_agent.compute_master_secret().ok();

    let payload = b"Test payload";
    let srtp = SrtpContext::new(peer_a.dtls_agent.get_master_secret());
    let enc1 = srtp.encrypt_payload(payload, 1000);
    let enc2 = srtp.encrypt_payload(payload, 1001);

    assert_ne!(enc1, enc2, "Diferentes sequences deben producir ciphertexts distintos");
}

#[test]
fn ciphertext_is_sixteen_bytes_longer() {
    let srtp = SrtpContext::new(b"k");
    assert_eq!(srtp.encrypt_payload(&[], 1).len(), 16);
    assert_eq!(srtp.encrypt_payload(&[0u8; 100], 1).len(), 116);
    let other = SrtpContext::new(b"other");
    let enc = srtp.encrypt_payload(b"abc", 5);
    assert!(other.decrypt_payload(&enc, 5).is_err());
}

#[test]
fn rtp_packets_keep_their_header_in_clear() {
    let ctx = SrtpContext::new(&[7u8; 32]);
    let mut packet = vec![0x80, 96, 0, 5, 0, 0, 0, 1, 0, 0, 0, 2];
    packet.extend_from_slice(b"payload");
    let protected = encrypt_rtp_packet(&packet, 5, &ctx);
    assert_eq!(&protected[..12], &packet[..12]);
    assert_eq!(protected.len(), packet.len() + 16);
    assert_ne!(&protected[12..19], b"payload");
    assert_eq!(decrypt_rtp_payload(Some(&ctx), &protected[12..], 5), Some(b"payload".to_vec()));
    assert_eq!(decrypt_rtp_payload(Some(&ctx), &protected[12..], 6), None);
    assert_eq!(decrypt_rtp_payload(None, b"plain", 6), Some(b"plain".to_vec()));
    assert_eq!(encrypt_rtp_packet(&[1, 2, 3], 1, &ctx), vec![1, 2, 3]);
}
