use roomrtc::certificate::CertificateInfo;
use roomrtc::protocols::dtls_utils::generate_fingerprint;

#[test]
fn test_generate_certificate() {
    let cert_info = CertificateInfo::generate().expect("Certificate generation failed");

    assert!(!cert_info.certificate.is_empty());
    assert!(!cert_info.private_key.is_empty());
    assert!(cert_info.fingerprint.starts_with("sha-256 "));
}

#[test]
fn test_verify_fingerprint() {
    let cert_info = CertificateInfo::generate().expect("Certificate generation failed");

    let is_valid = CertificateInfo::verify_fingerprint(&cert_info.certificate, &cert_info.fingerprint)
        .expect("Fingerprint verification failed");

    assert!(is_valid);
}

#[test]
fn test_fingerprint_mismatch() {
    let cert_info = CertificateInfo::generate().expect("Certificate generation failed");
    let wrong_fingerprint = "sha-256 00:00:00:00:00:00:00:00:00:00:00:00:00:00:00:00:00:00:00:00:00:00:00:00:00:00:00:00:00:00:00:00";

    let is_valid = CertificateInfo::verify_fingerprint(&cert_info.certificate, wrong_fingerprint)
        .expect("Fingerprint verification failed");

    assert!(!is_valid);
}

#[test]
fn generated_fingerprint_is_that_of_the_certificate() {
    let cert = CertificateInfo::generate().expect("certificate");
    assert_eq!(cert.fingerprint, generate_fingerprint(&cert.certificate));
}

#[test]
fn certificate_subject_names() {
    let (names, cn) = roomrtc::certificate::certificate_subject();
    assert_eq!(names, vec!["localhost".to_string(), "127.0.0.1".to_string()]);
    assert_eq!(cn, "RoomRTC");
}
