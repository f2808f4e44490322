use roomrtc::app::session::{CheckTimeout, ConnectionState, DtlsPhase, IceCheck, IcePhase, StunReply};
use roomrtc::certificate::CertificateInfo;
use roomrtc::protocols::dtls::DtlsRole;
use roomrtc::protocols::ice::{build_stun_binding_request, build_stun_success_response, parse_stun_binding_request};

fn caller() -> ConnectionState {
    ConnectionState::new(Some("cli".to_string()), Some("srv".to_string()), Some(DtlsRole::Client))
}

fn callee() -> ConnectionState {
    ConnectionState::new(Some("srv".to_string()), Some("cli".to_string()), Some(DtlsRole::Server))
}

#[test]
fn check_carries_both_fragments() {
    let mut st = caller();
    st.initialize_ice();
    assert_eq!(st.ice_phase, IcePhase::InProgress);
    let txid = [7u8; 12];
    let req = st.send_next_ice_check(txid);
    let parsed = parse_stun_binding_request(&req).unwrap();
    assert_eq!(parsed.txid, txid);
    assert_eq!(parsed.username.as_deref(), Some("cli:srv"));
    let check = st.current_check.unwrap();
    assert_eq!(check.txid, txid);
    assert_eq!(check.attempt_count, 1);
}

#[test]
fn check_without_fragments_has_no_username() {
    let mut st = ConnectionState::new(None, Some("srv".to_string()), None);
    let req = st.send_next_ice_check([1u8; 12]);
    assert_eq!(req, build_stun_binding_request(&[1u8; 12], None));
    assert!(parse_stun_binding_request(&req).unwrap().username.is_none());
}

#[test]
fn timeouts_retry_then_give_up() {
    let mut st = caller();
    assert_eq!(st.check_ice_timeouts(), CheckTimeout::NoCheck);
    st.initialize_ice();
    st.send_next_ice_check([2u8; 12]);
    assert_eq!(st.check_ice_timeouts(), CheckTimeout::Retry);
    assert_eq!(st.ice_phase, IcePhase::InProgress);
    st.current_check = Some(IceCheck { txid: [2u8; 12], attempt_count: 5 });
    assert_eq!(st.check_ice_timeouts(), CheckTimeout::GiveUp);
    assert_eq!(st.ice_phase, IcePhase::Failed);
    assert!(st.current_check.is_none());
}

#[test]
fn unsendable_check_fails_ice() {
    let mut st = caller();
    st.initialize_ice();
    st.fail_ice();
    assert_eq!(st.ice_phase, IcePhase::Failed);
}

#[test]
fn peers_complete_ice_with_one_check() {
    let mut a = caller();
    let mut b = callee();
    a.initialize_ice();
    let req = a.send_next_ice_check([9u8; 12]);

    let response = match b.handle_stun(&req, [10, 0, 0, 1], 5000) {
        StunReply::Respond { response, completed, start_sender } => {
            assert!(completed);
            assert!(!start_sender);
            response
        }
        _ => panic!("the check was not answered"),
    };
    assert_eq!(response, build_stun_success_response(&[9u8; 12], [10, 0, 0, 1], 5000));
    assert_eq!(b.ice_phase, IcePhase::Complete);

    match a.handle_stun(&response, [10, 0, 0, 2], 6000) {
        StunReply::Answered { start_sender } => assert!(!start_sender),
        _ => panic!("the answer was not recognised"),
    }
    assert_eq!(a.ice_phase, IcePhase::Complete);
    assert!(a.current_check.is_none());
    assert_eq!(a.dtls_due(), Some(DtlsRole::Client));
    assert_eq!(b.dtls_due(), Some(DtlsRole::Server));
}

#[test]
fn check_with_wrong_username_is_refused() {
    let mut b = callee();
    let req = build_stun_binding_request(&[3u8; 12], Some("srv:cli"));
    assert!(matches!(b.handle_stun(&req, [10, 0, 0, 1], 5000), StunReply::Refused));
    assert_eq!(b.ice_phase, IcePhase::NotStarted);
}

#[test]
fn check_during_checks_is_answered_without_completing() {
    let mut b = callee();
    b.initialize_ice();
    let req = build_stun_binding_request(&[3u8; 12], None);
    match b.handle_stun(&req, [10, 0, 0, 1], 5000) {
        StunReply::Respond { completed, .. } => assert!(!completed),
        _ => panic!("the check was not answered"),
    }
    assert_eq!(b.ice_phase, IcePhase::InProgress);
}

#[test]
fn other_packets_are_ignored() {
    let mut a = caller();
    assert!(matches!(a.handle_stun(&[0u8; 8], [1, 2, 3, 4], 1), StunReply::Ignored));
    assert!(a.handle_dtls(&[1, 2, 3]).is_none());
    assert_eq!(a.dtls_due(), None);
}

#[test]
fn peers_complete_dtls_and_start_media() {
    let cert_a = CertificateInfo::generate().unwrap();
    let cert_b = CertificateInfo::generate().unwrap();
    let mut a = caller();
    let mut b = callee();
    a.ice_phase = IcePhase::Complete;
    b.ice_phase = IcePhase::Complete;

    let hello = a
        .initialize_dtls(DtlsRole::Client, cert_a.fingerprint.clone(), Some(cert_b.fingerprint.clone()), cert_a.certificate.clone())
        .unwrap()
        .unwrap();
    assert_eq!(a.dtls_phase, DtlsPhase::InProgress);
    assert!(b
        .initialize_dtls(DtlsRole::Server, cert_b.fingerprint.clone(), Some(cert_a.fingerprint.clone()), cert_b.certificate.clone())
        .unwrap()
        .is_none());

    let mut to_b = Some(hello);
    let mut to_a: Option<Vec<u8>> = None;
    let mut secret_a = None;
    let mut secret_b = None;
    let mut started = (false, false);
    for _ in 0..6 {
        if let Some(pkt) = to_b.take() {
            let p = b.handle_dtls(&pkt).unwrap();
            to_a = p.reply.unwrap();
            if let Some(s) = p.secret {
                secret_b = Some(s.unwrap());
                started.1 = p.start_sender;
            }
        }
        if let Some(pkt) = to_a.take() {
            let p = a.handle_dtls(&pkt).unwrap();
            to_b = p.reply.unwrap();
            if let Some(s) = p.secret {
                secret_a = Some(s.unwrap());
                started.0 = p.start_sender;
            }
        }
    }
    assert_eq!(a.dtls_phase, DtlsPhase::Complete);
    assert_eq!(b.dtls_phase, DtlsPhase::Complete);
    let secret_a = secret_a.unwrap();
    assert_eq!(secret_a.len(), 32);
    assert_eq!(Some(secret_a), secret_b);
    assert_eq!(started, (true, true));
}

#[test]
fn malformed_binding_requests_are_refused() {
    let txid = [3u8; 12];
    let req = build_stun_binding_request(&txid, Some("a:b"));
    let parsed = parse_stun_binding_request(&req).unwrap();
    assert_eq!(parsed.txid, txid);
    assert_eq!(parsed.username.as_deref(), Some("a:b"));
    assert!(parse_stun_binding_request(&req[..19]).is_none());
    let mut wrong_type = req.clone();
    wrong_type[1] = 0x02;
    assert!(parse_stun_binding_request(&wrong_type).is_none());
    let mut wrong_cookie = req.clone();
    wrong_cookie[4] ^= 0xFF;
    assert!(parse_stun_binding_request(&wrong_cookie).is_none());
    assert!(parse_stun_binding_request(&req[..req.len() - 1]).is_none());
}
