use roomrtc::app::call::{call_event, CallEvent};
use roomrtc::protocols::message::Message;

fn msg(typ: &str, fields: &[(&str, &str)]) -> Message {
    let mut m = Message::new(typ);
    for (k, v) in fields {
        m.insert(k.to_string(), v.to_string());
    }
    m
}

#[test]
fn remote_descriptions_are_answered_by_the_callee_only() {
    match call_event(msg("OFFER", &[("sdp", "v=0")]), false) {
        CallEvent::RemoteSdp { sdp, send_answer } => {
            assert_eq!(sdp, "v=0");
            assert!(send_answer);
        }
        _ => panic!("expected a remote description"),
    }
    assert!(matches!(
        call_event(msg("ANSWER", &[("sdp", "x")]), true),
        CallEvent::RemoteSdp { send_answer: false, .. }
    ));
    assert!(matches!(call_event(msg("SDP", &[]), true), CallEvent::MissingSdp));
}

#[test]
fn file_answers_need_a_stream_id() {
    assert!(matches!(call_event(msg("ACCEPT_FILE", &[("stream_id", "7")]), true), CallEvent::FileAccepted(7)));
    assert!(matches!(call_event(msg("REJECT_FILE", &[("stream_id", "65535")]), true), CallEvent::FileRejected(65535)));
    assert!(matches!(
        call_event(msg("ACCEPT_FILE", &[("stream_id", "65536")]), true),
        CallEvent::MissingStreamId { accepted: true }
    ));
    assert!(matches!(call_event(msg("REJECT_FILE", &[]), true), CallEvent::MissingStreamId { accepted: false }));
}

#[test]
fn other_messages() {
    assert!(matches!(call_event(msg("CALL_ENDED", &[("with", "bob")]), true), CallEvent::PeerHungUp));
    match call_event(msg("OFFER_FILE", &[("stream_id", "3")]), false) {
        CallEvent::FileOffer(m) => assert_eq!(m.get("stream_id").map(|s| s.as_str()), Some("3")),
        _ => panic!("expected a file offer"),
    }
    assert!(matches!(call_event(msg("USER_LIST", &[]), false), CallEvent::Ignored));
}
