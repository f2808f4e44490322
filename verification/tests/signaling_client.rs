use roomrtc::app::file_transfer::FileMetadata;
use roomrtc::app::signaling_client::SignalingClient;
use roomrtc::protocols::message::{build_message, Message};

fn texts(c: &mut SignalingClient) -> Vec<String> {
    c.take_outgoing()
        .iter()
        .map(|m| {
            let f: Vec<(&str, &str)> = m.fields.iter().map(|(k, v)| (k.as_str(), v.as_str())).collect();
            build_message(&m.msg_type, &f)
        })
        .collect()
}

#[test]
fn requests_are_queued_in_order() {
    let mut c = SignalingClient::new();
    c.login("ana", "pw");
    c.register("bob", "pw2");
    c.list_users();
    c.invite("bob");
    c.accept_call("bob");
    c.reject_call("carl");
    c.send_offer("bob", "v=0");
    c.send_answer("bob", "v=1");
    c.send_local_sdp("bob", "v=2");
    c.end_call("bob");
    c.logout();
    assert_eq!(
        texts(&mut c),
        vec![
            "LOGIN|username=ana|password=pw",
            "REGISTER|username=bob|password=pw2",
            "LIST_USERS",
            "INVITE|to=bob",
            "ACCEPT_CALL|from=bob",
            "REJECT_CALL|from=carl",
            "OFFER|to=bob|sdp=v=0",
            "ANSWER|to=bob|sdp=v=1",
            "SDP|to=bob|sdp=v=2",
            "END_CALL|with=bob",
            "LOGOUT",
        ]
    );
    assert!(c.take_outgoing().is_empty());
}

#[test]
fn file_messages_carry_decimal_and_hex_fields() {
    let mut c = SignalingClient::new();
    let meta = FileMetadata { name: "a.txt".into(), size: 1234, sha256: [0xAB; 32] };
    c.send_offer_file("bob", 7, &meta);
    c.send_accept_file("ana", 65535);
    c.send_reject_file("ana", 0, "no");
    let sent = texts(&mut c);
    assert_eq!(
        sent[0],
        format!("OFFER_FILE|to=bob|stream_id=7|file_name=a.txt|file_size=1234|file_sha256={}", "ab".repeat(32))
    );
    assert_eq!(sent[1], "ACCEPT_FILE|to=ana|stream_id=65535");
    assert_eq!(sent[2], "REJECT_FILE|to=ana|stream_id=0|reason=no");
}

#[test]
fn received_messages_come_out_in_order() {
    let mut c = SignalingClient::new();
    assert!(c.try_recv().is_none());
    c.deliver(Message::new("A"));
    c.deliver(Message::new("B"));
    assert_eq!(c.try_recv().unwrap().msg_type, "A");
    assert_eq!(c.try_recv().unwrap().msg_type, "B");
    assert!(c.try_recv().is_none());
}
