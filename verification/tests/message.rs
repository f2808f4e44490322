use roomrtc::protocols::message::{build_message, parse_message, Message};

#[test]
fn build_then_parse() {
    let line = build_message("LOGIN", &[("username", "ana"), ("password", "x=y")]);
    assert_eq!(line, "LOGIN|username=ana|password=x=y");
    let msg = parse_message(&line).unwrap();
    assert_eq!(msg.msg_type, "LOGIN");
    assert_eq!(msg.get("username").map(String::as_str), Some("ana"));
    assert_eq!(msg.get("password").map(String::as_str), Some("x=y"));
    assert_eq!(msg.get("missing"), None);
}

#[test]
fn parse_trims_and_skips_pieces_without_equals() {
    let msg = parse_message("  OFFER | to = bob |junk| sdp=v=0 \n").unwrap();
    assert_eq!(msg.msg_type, "OFFER ");
    assert_eq!(msg.fields.len(), 2);
    assert_eq!(msg.get("to").unwrap(), "bob");
    assert_eq!(msg.get("sdp").unwrap(), "v=0");
}

#[test]
fn later_field_overrides_earlier_one_in_place() {
    let msg = parse_message("T|a=1|b=2|a=3").unwrap();
    assert_eq!(msg.fields, vec![("a".to_string(), "3".to_string()), ("b".to_string(), "2".to_string())]);
}

#[test]
fn empty_line_is_a_message_with_empty_type() {
    let msg = parse_message("").unwrap();
    assert_eq!(msg.msg_type, "");
    assert!(msg.fields.is_empty());
    assert_eq!(build_message("X", &[]), "X");
}

#[test]
fn insert_keeps_place() {
    let mut m = Message::new("T");
    m.insert("a".into(), "1".into());
    m.insert("b".into(), "2".into());
    m.insert("a".into(), "9".into());
    assert_eq!(m.fields[0], ("a".to_string(), "9".to_string()));
    assert_eq!(m.fields.len(), 2);
}
