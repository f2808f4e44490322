use roomrtc::ip_text::ip_text_valid;

#[test]
fn ipv4_quads_are_addresses() {
    assert!(ip_text_valid("192.168.0.1"));
    assert!(ip_text_valid("0.0.0.0"));
    assert!(ip_text_valid("255.255.255.255"));
}

#[test]
fn malformed_ipv4_quads_are_refused() {
    assert!(!ip_text_valid("256.1.1.1"));
    assert!(!ip_text_valid("01.2.3.4"));
    assert!(!ip_text_valid("1.2.3"));
    assert!(!ip_text_valid("1.2.3.4.5"));
    assert!(!ip_text_valid("1.2.3.4x"));
    assert!(!ip_text_valid("1234.1.1.1"));
    assert!(!ip_text_valid(""));
    assert!(!ip_text_valid("not_an_ip"));
}

#[test]
fn ipv6_texts_are_addresses() {
    assert!(ip_text_valid("::"));
    assert!(ip_text_valid("::1"));
    assert!(ip_text_valid("fe80::1:2"));
    assert!(ip_text_valid("1:2:3:4:5:6:7:8"));
    assert!(ip_text_valid("::ffff:1.2.3.4"));
    assert!(ip_text_valid("1:2:3:4:5:6:1.2.3.4"));
    assert!(ip_text_valid("ABCD:ef01::"));
}

#[test]
fn malformed_ipv6_texts_are_refused() {
    assert!(!ip_text_valid("1::2::3"));
    assert!(!ip_text_valid("1:2:3:4:5:6:7:8:9"));
    assert!(!ip_text_valid("12345::"));
    assert!(!ip_text_valid("1.2.3.4::"));
    assert!(!ip_text_valid(":::"));
    assert!(!ip_text_valid("1:2:3:4:5:6:7:1.2.3.4"));
    assert!(!ip_text_valid("fe80::1%eth0"));
}
