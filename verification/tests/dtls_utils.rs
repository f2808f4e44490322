use roomrtc::protocols::dtls_utils::{format_fingerprint, generate_fingerprint, parse_fingerprint};

#[test]
fn test_format_fingerprint() {
    let hash = vec![0x12, 0x34, 0x56, 0x78];
    let fingerprint = format_fingerprint(&hash);
    assert_eq!(fingerprint, "sha-256 12:34:56:78");
}

#[test]
fn test_parse_fingerprint() {
    let fingerprint = "sha-256 12:34:56:78:90:AB:CD:EF:12:34:56:78:90:AB:CD:EF:12:34:56:78:90:AB:CD:EF:12:34:56:78:90:AB:CD:EF";
    let parsed = parse_fingerprint(fingerprint);
    assert!(parsed.is_some());
    let hash = parsed.unwrap();
    assert_eq!(hash.len(), 32);
    assert_eq!(hash[0], 0x12);
    assert_eq!(hash[31], 0xEF);
}

#[test]
fn test_generate_and_parse() {
    let data = b"test certificate";
    let fingerprint = generate_fingerprint(data);
    assert!(fingerprint.starts_with("sha-256 "));

    let parsed = parse_fingerprint(&fingerprint);
    assert!(parsed.is_some());
}

#[test]
fn format_then_parse_gives_the_digest_back() {
    let digest: Vec<u8> = (0u8..32).map(|i| i.wrapping_mul(37)).collect();
    let text = format_fingerprint(&digest);
    assert_eq!(parse_fingerprint(&text), Some(digest));
}

#[test]
fn format_of_empty_digest_is_the_prefix() {
    assert_eq!(format_fingerprint(&[]), "sha-256 ");
    assert_eq!(format_fingerprint(&[0x0a, 0xff]), "sha-256 0A:FF");
}

#[test]
fn parse_rejects_wrong_shapes() {
    let ok = "sha-256 ".to_string() + &vec!["00"; 32].join(":");
    assert!(parse_fingerprint(&ok).is_some());
    assert!(parse_fingerprint("sha-256").is_none());
    assert!(parse_fingerprint(&ok.replace("sha-256", "sha-1")).is_none());
    let short = "sha-256 ".to_string() + &vec!["00"; 31].join(":");
    assert!(parse_fingerprint(&short).is_none());
    let bad = "sha-256 ".to_string() + &vec!["0g"; 32].join(":");
    assert!(parse_fingerprint(&bad).is_none());
    let plus = "sha-256 ".to_string() + &vec!["+f"; 32].join(":");
    assert_eq!(parse_fingerprint(&plus), Some(vec![0x0f; 32]));
    let big = "sha-256 ".to_string() + &vec!["100"; 32].join(":");
    assert!(parse_fingerprint(&big).is_none());
}

#[test]
fn short_fingerprints_are_refused() {
    assert!(parse_fingerprint("sha-256 12:34:56:78").is_none());
    let extra = "sha-256 ".to_string() + &vec!["AB"; 33].join(":");
    assert!(parse_fingerprint(&extra).is_none());
}
