use roomrtc::protocols::ice::{IceAgent, IceCandidate};
use roomrtc::utils::{build_candidates_from_sdp, ice_check_pairs, parse_sdp_ice};

fn cand(component_id: u32, transport: &str, ip: &str, port: u16, priority: u32) -> IceCandidate {
    IceCandidate {
        foundation: "1".to_string(),
        component_id,
        priority,
        transport: transport.to_string(),
        ip: ip.to_string(),
        port,
        typ: "host".to_string(),
        rel_addr: None,
        rel_port: None,
        local_preference: 0,
    }
}

#[test]
fn candidates_keep_component_one_once_per_endpoint() {
    let all = vec![
        cand(1, "UDP", "10.0.0.1", 5000, 10),
        cand(2, "UDP", "10.0.0.1", 5001, 10),
        cand(1, "udp", "10.0.0.1", 5000, 20),
        cand(1, "TCP", "10.0.0.2", 5000, 10),
        cand(1, "udp", "10.0.0.3", 5000, 30),
    ];
    let list = build_candidates_from_sdp(&all);
    assert_eq!(list.len(), 2);
    assert_eq!((list[0].ip.as_str(), list[0].port, list[0].priority), ("10.0.0.1", 5000, 10));
    assert_eq!((list[1].ip.as_str(), list[1].port, list[1].priority), ("10.0.0.3", 5000, 30));
    assert!(build_candidates_from_sdp(&[]).is_empty());
}

#[test]
fn checks_take_the_peer_credentials_and_candidates() {
    let sdp = "v=0\r\na=ice-ufrag:peer\r\na=ice-pwd:secret\r\n\
               a=candidate:1 1 UDP 100 10.0.0.9 7000 typ host\r\n\
               a=candidate:2 1 UDP 200 10.0.0.8 7002 typ host\r\n";
    let parsed = parse_sdp_ice(sdp);
    let remote = build_candidates_from_sdp(&parsed.candidates);
    assert_eq!(remote.len(), 2);

    let mut agent = IceAgent::new("me".to_string(), "mine".to_string(), true);
    agent.add_local_candidate(cand(1, "UDP", "192.168.1.2", 4000, 50));
    let pairs = ice_check_pairs(&mut agent, &parsed, remote);
    let creds = agent.remote_credentials.as_ref().unwrap();
    assert_eq!((creds.ufrag.as_str(), creds.pwd.as_str()), ("peer", "secret"));
    assert_eq!(agent.remote_candidates.len(), 2);
    assert_eq!(pairs.len(), 2);
    assert_eq!(pairs[0].remote.port, 7002);
    assert_eq!(pairs[0].priority, (50u64 << 32) + 200);
    assert_eq!(pairs[1].remote.port, 7000);
}

#[test]
fn checks_without_both_credentials_keep_the_old_ones() {
    let parsed = parse_sdp_ice("a=ice-ufrag:peer\r\n");
    let mut agent = IceAgent::new("me".to_string(), "mine".to_string(), false);
    let pairs = ice_check_pairs(&mut agent, &parsed, Vec::new());
    assert!(agent.remote_credentials.is_none());
    assert!(pairs.is_empty());
}

#[test]
fn srflx_candidate_takes_the_host_preference() {
    let mut agent = IceAgent::new("me".to_string(), "mine".to_string(), true);
    agent.add_host_candidate("192.168.1.2".to_string(), 4000, 3);
    agent.add_srflx_candidate("192.168.1.2".to_string(), 4000, "203.0.113.7".to_string(), 61000);
    let c = agent.local_candidates.last().unwrap();
    assert_eq!(c.typ, "srflx");
    assert_eq!(c.foundation, "srflx-2");
    assert_eq!((c.ip.as_str(), c.port), ("203.0.113.7", 61000));
    assert_eq!((c.rel_addr.as_deref(), c.rel_port), (Some("192.168.1.2"), Some(4000)));
    assert_eq!(c.local_preference, 65532);
    assert_eq!(c.priority, (100 << 24) + (65532 << 8) + 255);

    agent.add_srflx_candidate("10.9.9.9".to_string(), 1, "203.0.113.8".to_string(), 2);
    assert_eq!(agent.local_candidates.last().unwrap().local_preference, 65535);
}
