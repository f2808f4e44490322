use roomrtc::protocols::ice::{compute_candidate_priority, compute_pair_priority, IceAgent, IceCandidate, IceCredentials};

#[test]
fn test_ice_credentials_creation() {
    let credentials = IceCredentials {
        ufrag: "ufrag123".to_string(),
        pwd: "pwd123".to_string(),
    };

    assert_eq!(credentials.ufrag, "ufrag123");
    assert_eq!(credentials.pwd, "pwd123");
}

#[test]
fn candidate_priorities_follow_the_formula() {
    assert_eq!(compute_candidate_priority("host", 1, 65535), (126 << 24) + (65535 << 8) + 255);
    assert_eq!(compute_candidate_priority("srflx", 0, 0), (100 << 24) + 255);
    assert_eq!(compute_candidate_priority("other", 300, 1), (90 << 24) + 256);
    assert_eq!(compute_pair_priority(true, 5, 7), (5u64 << 32) + 7);
    assert_eq!(compute_pair_priority(false, 5, 7), (7u64 << 32) + 5);
}

#[test]
fn host_candidate_uses_udp_and_host_priority() {
    let c = IceCandidate::host_candidate("1".to_string(), 1, "192.168.0.2".to_string(), 4000, 10);
    assert_eq!(c.transport, "UDP");
    assert_eq!(c.typ, "host");
    assert_eq!(c.priority, compute_candidate_priority("host", 1, 10));
    assert_eq!(c.port, 4000);
}

#[test]
fn test_ice_creation() {
    let agent = IceAgent::new("ufrag123".to_string(), "pwd123".to_string(), true);

    assert_eq!(agent.credentials.ufrag, "ufrag123");
    assert_eq!(agent.credentials.pwd, "pwd123");
    assert!(agent.controlling);
    assert!(agent.local_candidates.is_empty());
    assert!(agent.remote_candidates.is_empty());
    assert!(agent.selected_candidates.is_none());
    assert!(agent.remote_credentials.is_none());
}

fn cand(foundation: &str, component_id: u32, priority: u32, port: u16) -> IceCandidate {
    IceCandidate {
        foundation: foundation.to_string(),
        component_id,
        priority,
        transport: "UDP".to_string(),
        ip: "10.0.0.1".to_string(),
        port,
        typ: "host".to_string(),
        rel_addr: None,
        rel_port: None,
        local_preference: 0,
    }
}

#[test]
fn candidate_pairs_are_sorted_by_priority_and_stable() {
    let mut agent = IceAgent::new("u".to_string(), "p".to_string(), true);
    agent.add_local_candidate(cand("l1", 1, 10, 1));
    agent.add_local_candidate(cand("l2", 1, 30, 2));
    agent.add_local_candidate(cand("l3", 2, 99, 3));
    agent.add_remote_candidate(cand("r1", 1, 5, 4));
    agent.add_remote_candidate(cand("r2", 1, 5, 5));
    let pairs = agent.candidate_pairs();
    let names: Vec<(String, String)> =
        pairs.iter().map(|p| (p.local.foundation.clone(), p.remote.foundation.clone())).collect();
    assert_eq!(
        names,
        vec![
            ("l2".to_string(), "r1".to_string()),
            ("l2".to_string(), "r2".to_string()),
            ("l1".to_string(), "r1".to_string()),
            ("l1".to_string(), "r2".to_string()),
        ]
    );
    assert_eq!(pairs[0].priority, (30u64 << 32) + 5);
    let controlled = IceAgent { controlling: false, ..agent };
    assert_eq!(controlled.candidate_pairs()[0].priority, (5u64 << 32) + 30);
}

#[test]
fn host_candidates_get_foundations_and_preferences() {
    let mut agent = IceAgent::new("u".to_string(), "p".to_string(), false);
    let next = agent.add_host_candidate("192.168.1.2".to_string(), 5000, 0);
    assert_eq!(next, 1);
    let next = agent.add_host_candidate("192.168.1.2".to_string(), 5002, next);
    assert_eq!(next, 2);
    let c0 = &agent.local_candidates[0];
    let c1 = &agent.local_candidates[1];
    assert_eq!((c0.foundation.as_str(), c0.local_preference), ("host-1", 65535));
    assert_eq!((c1.foundation.as_str(), c1.local_preference), ("host-2", 65534));
    assert_eq!(c0.priority, (126 << 24) + (65535 << 8) + 255);
    assert_eq!(c1.port, 5002);
    assert_eq!(agent.foundation_counter, 2);
}

#[test]
fn generated_credentials_are_alphanumeric() {
    let c = IceAgent::generate_credentials();
    assert_eq!(c.ufrag.len(), 8);
    assert_eq!(c.pwd.len(), 24);
    assert!(c.ufrag.chars().chain(c.pwd.chars()).all(|ch| ch.is_ascii_alphanumeric()));
}

#[test]
fn reset_forgets_the_peer() {
    let mut agent = IceAgent::new("u".to_string(), "p".to_string(), true);
    agent.set_remote_credentials("ru".to_string(), "rp".to_string());
    agent.add_remote_candidate(cand("r", 1, 1, 1));
    agent.reset_for_new_connection();
    assert!(agent.remote_credentials.is_none());
    assert!(agent.remote_candidates.is_empty());
}
