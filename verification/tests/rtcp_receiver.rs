use roomrtc::protocols::rtcp_receiver::RtcpRecvState;
use roomrtc::protocols::rtp_packet::{RtpHeader, RtpParams};

fn make_header(seq: u16, ts: u32) -> RtpHeader {
    RtpHeader::new(
        RtpParams {
            version: 2,
            padding: false,
            extension: false,
            csrc_count: 0,
        },
        false,
        96,
        seq,
        ts,
        0x1234_5678,
    )
}

#[test]
fn new_initializes_expected_state() {
    let state = RtcpRecvState::new(321);
    assert_eq!(state.received, 0);
    assert_eq!(state.highest_seq, 321);
    assert_eq!(state.highest_ext_seq, 321u32);
    assert!(state.prev_rtp_ts.is_none());
}

#[test]
fn on_rtp_updates_counters_and_rr_values() {
    let mut state = RtcpRecvState::new(1000);

    assert_eq!(state.on_rtp(&make_header(1000, 10_000)), None);
    assert_eq!(state.received, 1);
    assert_eq!(state.highest_seq, 1000);
    assert_eq!(state.highest_ext_seq, 1000);

    let rr_first = state.build_rr_block(0, 0);
    assert_eq!(rr_first.fraction_lost, 0);
    assert_eq!(rr_first.cumulative_lost, 0);
    assert_eq!(rr_first.ext_highest_seq, 1000);

    assert_eq!(state.on_rtp(&make_header(1001, 5_000)), Some(5_000u32.wrapping_sub(10_000)));

    assert_eq!(state.received, 2);
    assert_eq!(state.highest_seq, 1001);
    assert_eq!(state.highest_ext_seq, 1001);

    let rr_second = state.build_rr_block(0, 0);
    assert_eq!(rr_second.fraction_lost, 0);
    assert_eq!(rr_second.cumulative_lost, 0);
    assert_eq!(rr_second.ext_highest_seq, 1001);
}

#[test]
fn wrap_starts_a_new_cycle_and_losses_are_counted() {
    let mut state = RtcpRecvState::new(65530);
    state.on_rtp(&make_header(65530, 0));
    state.on_rtp(&make_header(65535, 0));
    state.on_rtp(&make_header(3, 0));
    assert_eq!(state.cycles, 65536);
    assert_eq!(state.highest_seq, 65535);
    assert_eq!(state.highest_ext_seq, 65536 + 65535);
    // the highest number stays 65535, so the next low number counts another cycle
    state.on_rtp(&make_header(4, 0));
    assert_eq!(state.highest_seq, 65535);
    assert_eq!(state.highest_ext_seq, 2 * 65536 + 65535);
    // expected 196607 - 65530 + 1 = 131078, received 4
    state.last_sr_mid = Some(0xABCD);
    let rb = state.build_rr_block(7, 9);
    assert_eq!(rb.cumulative_lost, 131074);
    assert_eq!(rb.fraction_lost, 255);
    assert_eq!((rb.jitter, rb.lsr, rb.dlsr), (7, 0xABCD, 9));
    let again = state.build_rr_block(7, 9);
    assert_eq!(again.fraction_lost, 0);
}

#[test]
fn fraction_lost_is_a_fraction_of_256() {
    let mut state = RtcpRecvState::new(0);
    state.on_rtp(&make_header(0, 0));
    state.on_rtp(&make_header(3, 0));
    // expected 4, received 2: half lost
    let rb = state.build_rr_block(0, 0);
    assert_eq!(rb.fraction_lost, 128);
    assert_eq!(rb.cumulative_lost, 2);
}
