use roomrtc::protocols::data_channel::{is_valid_sctp_packet, ChannelState, DataChannel};

#[test]
fn test_channel_state_transitions() {
    let mut channel = DataChannel::new(0, "test".to_string());

    assert_eq!(channel.state, ChannelState::Connecting, "Estado inicial debe ser Connecting");

    channel.state = ChannelState::Open;
    assert_eq!(channel.state, ChannelState::Open);

    channel.state = ChannelState::Closed;
    assert_eq!(channel.state, ChannelState::Closed);
}

#[test]
fn short_buffers_are_not_sctp() {
    let buf = [0u8; 8];
    assert!(!is_valid_sctp_packet(&buf, 8));
}
