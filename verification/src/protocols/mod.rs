//! Wire protocols: RTP, RTCP, STUN, DTLS, SRTP, SCTP checks and packetizers.
pub mod data_channel;
pub mod dtls;
pub mod dtls_utils;
pub mod h264_rtp;
pub mod jitter_buffer;
pub mod ice;
pub mod message;
pub mod opus_rtp;
pub mod rtcp;
pub mod rtcp_receiver;
pub mod rtp_packet;
pub mod srtp;
