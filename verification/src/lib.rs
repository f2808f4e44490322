//! Verified building blocks of a simplified WebRTC stack: wire formats, packetizers,
//! handshake state machines and the signaling protocol.
pub mod app;
pub mod audio_output;
pub mod camera;
pub mod certificate;
pub mod codec;
pub mod config;
pub mod config_file;
pub mod crypto;
pub mod encoding;
pub mod ip_text;
pub mod microphone;
pub mod protocols;
pub mod sdp;
pub mod signaling_server;
pub mod text;
pub mod wire;
pub mod utils;
