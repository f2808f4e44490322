//! Session descriptions: building the local offer or answer, and reading what the
//! application needs from the remote one.
pub mod sdp_core;
pub mod sdp_utils;
