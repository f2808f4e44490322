//! Application-level logic: packet demultiplexing, file metadata, signaling messages.
pub mod call;
pub mod file_transfer;
pub mod lobby;
pub mod multiplexer;
pub mod receiver;
pub mod sender;
pub mod session;
pub mod signaling_client;
