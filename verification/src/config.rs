//! Settings of each component, with the defaults the application starts from.
use vstd::prelude::*;

verus! {

/// The texts that a list of strings holds.
pub open spec fn texts(v: Seq<String>) -> Seq<Seq<char>> {
    v.map_values(|s: String| s@)
}

/// SDP generation settings.
#[derive(Debug, Clone)]
pub struct SdpConfig {
    pub username: String,
    pub session_id: u64,
    pub session_version: u64,
    pub nettype: String,
    pub addrtype: String,
    pub enable_srflx: bool,
    pub audio_type: String,
    pub audio_protocol: String,
    pub audio_codecs: Vec<String>,
    pub audio_rtpmap: Vec<String>,
    pub audio_fmtp: Vec<String>,
    pub video_type: String,
    pub video_protocol: String,
    pub video_codecs: Vec<String>,
    pub video_rtpmap: Vec<String>,
    pub video_fmtp: Vec<String>,
}

/// A vector of two strings.
fn pair_of(a: &str, b: &str) -> (v: Vec<String>)
    ensures
        texts(v@) == seq![a@, b@],
{
    let v = vec![String::from_str(a), String::from_str(b)];
    assert(texts(v@) =~= seq![a@, b@]);
    v
}

impl Default for SdpConfig {
    fn default() -> (c: Self)
        ensures
            c.username@ == "user"@,
            c.session_id == 123456789,
            c.session_version == 1,
            c.nettype@ == "IN"@,
            c.addrtype@ == "IP4"@,
            !c.enable_srflx,
            c.audio_type@ == "audio"@,
            c.audio_protocol@ == "RTP/AVP"@,
            texts(c.audio_codecs@) == seq!["0"@, "111"@],
            texts(c.audio_rtpmap@) == seq!["0 PCMU/8000"@, "111 opus/48000/2"@],
            texts(c.audio_fmtp@) == seq![""@, "111 minptime=10;useinbandfec=1"@],
            c.video_type@ == "video"@,
            c.video_protocol@ == "RTP/AVP"@,
            texts(c.video_codecs@) == seq!["96"@, "97"@],
            texts(c.video_rtpmap@) == seq!["96 VP8/90000"@, "97 H264/90000"@],
            texts(c.video_fmtp@) == seq![""@, "97 profile-level-id=42e01f;packetization-mode=1"@],
    {
        SdpConfig {
            username: String::from_str("user"),
            session_id: 123456789,
            session_version: 1,
            nettype: String::from_str("IN"),
            addrtype: String::from_str("IP4"),
            enable_srflx: false,
            audio_type: String::from_str("audio"),
            audio_protocol: String::from_str("RTP/AVP"),
            audio_codecs: pair_of("0", "111"),
            audio_rtpmap: pair_of("0 PCMU/8000", "111 opus/48000/2"),
            audio_fmtp: pair_of("", "111 minptime=10;useinbandfec=1"),
            video_type: String::from_str("video"),
            video_protocol: String::from_str("RTP/AVP"),
            video_codecs: pair_of("96", "97"),
            video_rtpmap: pair_of("96 VP8/90000", "97 H264/90000"),
            video_fmtp: pair_of("", "97 profile-level-id=42e01f;packetization-mode=1"),
        }
    }
}

/// TLS settings.
#[derive(Debug, Clone)]
pub struct TlsConfig {
    pub psk: String,
}

impl Default for TlsConfig {
    fn default() -> (c: Self)
        ensures
            c.psk@ == "default_psk"@,
    {
        TlsConfig {
            psk: String::from_str("default_psk"),
        }
    }
}

/// Logging settings.
#[derive(Debug, Clone)]
pub struct LoggingConfig {
    pub log_file: String,
}

impl Default for LoggingConfig {
    fn default() -> (c: Self)
        ensures
            c.log_file@ == "app.log"@,
    {
        LoggingConfig {
            log_file: String::from_str("app.log"),
        }
    }
}

/// Camera capture settings.
#[derive(Debug, Clone)]
pub struct CameraConfig {
    pub resolution_width: u32,
    pub resolution_height: u32,
    pub framerate: u32,
}

impl Default for CameraConfig {
    fn default() -> (c: Self)
        ensures
            c.resolution_width == 1280,
            c.resolution_height == 720,
            c.framerate == 30,
    {
        CameraConfig {
            resolution_width: 1280,
            resolution_height: 720,
            framerate: 30,
        }
    }
}

/// RTP settings for the video and audio streams.
#[derive(Debug, Clone)]
pub struct RtpConfig {
    pub payload_type: u8,
    pub timestamp_step: u32,
    pub log_interval: u16,
    pub error_log_interval: u16,
    pub default_ssrc: u32,
    pub audio_payload_type: u8,
    pub audio_ssrc: u32,
    pub audio_clock_rate: u32,
    pub audio_frame_size: u32,
}

impl Default for RtpConfig {
    fn default() -> (c: Self)
        ensures
            c.payload_type == 97,
            c.timestamp_step == 3_000,
            c.log_interval == 1000,
            c.error_log_interval == 10,
            c.default_ssrc == 12_345,
            c.audio_payload_type == 111,
            c.audio_ssrc == 54_321,
            c.audio_clock_rate == 48_000,
            c.audio_frame_size == 960,
    {
        RtpConfig {
            payload_type: 97,
            timestamp_step: 3_000,
            log_interval: 1000,
            error_log_interval: 10,
            default_ssrc: 12_345,
            audio_payload_type: 111,
            audio_ssrc: 54_321,
            audio_clock_rate: 48_000,
            audio_frame_size: 960,
        }
    }
}

/// ICE settings.
#[derive(Debug, Clone)]
pub struct IceConfig {
    pub timeout_ms: u64,
}

impl Default for IceConfig {
    fn default() -> (c: Self)
        ensures
            c.timeout_ms == 500,
    {
        IceConfig {
            timeout_ms: 500,
        }
    }
}

/// Settings of the datagram demultiplexer.
#[derive(Debug, Clone)]
pub struct MultiplexerConfig {
    pub recv_timeout_ms: u64,
    pub buffer_size: usize,
}

impl Default for MultiplexerConfig {
    fn default() -> (c: Self)
        ensures
            c.recv_timeout_ms == 50,
            c.buffer_size == 65_535,
    {
        MultiplexerConfig {
            recv_timeout_ms: 50,
            buffer_size: 65_535,
        }
    }
}

/// Media pacing and codec settings.
#[derive(Debug, Clone)]
pub struct MediaConfig {
    pub periodic_rr_secs: u64,
    pub idle_sleep_ms: u64,
    pub frame_interval_ms: u64,
    pub min_packet_us: u64,
    pub send_mtu: usize,
    pub peer_timeout_secs: u64,
    pub poll_interval_ms: u64,
    pub audio_packet_interval_ms: u64,
    pub audio_sample_rate: u32,
    pub audio_bitrate: i32,
    pub video_bitrate: u32,
}

impl Default for MediaConfig {
    fn default() -> (c: Self)
        ensures
            c.periodic_rr_secs == 1,
            c.idle_sleep_ms == 5,
            c.frame_interval_ms == 33,
            c.min_packet_us == 100,
            c.send_mtu == 1_200,
            c.peer_timeout_secs == 10,
            c.poll_interval_ms == 1,
            c.audio_packet_interval_ms == 20,
            c.audio_sample_rate == 48_000,
            c.audio_bitrate == 32_000,
            c.video_bitrate == 1_000_000,
    {
        MediaConfig {
            periodic_rr_secs: 1,
            idle_sleep_ms: 5,
            frame_interval_ms: 33,
            min_packet_us: 100,
            send_mtu: 1_200,
            peer_timeout_secs: 10,
            poll_interval_ms: 1,
            audio_packet_interval_ms: 20,
            audio_sample_rate: 48_000,
            audio_bitrate: 32_000,
            video_bitrate: 1_000_000,
        }
    }
}

/// SCTP data channel settings.
#[derive(Debug, Clone)]
pub struct DataChannelConfig {
    pub sctp_port: u16,
    pub enable_data_channels: bool,
}

impl Default for DataChannelConfig {
    fn default() -> (c: Self)
        ensures
            c.sctp_port == 5000,
            c.enable_data_channels == true,
    {
        DataChannelConfig {
            sctp_port: 5000,
            enable_data_channels: true,
        }
    }
}

/// File transfer settings.
#[derive(Debug, Clone)]
pub struct FileTransferConfig {
    pub chunk_size_kb: usize,
    pub max_file_size_mb: usize,
    pub max_concurrent_uploads: usize,
    pub max_concurrent_downloads: usize,
    pub enable_integrity_check: bool,
}

impl Default for FileTransferConfig {
    fn default() -> (c: Self)
        ensures
            c.chunk_size_kb == 64,
            c.max_file_size_mb == 100,
            c.max_concurrent_uploads == 5,
            c.max_concurrent_downloads == 10,
            c.enable_integrity_check == true,
    {
        FileTransferConfig {
            chunk_size_kb: 64,
            max_file_size_mb: 100,
            max_concurrent_uploads: 5,
            max_concurrent_downloads: 10,
            enable_integrity_check: true,
        }
    }
}

/// Signaling server settings.
#[derive(Debug, Clone)]
pub struct ServerConfig {
    pub bind_address: String,
    pub max_clients: usize,
    pub users_file: String,
}

impl Default for ServerConfig {
    fn default() -> (c: Self)
        ensures
            c.bind_address@ == "0.0.0.0:7777"@,
            c.max_clients == 10,
            c.users_file@ == "users/users.txt"@,
    {
        ServerConfig {
            bind_address: String::from_str("0.0.0.0:7777"),
            max_clients: 10,
            users_file: String::from_str("users/users.txt"),
        }
    }
}

} // verus!
