//! The application's configuration file: `[section]` headers and `key=value` lines, read
//! into the settings of each component.
use vstd::prelude::*;
use crate::config::{
    texts, CameraConfig, DataChannelConfig, FileTransferConfig, IceConfig, LoggingConfig,
    MediaConfig, MultiplexerConfig, RtpConfig, SdpConfig, ServerConfig, TlsConfig,
};
use crate::text::{
    decimal, first_index_of, lowercase_of, parse_digits, parse_unsigned, parse_unsigned_range,
    push_str, split_on, split_ranges, str_chars, str_eq, string_from_range, trim_range, trim_ws,
    u64_to_decimal, lines_of, line_ranges, to_lowercase, find_char,
};

verus! {

/// The sections of the file.
#[derive(PartialEq, Eq, Structural, Clone, Copy, Debug)]
pub enum Section {
    Camera,
    Ui,
    Rtp,
    Ice,
    Sdp,
    Multiplexer,
    Media,
    DataChannel,
    FileTransfer,
    Server,
    Logging,
    Tls,
}

/// The settings the file can give, one for each key of each section but `[ui]`, whose
/// value is a number with a fraction and is kept as text.
pub enum Setting {
    ResolutionWidth,
    ResolutionHeight,
    Framerate,
    PayloadType,
    TimestampStep,
    LogInterval,
    ErrorLogInterval,
    DefaultSsrc,
    AudioPayloadType,
    AudioSsrc,
    AudioClockRate,
    AudioFrameSize,
    TimeoutMs,
    Username,
    SessionId,
    SessionVersion,
    Nettype,
    Addrtype,
    EnableSrflx,
    AudioType,
    AudioProtocol,
    AudioCodecs,
    AudioRtpmap,
    AudioFmtp,
    VideoType,
    VideoProtocol,
    VideoCodecs,
    VideoRtpmap,
    VideoFmtp,
    RecvTimeoutMs,
    BufferSize,
    PeriodicRrSecs,
    IdleSleepMs,
    FrameIntervalMs,
    MinPacketUs,
    SendMtu,
    PeerTimeoutSecs,
    PollIntervalMs,
    AudioPacketIntervalMs,
    AudioSampleRate,
    AudioBitrate,
    VideoBitrate,
    SctpPort,
    EnableDataChannels,
    ChunkSizeKb,
    MaxFileSizeMb,
    MaxConcurrentUploads,
    MaxConcurrentDownloads,
    EnableIntegrityCheck,
    BindAddress,
    MaxClients,
    UsersFile,
    LogFile,
    Psk,
}

/// The value of a setting.
pub enum Value {
    Num(int),
    Flag(bool),
    Text(Seq<char>),
    List(Seq<Seq<char>>),
}

/// How the text of a setting is read: an unsigned number up to a bound, a 32-bit signed
/// number, `true` or `false`, the text itself, or a comma-separated list.
pub enum Kind {
    Unsigned(nat),
    Signed32,
    Flag,
    Text,
    List,
}

/// How each setting is read.
pub open spec fn kind(s: Setting) -> Kind {
    match s {
        Setting::PayloadType | Setting::AudioPayloadType => Kind::Unsigned(0xff),
        Setting::LogInterval | Setting::ErrorLogInterval | Setting::SctpPort => Kind::Unsigned(
            0xffff,
        ),
        Setting::ResolutionWidth | Setting::ResolutionHeight | Setting::Framerate
        | Setting::TimestampStep | Setting::DefaultSsrc | Setting::AudioSsrc
        | Setting::AudioClockRate | Setting::AudioFrameSize | Setting::AudioSampleRate
        | Setting::VideoBitrate => Kind::Unsigned(0xffff_ffff),
        Setting::TimeoutMs | Setting::SessionId | Setting::SessionVersion
        | Setting::RecvTimeoutMs | Setting::PeriodicRrSecs | Setting::IdleSleepMs
        | Setting::FrameIntervalMs | Setting::MinPacketUs | Setting::PeerTimeoutSecs
        | Setting::PollIntervalMs | Setting::AudioPacketIntervalMs => Kind::Unsigned(
            0xffff_ffff_ffff_ffff,
        ),
        Setting::BufferSize | Setting::SendMtu | Setting::ChunkSizeKb | Setting::MaxFileSizeMb
        | Setting::MaxConcurrentUploads | Setting::MaxConcurrentDownloads
        | Setting::MaxClients => Kind::Unsigned(usize::MAX as nat),
        Setting::AudioBitrate => Kind::Signed32,
        Setting::EnableSrflx | Setting::EnableDataChannels
        | Setting::EnableIntegrityCheck => Kind::Flag,
        Setting::AudioCodecs | Setting::AudioRtpmap | Setting::AudioFmtp | Setting::VideoCodecs
        | Setting::VideoRtpmap | Setting::VideoFmtp => Kind::List,
        _ => Kind::Text,
    }
}

/// What `str::parse::<i32>` gives: an optional sign, then one or more decimal digits
/// denoting a number in the range of `i32`.
pub open spec fn parse_signed32(t: Seq<char>) -> Option<int> {
    if t.len() > 0 && t[0] == '-' {
        match parse_digits(t.drop_first(), 0x8000_0000) {
            Some(n) => Some(-n),
            None => None,
        }
    } else {
        match parse_unsigned(t, 0x7fff_ffff) {
            Some(n) => Some(n as int),
            None => None,
        }
    }
}

/// The items of a comma-separated list, each trimmed.
pub open spec fn list_items(t: Seq<char>) -> Seq<Seq<char>> {
    split_on(t, ',').map_values(|p: Seq<char>| trim_ws(p))
}

/// The value a text gives for a kind of setting, if it is valid for it.
pub open spec fn parse_value(k: Kind, t: Seq<char>) -> Option<Value> {
    match k {
        Kind::Unsigned(max) => match parse_unsigned(t, max) {
            Some(n) => Some(Value::Num(n as int)),
            None => None,
        },
        Kind::Signed32 => match parse_signed32(t) {
            Some(n) => Some(Value::Num(n)),
            None => None,
        },
        Kind::Flag => if t == "true"@ {
            Some(Value::Flag(true))
        } else if t == "false"@ {
            Some(Value::Flag(false))
        } else {
            None
        },
        Kind::Text => Some(Value::Text(t)),
        Kind::List => Some(Value::List(list_items(t))),
    }
}

/// The error for a key that its section does not have.
pub open spec fn unknown_key_msg(section: Seq<char>, key: Seq<char>) -> Seq<char> {
    "Clave invalida para "@ + section + " config: "@ + key
}

/// The error for a value that its key does not accept.
pub open spec fn invalid_value_msg(key: Seq<char>, value: Seq<char>) -> Seq<char> {
    "Valor invalido para "@ + key + ": "@ + value
}

/// The error for an unknown section.
pub open spec fn bad_section_msg(section: Seq<char>) -> Seq<char> {
    "Seccion invalida ["@ + section + "]"@
}

/// The error for a line that is neither blank, a comment, a header nor `key=value`.
pub open spec fn bad_line_msg() -> Seq<char> {
    "Valor invalido para format (expected key=value)"@
}

/// An error of the line numbered `n` (from 1).
pub open spec fn line_msg(n: nat, e: Seq<char>) -> Seq<char> {
    "Line "@ + decimal(n) + ": "@ + e
}

/// The message for a key that its section does not have.
fn unknown_key(section: &str, key: &str) -> (r: String)
    ensures
        r@ == unknown_key_msg(section@, key@),
{
    let mut r = String::from_str("Clave invalida para ");
    push_str(&mut r, section);
    push_str(&mut r, " config: ");
    push_str(&mut r, key);
    r
}

/// The message for a value that its key does not accept.
fn invalid_value(key: &str, value: &str) -> (r: String)
    ensures
        r@ == invalid_value_msg(key@, value@),
{
    let mut r = String::from_str("Valor invalido para ");
    push_str(&mut r, key);
    push_str(&mut r, ": ");
    push_str(&mut r, value);
    r
}

/// Reads an unsigned number of at most `max`, as `str::parse` does for the unsigned type
/// whose largest value is `max`.
fn parse_unsigned_text(value: &str, max: u64) -> (r: Option<u64>)
    ensures
        match parse_unsigned(value@, max as nat) {
            Some(n) => r == Some(n as u64),
            None => r is None,
        },
{
    let cs = str_chars(value);
    let n = cs.len();
    assert(cs@.subrange(0, n as int) =~= value@);
    parse_unsigned_range(&cs, 0, n, max)
}

/// Reads a 32-bit signed number, as `str::parse::<i32>` does.
fn parse_i32_text(value: &str) -> (r: Option<i32>)
    ensures
        match parse_signed32(value@) {
            Some(n) => r == Some(n as i32),
            None => r is None,
        },
{
    let cs = str_chars(value);
    let n = cs.len();
    assert(cs@.subrange(0, n as int) =~= value@);
    if n > 0 && cs[0] == '-' {
        let ghost t = value@.drop_first();
        assert(cs@.subrange(1, n as int) =~= t);
        if n > 1 && cs[1] == '+' {
            assert(!crate::text::is_digit(t[0]));
            return None;
        }
        match parse_unsigned_range(&cs, 1, n, 0x8000_0000) {
            Some(m) => {
                if m == 0x8000_0000 {
                    Some(-2147483648i32)
                } else {
                    Some(-(m as i32))
                }
            },
            None => None,
        }
    } else {
        match parse_unsigned_range(&cs, 0, n, 0x7fff_ffff) {
            Some(m) => Some(m as i32),
            None => None,
        }
    }
}

/// Reads `true` or `false`, as `str::parse::<bool>` does.
fn parse_flag_text(value: &str) -> (r: Option<bool>)
    ensures
        r == (if value@ == "true"@ {
            Some(true)
        } else if value@ == "false"@ {
            Some(false)
        } else {
            None::<bool>
        }),
{
    if str_eq(value, "true") {
        Some(true)
    } else if str_eq(value, "false") {
        Some(false)
    } else {
        None
    }
}

/// The items of a comma-separated list, each trimmed.
fn list_text(value: &str) -> (r: Vec<String>)
    ensures
        texts(r@) == list_items(value@),
{
    let cs = str_chars(value);
    let n = cs.len();
    assert(cs@.subrange(0, n as int) =~= value@);
    let parts = split_ranges(&cs, 0, n, ',');
    let ghost pieces = split_on(value@, ',');
    let mut r: Vec<String> = Vec::new();
    let mut k: usize = 0;
    while k < parts.len()
        invariant
            k <= parts@.len() == pieces.len(),
            pieces == split_on(cs@.subrange(0, n as int), ','),
            n == cs@.len(),
            cs@.subrange(0, n as int) == value@,
            list_items(value@).len() == pieces.len(),
            forall|x: int|
                0 <= x < parts@.len() ==> 0 <= (#[trigger] parts@[x]).0 <= parts@[x].1 <= n
                    && cs@.subrange(parts@[x].0 as int, parts@[x].1 as int) == pieces[x],
            texts(r@) == list_items(value@).take(k as int),
        decreases parts@.len() - k,
    {
        let (a, b) = parts[k];
        let (ta, tb) = trim_range(&cs, a, b);
        let item = string_from_range(&cs, ta, tb);
        let ghost before = r@;
        r.push(item);
        proof {
            assert(texts(r@) =~= texts(before).push(item@));
            assert(list_items(value@).take(k + 1) =~= list_items(value@).take(k as int).push(
                trim_ws(pieces[k as int]),
            ));
        }
        k += 1;
    }
    assert(list_items(value@).take(k as int) =~= list_items(value@));
    r
}

/// The name of a section, as its header gives it in lower case.
pub open spec fn section_named(name: Seq<char>) -> Option<Section> {
    if name == "camera"@ {
        Some(Section::Camera)
    } else if name == "ui"@ {
        Some(Section::Ui)
    } else if name == "rtp"@ {
        Some(Section::Rtp)
    } else if name == "ice"@ {
        Some(Section::Ice)
    } else if name == "sdp"@ {
        Some(Section::Sdp)
    } else if name == "multiplexer"@ {
        Some(Section::Multiplexer)
    } else if name == "media"@ {
        Some(Section::Media)
    } else if name == "data_channel"@ {
        Some(Section::DataChannel)
    } else if name == "file_transfer"@ {
        Some(Section::FileTransfer)
    } else if name == "server"@ {
        Some(Section::Server)
    } else if name == "logging"@ {
        Some(Section::Logging)
    } else if name == "tls"@ {
        Some(Section::Tls)
    } else {
        None
    }
}

/// The section a name denotes.
fn section_id(name: &str) -> (r: Option<Section>)
    ensures
        r == section_named(name@),
{
    if str_eq(name, "camera") {
        Some(Section::Camera)
    } else if str_eq(name, "ui") {
        Some(Section::Ui)
    } else if str_eq(name, "rtp") {
        Some(Section::Rtp)
    } else if str_eq(name, "ice") {
        Some(Section::Ice)
    } else if str_eq(name, "sdp") {
        Some(Section::Sdp)
    } else if str_eq(name, "multiplexer") {
        Some(Section::Multiplexer)
    } else if str_eq(name, "media") {
        Some(Section::Media)
    } else if str_eq(name, "data_channel") {
        Some(Section::DataChannel)
    } else if str_eq(name, "file_transfer") {
        Some(Section::FileTransfer)
    } else if str_eq(name, "server") {
        Some(Section::Server)
    } else if str_eq(name, "logging") {
        Some(Section::Logging)
    } else if str_eq(name, "tls") {
        Some(Section::Tls)
    } else {
        None
    }
}

/// The settings of `[camera]`.
pub open spec fn camera_key(k: Seq<char>) -> Option<Setting> {
    if k == "resolution_width"@ {
        Some(Setting::ResolutionWidth)
    } else if k == "resolution_height"@ {
        Some(Setting::ResolutionHeight)
    } else if k == "framerate"@ {
        Some(Setting::Framerate)
    } else {
        None
    }
}

/// The values of `[camera]`.
pub open spec fn camera_value(c: CameraConfig, s: Setting) -> Value {
    match s {
        Setting::ResolutionWidth => Value::Num(c.resolution_width as int),
        Setting::ResolutionHeight => Value::Num(c.resolution_height as int),
        Setting::Framerate => Value::Num(c.framerate as int),
        _ => Value::Num(0),
    }
}

/// The settings of `[rtp]`.
pub open spec fn rtp_key(k: Seq<char>) -> Option<Setting> {
    if k == "payload_type"@ {
        Some(Setting::PayloadType)
    } else if k == "timestamp_step"@ {
        Some(Setting::TimestampStep)
    } else if k == "log_interval"@ {
        Some(Setting::LogInterval)
    } else if k == "error_log_interval"@ {
        Some(Setting::ErrorLogInterval)
    } else if k == "default_ssrc"@ {
        Some(Setting::DefaultSsrc)
    } else if k == "audio_payload_type"@ {
        Some(Setting::AudioPayloadType)
    } else if k == "audio_ssrc"@ {
        Some(Setting::AudioSsrc)
    } else if k == "audio_clock_rate"@ {
        Some(Setting::AudioClockRate)
    } else if k == "audio_frame_size"@ {
        Some(Setting::AudioFrameSize)
    } else {
        None
    }
}

/// The values of `[rtp]`.
pub open spec fn rtp_value(c: RtpConfig, s: Setting) -> Value {
    match s {
        Setting::PayloadType => Value::Num(c.payload_type as int),
        Setting::TimestampStep => Value::Num(c.timestamp_step as int),
        Setting::LogInterval => Value::Num(c.log_interval as int),
        Setting::ErrorLogInterval => Value::Num(c.error_log_interval as int),
        Setting::DefaultSsrc => Value::Num(c.default_ssrc as int),
        Setting::AudioPayloadType => Value::Num(c.audio_payload_type as int),
        Setting::AudioSsrc => Value::Num(c.audio_ssrc as int),
        Setting::AudioClockRate => Value::Num(c.audio_clock_rate as int),
        Setting::AudioFrameSize => Value::Num(c.audio_frame_size as int),
        _ => Value::Num(0),
    }
}

/// The settings of `[ice]`.
pub open spec fn ice_key(k: Seq<char>) -> Option<Setting> {
    if k == "timeout_ms"@ {
        Some(Setting::TimeoutMs)
    } else {
        None
    }
}

/// The values of `[ice]`.
pub open spec fn ice_value(c: IceConfig, s: Setting) -> Value {
    match s {
        Setting::TimeoutMs => Value::Num(c.timeout_ms as int),
        _ => Value::Num(0),
    }
}

/// The settings of `[sdp]`.
pub open spec fn sdp_key(k: Seq<char>) -> Option<Setting> {
    if k == "username"@ {
        Some(Setting::Username)
    } else if k == "session_id"@ {
        Some(Setting::SessionId)
    } else if k == "session_version"@ {
        Some(Setting::SessionVersion)
    } else if k == "nettype"@ {
        Some(Setting::Nettype)
    } else if k == "addrtype"@ {
        Some(Setting::Addrtype)
    } else if k == "enable_srflx"@ {
        Some(Setting::EnableSrflx)
    } else if k == "audio_type"@ {
        Some(Setting::AudioType)
    } else if k == "audio_protocol"@ {
        Some(Setting::AudioProtocol)
    } else if k == "audio_codecs"@ {
        Some(Setting::AudioCodecs)
    } else if k == "audio_rtpmap"@ {
        Some(Setting::AudioRtpmap)
    } else if k == "audio_fmtp"@ {
        Some(Setting::AudioFmtp)
    } else if k == "video_type"@ {
        Some(Setting::VideoType)
    } else if k == "video_protocol"@ {
        Some(Setting::VideoProtocol)
    } else if k == "video_codecs"@ {
        Some(Setting::VideoCodecs)
    } else if k == "video_rtpmap"@ {
        Some(Setting::VideoRtpmap)
    } else if k == "video_fmtp"@ {
        Some(Setting::VideoFmtp)
    } else {
        None
    }
}

/// The values of `[sdp]`.
pub open spec fn sdp_value(c: SdpConfig, s: Setting) -> Value {
    match s {
        Setting::Username => Value::Text(c.username@),
        Setting::SessionId => Value::Num(c.session_id as int),
        Setting::SessionVersion => Value::Num(c.session_version as int),
        Setting::Nettype => Value::Text(c.nettype@),
        Setting::Addrtype => Value::Text(c.addrtype@),
        Setting::EnableSrflx => Value::Flag(c.enable_srflx),
        Setting::AudioType => Value::Text(c.audio_type@),
        Setting::AudioProtocol => Value::Text(c.audio_protocol@),
        Setting::AudioCodecs => Value::List(texts(c.audio_codecs@)),
        Setting::AudioRtpmap => Value::List(texts(c.audio_rtpmap@)),
        Setting::AudioFmtp => Value::List(texts(c.audio_fmtp@)),
        Setting::VideoType => Value::Text(c.video_type@),
        Setting::VideoProtocol => Value::Text(c.video_protocol@),
        Setting::VideoCodecs => Value::List(texts(c.video_codecs@)),
        Setting::VideoRtpmap => Value::List(texts(c.video_rtpmap@)),
        Setting::VideoFmtp => Value::List(texts(c.video_fmtp@)),
        _ => Value::Num(0),
    }
}

/// The settings of `[multiplexer]`.
pub open spec fn multiplexer_key(k: Seq<char>) -> Option<Setting> {
    if k == "recv_timeout_ms"@ {
        Some(Setting::RecvTimeoutMs)
    } else if k == "buffer_size"@ {
        Some(Setting::BufferSize)
    } else {
        None
    }
}

/// The values of `[multiplexer]`.
pub open spec fn multiplexer_value(c: MultiplexerConfig, s: Setting) -> Value {
    match s {
        Setting::RecvTimeoutMs => Value::Num(c.recv_timeout_ms as int),
        Setting::BufferSize => Value::Num(c.buffer_size as int),
        _ => Value::Num(0),
    }
}

/// The settings of `[media]`.
pub open spec fn media_key(k: Seq<char>) -> Option<Setting> {
    if k == "periodic_rr_secs"@ {
        Some(Setting::PeriodicRrSecs)
    } else if k == "idle_sleep_ms"@ {
        Some(Setting::IdleSleepMs)
    } else if k == "frame_interval_ms"@ {
        Some(Setting::FrameIntervalMs)
    } else if k == "min_packet_us"@ {
        Some(Setting::MinPacketUs)
    } else if k == "send_mtu"@ {
        Some(Setting::SendMtu)
    } else if k == "peer_timeout_secs"@ {
        Some(Setting::PeerTimeoutSecs)
    } else if k == "poll_interval_ms"@ {
        Some(Setting::PollIntervalMs)
    } else if k == "audio_packet_interval_ms"@ {
        Some(Setting::AudioPacketIntervalMs)
    } else if k == "audio_sample_rate"@ {
        Some(Setting::AudioSampleRate)
    } else if k == "audio_bitrate"@ {
        Some(Setting::AudioBitrate)
    } else if k == "video_bitrate"@ {
        Some(Setting::VideoBitrate)
    } else {
        None
    }
}

/// The values of `[media]`.
pub open spec fn media_value(c: MediaConfig, s: Setting) -> Value {
    match s {
        Setting::PeriodicRrSecs => Value::Num(c.periodic_rr_secs as int),
        Setting::IdleSleepMs => Value::Num(c.idle_sleep_ms as int),
        Setting::FrameIntervalMs => Value::Num(c.frame_interval_ms as int),
        Setting::MinPacketUs => Value::Num(c.min_packet_us as int),
        Setting::SendMtu => Value::Num(c.send_mtu as int),
        Setting::PeerTimeoutSecs => Value::Num(c.peer_timeout_secs as int),
        Setting::PollIntervalMs => Value::Num(c.poll_interval_ms as int),
        Setting::AudioPacketIntervalMs => Value::Num(c.audio_packet_interval_ms as int),
        Setting::AudioSampleRate => Value::Num(c.audio_sample_rate as int),
        Setting::AudioBitrate => Value::Num(c.audio_bitrate as int),
        Setting::VideoBitrate => Value::Num(c.video_bitrate as int),
        _ => Value::Num(0),
    }
}

/// The settings of `[data_channel]`.
pub open spec fn data_channel_key(k: Seq<char>) -> Option<Setting> {
    if k == "sctp_port"@ {
        Some(Setting::SctpPort)
    } else if k == "enable_data_channels"@ {
        Some(Setting::EnableDataChannels)
    } else {
        None
    }
}

/// The values of `[data_channel]`.
pub open spec fn data_channel_value(c: DataChannelConfig, s: Setting) -> Value {
    match s {
        Setting::SctpPort => Value::Num(c.sctp_port as int),
        Setting::EnableDataChannels => Value::Flag(c.enable_data_channels),
        _ => Value::Num(0),
    }
}

/// The settings of `[file_transfer]`.
pub open spec fn file_transfer_key(k: Seq<char>) -> Option<Setting> {
    if k == "chunk_size_kb"@ {
        Some(Setting::ChunkSizeKb)
    } else if k == "max_file_size_mb"@ {
        Some(Setting::MaxFileSizeMb)
    } else if k == "max_concurrent_uploads"@ {
        Some(Setting::MaxConcurrentUploads)
    } else if k == "max_concurrent_downloads"@ {
        Some(Setting::MaxConcurrentDownloads)
    } else if k == "enable_integrity_check"@ {
        Some(Setting::EnableIntegrityCheck)
    } else {
        None
    }
}

/// The values of `[file_transfer]`.
pub open spec fn file_transfer_value(c: FileTransferConfig, s: Setting) -> Value {
    match s {
        Setting::ChunkSizeKb => Value::Num(c.chunk_size_kb as int),
        Setting::MaxFileSizeMb => Value::Num(c.max_file_size_mb as int),
        Setting::MaxConcurrentUploads => Value::Num(c.max_concurrent_uploads as int),
        Setting::MaxConcurrentDownloads => Value::Num(c.max_concurrent_downloads as int),
        Setting::EnableIntegrityCheck => Value::Flag(c.enable_integrity_check),
        _ => Value::Num(0),
    }
}

/// The settings of `[server]`.
pub open spec fn server_key(k: Seq<char>) -> Option<Setting> {
    if k == "bind_address"@ {
        Some(Setting::BindAddress)
    } else if k == "max_clients"@ {
        Some(Setting::MaxClients)
    } else if k == "users_file"@ {
        Some(Setting::UsersFile)
    } else {
        None
    }
}

/// The values of `[server]`.
pub open spec fn server_value(c: ServerConfig, s: Setting) -> Value {
    match s {
        Setting::BindAddress => Value::Text(c.bind_address@),
        Setting::MaxClients => Value::Num(c.max_clients as int),
        Setting::UsersFile => Value::Text(c.users_file@),
        _ => Value::Num(0),
    }
}

/// The settings of `[logging]`.
pub open spec fn logging_key(k: Seq<char>) -> Option<Setting> {
    if k == "log_file"@ {
        Some(Setting::LogFile)
    } else {
        None
    }
}

/// The values of `[logging]`.
pub open spec fn logging_value(c: LoggingConfig, s: Setting) -> Value {
    match s {
        Setting::LogFile => Value::Text(c.log_file@),
        _ => Value::Num(0),
    }
}

/// The settings of `[tls]`.
pub open spec fn tls_key(k: Seq<char>) -> Option<Setting> {
    if k == "psk"@ {
        Some(Setting::Psk)
    } else {
        None
    }
}

/// The values of `[tls]`.
pub open spec fn tls_value(c: TlsConfig, s: Setting) -> Value {
    match s {
        Setting::Psk => Value::Text(c.psk@),
        _ => Value::Num(0),
    }
}

/// The setting a key of a section gives, if the section has that key (`[ui]` has none:
/// its one key is kept as text).
pub open spec fn key_of(sec: Section, k: Seq<char>) -> Option<Setting> {
    match sec {
        Section::Camera => camera_key(k),
        Section::Ui => None,
        Section::Rtp => rtp_key(k),
        Section::Ice => ice_key(k),
        Section::Sdp => sdp_key(k),
        Section::Multiplexer => multiplexer_key(k),
        Section::Media => media_key(k),
        Section::DataChannel => data_channel_key(k),
        Section::FileTransfer => file_transfer_key(k),
        Section::Server => server_key(k),
        Section::Logging => logging_key(k),
        Section::Tls => tls_key(k),
    }
}

/// The `[ui]` settings as the file gives them: each `frame_scaling` value with the number of
/// its line, in the order of the file. The application reads them as numbers.
#[derive(Debug, Clone)]
pub struct UiConfig {
    pub frame_scaling: Vec<(usize, String)>,
}

/// The line numbers and texts of `frame_scaling` values.
pub open spec fn scaling_view(v: Seq<(usize, String)>) -> Seq<(int, Seq<char>)> {
    v.map_values(|p: (usize, String)| (p.0 as int, p.1@))
}

/// The settings of all components.
#[derive(Debug, Clone)]
pub struct AppConfig {
    pub camera: CameraConfig,
    pub ui: UiConfig,
    pub rtp: RtpConfig,
    pub ice: IceConfig,
    pub sdp: SdpConfig,
    pub multiplexer: MultiplexerConfig,
    pub media: MediaConfig,
    pub data_channel: DataChannelConfig,
    pub file_transfer: FileTransferConfig,
    pub server: ServerConfig,
    pub logging: LoggingConfig,
    pub tls: TlsConfig,
}

/// The value of a setting in a configuration.
#[verifier::opaque]
pub open spec fn value_of(c: AppConfig, s: Setting) -> Value {
    match s {
        Setting::ResolutionWidth | Setting::ResolutionHeight | Setting::Framerate => camera_value(
            c.camera,
            s,
        ),
        Setting::PayloadType | Setting::TimestampStep | Setting::LogInterval
        | Setting::ErrorLogInterval | Setting::DefaultSsrc | Setting::AudioPayloadType
        | Setting::AudioSsrc | Setting::AudioClockRate | Setting::AudioFrameSize => rtp_value(
            c.rtp,
            s,
        ),
        Setting::TimeoutMs => ice_value(c.ice, s),
        Setting::Username | Setting::SessionId | Setting::SessionVersion | Setting::Nettype
        | Setting::Addrtype | Setting::EnableSrflx | Setting::AudioType | Setting::AudioProtocol
        | Setting::AudioCodecs | Setting::AudioRtpmap | Setting::AudioFmtp | Setting::VideoType
        | Setting::VideoProtocol | Setting::VideoCodecs | Setting::VideoRtpmap
        | Setting::VideoFmtp => sdp_value(c.sdp, s),
        Setting::RecvTimeoutMs | Setting::BufferSize => multiplexer_value(c.multiplexer, s),
        Setting::PeriodicRrSecs | Setting::IdleSleepMs | Setting::FrameIntervalMs
        | Setting::MinPacketUs | Setting::SendMtu | Setting::PeerTimeoutSecs
        | Setting::PollIntervalMs | Setting::AudioPacketIntervalMs | Setting::AudioSampleRate
        | Setting::AudioBitrate | Setting::VideoBitrate => media_value(c.media, s),
        Setting::SctpPort | Setting::EnableDataChannels => data_channel_value(c.data_channel, s),
        Setting::ChunkSizeKb | Setting::MaxFileSizeMb | Setting::MaxConcurrentUploads
        | Setting::MaxConcurrentDownloads | Setting::EnableIntegrityCheck => file_transfer_value(
            c.file_transfer,
            s,
        ),
        Setting::BindAddress | Setting::MaxClients | Setting::UsersFile => server_value(
            c.server,
            s,
        ),
        Setting::LogFile => logging_value(c.logging, s),
        Setting::Psk => tls_value(c.tls, s),
    }
}

/// The value of each setting when the file does not give it.
pub open spec fn default_value(s: Setting) -> Value {
    match s {
        Setting::ResolutionWidth => Value::Num(1280),
        Setting::ResolutionHeight => Value::Num(720),
        Setting::Framerate => Value::Num(30),
        Setting::PayloadType => Value::Num(97),
        Setting::TimestampStep => Value::Num(3000),
        Setting::LogInterval => Value::Num(1000),
        Setting::ErrorLogInterval => Value::Num(10),
        Setting::DefaultSsrc => Value::Num(12345),
        Setting::AudioPayloadType => Value::Num(111),
        Setting::AudioSsrc => Value::Num(54321),
        Setting::AudioClockRate => Value::Num(48000),
        Setting::AudioFrameSize => Value::Num(960),
        Setting::TimeoutMs => Value::Num(500),
        Setting::Username => Value::Text("user"@),
        Setting::SessionId => Value::Num(123456789),
        Setting::SessionVersion => Value::Num(1),
        Setting::Nettype => Value::Text("IN"@),
        Setting::Addrtype => Value::Text("IP4"@),
        Setting::EnableSrflx => Value::Flag(false),
        Setting::AudioType => Value::Text("audio"@),
        Setting::AudioProtocol => Value::Text("RTP/AVP"@),
        Setting::AudioCodecs => Value::List(seq!["0"@, "111"@]),
        Setting::AudioRtpmap => Value::List(seq!["0 PCMU/8000"@, "111 opus/48000/2"@]),
        Setting::AudioFmtp => Value::List(seq![""@, "111 minptime=10;useinbandfec=1"@]),
        Setting::VideoType => Value::Text("video"@),
        Setting::VideoProtocol => Value::Text("RTP/AVP"@),
        Setting::VideoCodecs => Value::List(seq!["96"@, "97"@]),
        Setting::VideoRtpmap => Value::List(seq!["96 VP8/90000"@, "97 H264/90000"@]),
        Setting::VideoFmtp => Value::List(
            seq![""@, "97 profile-level-id=42e01f;packetization-mode=1"@],
        ),
        Setting::RecvTimeoutMs => Value::Num(50),
        Setting::BufferSize => Value::Num(65535),
        Setting::PeriodicRrSecs => Value::Num(1),
        Setting::IdleSleepMs => Value::Num(5),
        Setting::FrameIntervalMs => Value::Num(33),
        Setting::MinPacketUs => Value::Num(100),
        Setting::SendMtu => Value::Num(1200),
        Setting::PeerTimeoutSecs => Value::Num(10),
        Setting::PollIntervalMs => Value::Num(1),
        Setting::AudioPacketIntervalMs => Value::Num(20),
        Setting::AudioSampleRate => Value::Num(48000),
        Setting::AudioBitrate => Value::Num(32000),
        Setting::VideoBitrate => Value::Num(1000000),
        Setting::SctpPort => Value::Num(5000),
        Setting::EnableDataChannels => Value::Flag(true),
        Setting::ChunkSizeKb => Value::Num(64),
        Setting::MaxFileSizeMb => Value::Num(100),
        Setting::MaxConcurrentUploads => Value::Num(5),
        Setting::MaxConcurrentDownloads => Value::Num(10),
        Setting::EnableIntegrityCheck => Value::Flag(true),
        Setting::BindAddress => Value::Text("0.0.0.0:7777"@),
        Setting::MaxClients => Value::Num(10),
        Setting::UsersFile => Value::Text("users/users.txt"@),
        Setting::LogFile => Value::Text("app.log"@),
        Setting::Psk => Value::Text("default_psk"@),
    }
}

impl Default for UiConfig {
    fn default() -> (c: Self)
        ensures
            c.frame_scaling@.len() == 0,
    {
        UiConfig { frame_scaling: Vec::new() }
    }
}

impl Default for AppConfig {
    fn default() -> (c: Self)
        ensures
            forall|s: Setting| value_of(c, s) == default_value(s),
            c.ui.frame_scaling@.len() == 0,
    {
        let c = AppConfig {
            camera: CameraConfig::default(),
            ui: UiConfig::default(),
            rtp: RtpConfig::default(),
            ice: IceConfig::default(),
            sdp: SdpConfig::default(),
            multiplexer: MultiplexerConfig::default(),
            media: MediaConfig::default(),
            data_channel: DataChannelConfig::default(),
            file_transfer: FileTransferConfig::default(),
            server: ServerConfig::default(),
            logging: LoggingConfig::default(),
            tls: TlsConfig::default(),
        };
        proof {
            reveal(value_of);
        }
        c
    }
}

/// Reads a number of at most `max` for `key`.
fn read_number(key: &str, value: &str, max: u64) -> (r: Result<u64, String>)
    ensures
        match parse_unsigned(value@, max as nat) {
            Some(n) => r matches Ok(m) && m == n,
            None => r matches Err(e) && e@ == invalid_value_msg(key@, value@),
        },
{
    match parse_unsigned_text(value, max) {
        Some(n) => Ok(n),
        None => Err(invalid_value(key, value)),
    }
}

/// Reads a 32-bit signed number for `key`.
fn read_i32(key: &str, value: &str) -> (r: Result<i32, String>)
    ensures
        match parse_signed32(value@) {
            Some(n) => r matches Ok(m) && m == n,
            None => r matches Err(e) && e@ == invalid_value_msg(key@, value@),
        },
{
    match parse_i32_text(value) {
        Some(n) => Ok(n),
        None => Err(invalid_value(key, value)),
    }
}

/// Reads `true` or `false` for `key`.
fn read_flag(key: &str, value: &str) -> (r: Result<bool, String>)
    ensures
        match parse_value(Kind::Flag, value@) {
            Some(Value::Flag(b)) => r matches Ok(m) && m == b,
            _ => r matches Err(e) && e@ == invalid_value_msg(key@, value@),
        },
{
    match parse_flag_text(value) {
        Some(b) => Ok(b),
        None => Err(invalid_value(key, value)),
    }
}

/// Applies `key=value` of `[camera]`.
fn parse_camera_config(config: &mut CameraConfig, key: &str, value: &str) -> (r: Result<(), String>)
    ensures
        match camera_key(key@) {
            None => r matches Err(e) && e@ == unknown_key_msg("camera"@, key@),
            Some(s) => match parse_value(kind(s), value@) {
                None => r matches Err(e) && e@ == invalid_value_msg(key@, value@),
                Some(v) => r is Ok && camera_value(*final(config), s) == v && forall|t: Setting|
                    t != s ==> camera_value(*final(config), t) == camera_value(*old(config), t),
            },
        },
{
    if str_eq(key, "resolution_width") {
        match read_number(key, value, 0xffff_ffff) {
            Ok(n) => {
                config.resolution_width = n as u32;
                Ok(())
            },
            Err(e) => Err(e),
        }
    } else if str_eq(key, "resolution_height") {
        match read_number(key, value, 0xffff_ffff) {
            Ok(n) => {
                config.resolution_height = n as u32;
                Ok(())
            },
            Err(e) => Err(e),
        }
    } else if str_eq(key, "framerate") {
        match read_number(key, value, 0xffff_ffff) {
            Ok(n) => {
                config.framerate = n as u32;
                Ok(())
            },
            Err(e) => Err(e),
        }
    } else {
        Err(unknown_key("camera", key))
    }
}

/// Applies `key=value` of `[rtp]`.
fn parse_rtp_config(config: &mut RtpConfig, key: &str, value: &str) -> (r: Result<(), String>)
    ensures
        match rtp_key(key@) {
            None => r matches Err(e) && e@ == unknown_key_msg("rtp"@, key@),
            Some(s) => match parse_value(kind(s), value@) {
                None => r matches Err(e) && e@ == invalid_value_msg(key@, value@),
                Some(v) => r is Ok && rtp_value(*final(config), s) == v && forall|t: Setting|
                    t != s ==> rtp_value(*final(config), t) == rtp_value(*old(config), t),
            },
        },
{
    if str_eq(key, "payload_type") {
        match read_number(key, value, 0xff) {
            Ok(n) => {
                config.payload_type = n as u8;
                Ok(())
            },
            Err(e) => Err(e),
        }
    } else if str_eq(key, "timestamp_step") {
        match read_number(key, value, 0xffff_ffff) {
            Ok(n) => {
                config.timestamp_step = n as u32;
                Ok(())
            },
            Err(e) => Err(e),
        }
    } else if str_eq(key, "log_interval") {
        match read_number(key, value, 0xffff) {
            Ok(n) => {
                config.log_interval = n as u16;
                Ok(())
            },
            Err(e) => Err(e),
        }
    } else if str_eq(key, "error_log_interval") {
        match read_number(key, value, 0xffff) {
            Ok(n) => {
                config.error_log_interval = n as u16;
                Ok(())
            },
            Err(e) => Err(e),
        }
    } else if str_eq(key, "default_ssrc") {
        match read_number(key, value, 0xffff_ffff) {
            Ok(n) => {
                config.default_ssrc = n as u32;
                Ok(())
            },
            Err(e) => Err(e),
        }
    } else if str_eq(key, "audio_payload_type") {
        match read_number(key, value, 0xff) {
            Ok(n) => {
                config.audio_payload_type = n as u8;
                Ok(())
            },
            Err(e) => Err(e),
        }
    } else if str_eq(key, "audio_ssrc") {
        match read_number(key, value, 0xffff_ffff) {
            Ok(n) => {
                config.audio_ssrc = n as u32;
                Ok(())
            },
            Err(e) => Err(e),
        }
    } else if str_eq(key, "audio_clock_rate") {
        match read_number(key, value, 0xffff_ffff) {
            Ok(n) => {
                config.audio_clock_rate = n as u32;
                Ok(())
            },
            Err(e) => Err(e),
        }
    } else if str_eq(key, "audio_frame_size") {
        match read_number(key, value, 0xffff_ffff) {
            Ok(n) => {
                config.audio_frame_size = n as u32;
                Ok(())
            },
            Err(e) => Err(e),
        }
    } else {
        Err(unknown_key("rtp", key))
    }
}

/// Applies `key=value` of `[ice]`.
fn parse_ice_config(config: &mut IceConfig, key: &str, value: &str) -> (r: Result<(), String>)
    ensures
        match ice_key(key@) {
            None => r matches Err(e) && e@ == unknown_key_msg("ice"@, key@),
            Some(s) => match parse_value(kind(s), value@) {
                None => r matches Err(e) && e@ == invalid_value_msg(key@, value@),
                Some(v) => r is Ok && ice_value(*final(config), s) == v && forall|t: Setting|
                    t != s ==> ice_value(*final(config), t) == ice_value(*old(config), t),
            },
        },
{
    if str_eq(key, "timeout_ms") {
        match read_number(key, value, 0xffff_ffff_ffff_ffff) {
            Ok(n) => {
                config.timeout_ms = n;
                Ok(())
            },
            Err(e) => Err(e),
        }
    } else {
        Err(unknown_key("ice", key))
    }
}

/// Applies `key=value` of `[sdp]`.
fn parse_sdp_config(config: &mut SdpConfig, key: &str, value: &str) -> (r: Result<(), String>)
    ensures
        match sdp_key(key@) {
            None => r matches Err(e) && e@ == unknown_key_msg("sdp"@, key@),
            Some(s) => match parse_value(kind(s), value@) {
                None => r matches Err(e) && e@ == invalid_value_msg(key@, value@),
                Some(v) => r is Ok && sdp_value(*final(config), s) == v && forall|t: Setting|
                    t != s ==> sdp_value(*final(config), t) == sdp_value(*old(config), t),
            },
        },
{
    if str_eq(key, "username") {
        config.username = String::from_str(value);
        Ok(())
    } else if str_eq(key, "session_id") {
        match read_number(key, value, 0xffff_ffff_ffff_ffff) {
            Ok(n) => {
                config.session_id = n;
                Ok(())
            },
            Err(e) => Err(e),
        }
    } else if str_eq(key, "session_version") {
        match read_number(key, value, 0xffff_ffff_ffff_ffff) {
            Ok(n) => {
                config.session_version = n;
                Ok(())
            },
            Err(e) => Err(e),
        }
    } else if str_eq(key, "nettype") {
        config.nettype = String::from_str(value);
        Ok(())
    } else if str_eq(key, "addrtype") {
        config.addrtype = String::from_str(value);
        Ok(())
    } else if str_eq(key, "enable_srflx") {
        match read_flag(key, value) {
            Ok(b) => {
                config.enable_srflx = b;
                Ok(())
            },
            Err(e) => Err(e),
        }
    } else if str_eq(key, "audio_type") {
        config.audio_type = String::from_str(value);
        Ok(())
    } else if str_eq(key, "audio_protocol") {
        config.audio_protocol = String::from_str(value);
        Ok(())
    } else if str_eq(key, "audio_codecs") {
        config.audio_codecs = list_text(value);
        Ok(())
    } else if str_eq(key, "audio_rtpmap") {
        config.audio_rtpmap = list_text(value);
        Ok(())
    } else if str_eq(key, "audio_fmtp") {
        config.audio_fmtp = list_text(value);
        Ok(())
    } else if str_eq(key, "video_type") {
        config.video_type = String::from_str(value);
        Ok(())
    } else if str_eq(key, "video_protocol") {
        config.video_protocol = String::from_str(value);
        Ok(())
    } else if str_eq(key, "video_codecs") {
        config.video_codecs = list_text(value);
        Ok(())
    } else if str_eq(key, "video_rtpmap") {
        config.video_rtpmap = list_text(value);
        Ok(())
    } else if str_eq(key, "video_fmtp") {
        config.video_fmtp = list_text(value);
        Ok(())
    } else {
        Err(unknown_key("sdp", key))
    }
}

/// Applies `key=value` of `[multiplexer]`.
fn parse_multiplexer_config(config: &mut MultiplexerConfig, key: &str, value: &str) -> (r: Result<(), String>)
    ensures
        match multiplexer_key(key@) {
            None => r matches Err(e) && e@ == unknown_key_msg("multiplexer"@, key@),
            Some(s) => match parse_value(kind(s), value@) {
                None => r matches Err(e) && e@ == invalid_value_msg(key@, value@),
                Some(v) => r is Ok && multiplexer_value(*final(config), s) == v && forall|t: Setting|
                    t != s ==> multiplexer_value(*final(config), t) == multiplexer_value(*old(config), t),
            },
        },
{
    if str_eq(key, "recv_timeout_ms") {
        match read_number(key, value, 0xffff_ffff_ffff_ffff) {
            Ok(n) => {
                config.recv_timeout_ms = n;
                Ok(())
            },
            Err(e) => Err(e),
        }
    } else if str_eq(key, "buffer_size") {
        match read_number(key, value, usize::MAX as u64) {
            Ok(n) => {
                config.buffer_size = n as usize;
                Ok(())
            },
            Err(e) => Err(e),
        }
    } else {
        Err(unknown_key("multiplexer", key))
    }
}

/// Applies `key=value` of `[media]`.
fn parse_media_config(config: &mut MediaConfig, key: &str, value: &str) -> (r: Result<(), String>)
    ensures
        match media_key(key@) {
            None => r matches Err(e) && e@ == unknown_key_msg("media"@, key@),
            Some(s) => match parse_value(kind(s), value@) {
                None => r matches Err(e) && e@ == invalid_value_msg(key@, value@),
                Some(v) => r is Ok && media_value(*final(config), s) == v && forall|t: Setting|
                    t != s ==> media_value(*final(config), t) == media_value(*old(config), t),
            },
        },
{
    if str_eq(key, "periodic_rr_secs") {
        match read_number(key, value, 0xffff_ffff_ffff_ffff) {
            Ok(n) => {
                config.periodic_rr_secs = n;
                Ok(())
            },
            Err(e) => Err(e),
        }
    } else if str_eq(key, "idle_sleep_ms") {
        match read_number(key, value, 0xffff_ffff_ffff_ffff) {
            Ok(n) => {
                config.idle_sleep_ms = n;
                Ok(())
            },
            Err(e) => Err(e),
        }
    } else if str_eq(key, "frame_interval_ms") {
        match read_number(key, value, 0xffff_ffff_ffff_ffff) {
            Ok(n) => {
                config.frame_interval_ms = n;
                Ok(())
            },
            Err(e) => Err(e),
        }
    } else if str_eq(key, "min_packet_us") {
        match read_number(key, value, 0xffff_ffff_ffff_ffff) {
            Ok(n) => {
                config.min_packet_us = n;
                Ok(())
            },
            Err(e) => Err(e),
        }
    } else if str_eq(key, "send_mtu") {
        match read_number(key, value, usize::MAX as u64) {
            Ok(n) => {
                config.send_mtu = n as usize;
                Ok(())
            },
            Err(e) => Err(e),
        }
    } else if str_eq(key, "peer_timeout_secs") {
        match read_number(key, value, 0xffff_ffff_ffff_ffff) {
            Ok(n) => {
                config.peer_timeout_secs = n;
                Ok(())
            },
            Err(e) => Err(e),
        }
    } else if str_eq(key, "poll_interval_ms") {
        match read_number(key, value, 0xffff_ffff_ffff_ffff) {
            Ok(n) => {
                config.poll_interval_ms = n;
                Ok(())
            },
            Err(e) => Err(e),
        }
    } else if str_eq(key, "audio_packet_interval_ms") {
        match read_number(key, value, 0xffff_ffff_ffff_ffff) {
            Ok(n) => {
                config.audio_packet_interval_ms = n;
                Ok(())
            },
            Err(e) => Err(e),
        }
    } else if str_eq(key, "audio_sample_rate") {
        match read_number(key, value, 0xffff_ffff) {
            Ok(n) => {
                config.audio_sample_rate = n as u32;
                Ok(())
            },
            Err(e) => Err(e),
        }
    } else if str_eq(key, "audio_bitrate") {
        match read_i32(key, value) {
            Ok(n) => {
                config.audio_bitrate = n;
                Ok(())
            },
            Err(e) => Err(e),
        }
    } else if str_eq(key, "video_bitrate") {
        match read_number(key, value, 0xffff_ffff) {
            Ok(n) => {
                config.video_bitrate = n as u32;
                Ok(())
            },
            Err(e) => Err(e),
        }
    } else {
        Err(unknown_key("media", key))
    }
}

/// Applies `key=value` of `[data_channel]`.
fn parse_data_channel_config(config: &mut DataChannelConfig, key: &str, value: &str) -> (r: Result<(), String>)
    ensures
        match data_channel_key(key@) {
            None => r matches Err(e) && e@ == unknown_key_msg("data_channel"@, key@),
            Some(s) => match parse_value(kind(s), value@) {
                None => r matches Err(e) && e@ == invalid_value_msg(key@, value@),
                Some(v) => r is Ok && data_channel_value(*final(config), s) == v && forall|t: Setting|
                    t != s ==> data_channel_value(*final(config), t) == data_channel_value(*old(config), t),
            },
        },
{
    if str_eq(key, "sctp_port") {
        match read_number(key, value, 0xffff) {
            Ok(n) => {
                config.sctp_port = n as u16;
                Ok(())
            },
            Err(e) => Err(e),
        }
    } else if str_eq(key, "enable_data_channels") {
        match read_flag(key, value) {
            Ok(b) => {
                config.enable_data_channels = b;
                Ok(())
            },
            Err(e) => Err(e),
        }
    } else {
        Err(unknown_key("data_channel", key))
    }
}

/// Applies `key=value` of `[file_transfer]`.
fn parse_file_transfer_config(config: &mut FileTransferConfig, key: &str, value: &str) -> (r: Result<(), String>)
    ensures
        match file_transfer_key(key@) {
            None => r matches Err(e) && e@ == unknown_key_msg("file_transfer"@, key@),
            Some(s) => match parse_value(kind(s), value@) {
                None => r matches Err(e) && e@ == invalid_value_msg(key@, value@),
                Some(v) => r is Ok && file_transfer_value(*final(config), s) == v && forall|t: Setting|
                    t != s ==> file_transfer_value(*final(config), t) == file_transfer_value(*old(config), t),
            },
        },
{
    if str_eq(key, "chunk_size_kb") {
        match read_number(key, value, usize::MAX as u64) {
            Ok(n) => {
                config.chunk_size_kb = n as usize;
                Ok(())
            },
            Err(e) => Err(e),
        }
    } else if str_eq(key, "max_file_size_mb") {
        match read_number(key, value, usize::MAX as u64) {
            Ok(n) => {
                config.max_file_size_mb = n as usize;
                Ok(())
            },
            Err(e) => Err(e),
        }
    } else if str_eq(key, "max_concurrent_uploads") {
        match read_number(key, value, usize::MAX as u64) {
            Ok(n) => {
                config.max_concurrent_uploads = n as usize;
                Ok(())
            },
            Err(e) => Err(e),
        }
    } else if str_eq(key, "max_concurrent_downloads") {
        match read_number(key, value, usize::MAX as u64) {
            Ok(n) => {
                config.max_concurrent_downloads = n as usize;
                Ok(())
            },
            Err(e) => Err(e),
        }
    } else if str_eq(key, "enable_integrity_check") {
        match read_flag(key, value) {
            Ok(b) => {
                config.enable_integrity_check = b;
                Ok(())
            },
            Err(e) => Err(e),
        }
    } else {
        Err(unknown_key("file_transfer", key))
    }
}

/// Applies `key=value` of `[server]`.
fn parse_server_config(config: &mut ServerConfig, key: &str, value: &str) -> (r: Result<(), String>)
    ensures
        match server_key(key@) {
            None => r matches Err(e) && e@ == unknown_key_msg("server"@, key@),
            Some(s) => match parse_value(kind(s), value@) {
                None => r matches Err(e) && e@ == invalid_value_msg(key@, value@),
                Some(v) => r is Ok && server_value(*final(config), s) == v && forall|t: Setting|
                    t != s ==> server_value(*final(config), t) == server_value(*old(config), t),
            },
        },
{
    if str_eq(key, "bind_address") {
        config.bind_address = String::from_str(value);
        Ok(())
    } else if str_eq(key, "max_clients") {
        match read_number(key, value, usize::MAX as u64) {
            Ok(n) => {
                config.max_clients = n as usize;
                Ok(())
            },
            Err(e) => Err(e),
        }
    } else if str_eq(key, "users_file") {
        config.users_file = String::from_str(value);
        Ok(())
    } else {
        Err(unknown_key("server", key))
    }
}

/// Applies `key=value` of `[logging]`.
fn parse_logging_config(config: &mut LoggingConfig, key: &str, value: &str) -> (r: Result<(), String>)
    ensures
        match logging_key(key@) {
            None => r matches Err(e) && e@ == unknown_key_msg("logging"@, key@),
            Some(s) => match parse_value(kind(s), value@) {
                None => r matches Err(e) && e@ == invalid_value_msg(key@, value@),
                Some(v) => r is Ok && logging_value(*final(config), s) == v && forall|t: Setting|
                    t != s ==> logging_value(*final(config), t) == logging_value(*old(config), t),
            },
        },
{
    if str_eq(key, "log_file") {
        config.log_file = String::from_str(value);
        Ok(())
    } else {
        Err(unknown_key("logging", key))
    }
}

/// Applies `key=value` of `[tls]`.
fn parse_tls_config(config: &mut TlsConfig, key: &str, value: &str) -> (r: Result<(), String>)
    ensures
        match tls_key(key@) {
            None => r matches Err(e) && e@ == unknown_key_msg("tls"@, key@),
            Some(s) => match parse_value(kind(s), value@) {
                None => r matches Err(e) && e@ == invalid_value_msg(key@, value@),
                Some(v) => r is Ok && tls_value(*final(config), s) == v && forall|t: Setting|
                    t != s ==> tls_value(*final(config), t) == tls_value(*old(config), t),
            },
        },
{
    if str_eq(key, "psk") {
        config.psk = String::from_str(value);
        Ok(())
    } else {
        Err(unknown_key("tls", key))
    }
}

/// The setting a key of the section named `sec` gives, if any.
#[verifier::opaque]
pub open spec fn given(sec: Seq<char>, k: Seq<char>) -> Option<Setting> {
    match section_named(sec) {
        Some(section) => key_of(section, k),
        None => None,
    }
}

/// The error of `key=value` in the section named `sec`, if it has one.
#[verifier::opaque]
pub open spec fn pair_error(sec: Seq<char>, k: Seq<char>, v: Seq<char>) -> Option<Seq<char>> {
    match section_named(sec) {
        None => Some(bad_section_msg(sec)),
        Some(Section::Ui) => if k == "frame_scaling"@ {
            None
        } else {
            Some(unknown_key_msg(sec, k))
        },
        Some(section) => match key_of(section, k) {
            None => Some(unknown_key_msg(sec, k)),
            Some(s) => if parse_value(kind(s), v) is Some {
                None
            } else {
                Some(invalid_value_msg(k, v))
            },
        },
    }
}

/// The value a valid text gives a setting.
pub open spec fn read_value(s: Setting, t: Seq<char>) -> Value {
    match parse_value(kind(s), t) {
        Some(v) => v,
        None => default_value(s),
    }
}

/// The message for an unknown section.
fn bad_section(section: &str) -> (r: String)
    ensures
        r@ == bad_section_msg(section@),
{
    let mut r = String::from_str("Seccion invalida [");
    push_str(&mut r, section);
    push_str(&mut r, "]");
    r
}

/// Applies `key=value`, read on line `line` while the section named `section` is in force:
/// a setting takes the value, a `[ui]` value is kept with its line number.
fn parse_setting(config: &mut AppConfig, section: &str, line: usize, key: &str, value: &str) -> (r: Result<(), String>)
    ensures
        match pair_error(section@, key@, value@) {
            Some(e) => r matches Err(m) && m@ == e && final(config).ui == old(config).ui,
            None => r is Ok && if section_named(section@) == Some(Section::Ui) {
                &&& scaling_view(final(config).ui.frame_scaling@) == scaling_view(
                    old(config).ui.frame_scaling@,
                ).push((line as int, value@))
                &&& forall|t: Setting| value_of(*final(config), t) == value_of(*old(config), t)
            } else {
                &&& given(section@, key@) matches Some(s) && value_of(*final(config), s)
                    == read_value(s, value@) && forall|t: Setting|
                    t != s ==> value_of(*final(config), t) == value_of(*old(config), t)
                &&& final(config).ui == old(config).ui
            },
        },
{
    proof {
        reveal(value_of);
        reveal(pair_error);
        reveal(given);
    }
    match section_id(section) {
        None => Err(bad_section(section)),
        Some(Section::Camera) => parse_camera_config(&mut config.camera, key, value),
        Some(Section::Ui) => {
            if str_eq(key, "frame_scaling") {
                let ghost before = config.ui.frame_scaling@;
                config.ui.frame_scaling.push((line, String::from_str(value)));
                assert(scaling_view(config.ui.frame_scaling@) =~= scaling_view(before).push(
                    (line as int, value@),
                ));
                Ok(())
            } else {
                Err(unknown_key("ui", key))
            }
        },
        Some(Section::Rtp) => parse_rtp_config(&mut config.rtp, key, value),
        Some(Section::Ice) => parse_ice_config(&mut config.ice, key, value),
        Some(Section::Sdp) => parse_sdp_config(&mut config.sdp, key, value),
        Some(Section::Multiplexer) => parse_multiplexer_config(&mut config.multiplexer, key, value),
        Some(Section::Media) => parse_media_config(&mut config.media, key, value),
        Some(Section::DataChannel) => parse_data_channel_config(
            &mut config.data_channel,
            key,
            value,
        ),
        Some(Section::FileTransfer) => parse_file_transfer_config(
            &mut config.file_transfer,
            key,
            value,
        ),
        Some(Section::Server) => parse_server_config(&mut config.server, key, value),
        Some(Section::Logging) => parse_logging_config(&mut config.logging, key, value),
        Some(Section::Tls) => parse_tls_config(&mut config.tls, key, value),
    }
}

/// A line that gives nothing: blank, or a comment starting with '#'.
pub open spec fn skipped(l: Seq<char>) -> bool {
    l.len() == 0 || l[0] == '#'
}

/// A section header `[name]`.
pub open spec fn header(l: Seq<char>) -> bool {
    !skipped(l) && l[0] == '[' && l.last() == ']'
}

/// The section name a header gives, in lower case.
pub open spec fn header_name(l: Seq<char>) -> Seq<char> {
    lowercase_of(l.subrange(1, l.len() - 1))
}

/// The key and the value of a line split at its first '=', each trimmed.
pub open spec fn pair_of(l: Seq<char>) -> Option<(Seq<char>, Seq<char>)> {
    match first_index_of(l, '=') {
        Some(p) => Some((trim_ws(l.subrange(0, p)), trim_ws(l.subrange(p + 1, l.len() as int)))),
        None => None,
    }
}

/// The section in force after the first `n` lines: the name of the last header among
/// them, or the empty name before any.
pub open spec fn section_before(ls: Seq<Seq<char>>, n: int) -> Seq<char>
    decreases n,
{
    if n <= 0 {
        Seq::empty()
    } else if header(trim_ws(ls[n - 1])) {
        header_name(trim_ws(ls[n - 1]))
    } else {
        section_before(ls, n - 1)
    }
}

/// Whether line `i` is a `key=value` line.
pub open spec fn pair_line(ls: Seq<Seq<char>>, i: int) -> bool {
    let l = trim_ws(ls[i]);
    !skipped(l) && !header(l) && pair_of(l) is Some
}

/// The key of line `i`.
pub open spec fn line_key(ls: Seq<Seq<char>>, i: int) -> Seq<char> {
    match pair_of(trim_ws(ls[i])) {
        Some(kv) => kv.0,
        None => Seq::empty(),
    }
}

/// The value of line `i`.
pub open spec fn line_value(ls: Seq<Seq<char>>, i: int) -> Seq<char> {
    match pair_of(trim_ws(ls[i])) {
        Some(kv) => kv.1,
        None => Seq::empty(),
    }
}

/// The error of line `i`, without its number, if it has one.
pub open spec fn line_error(ls: Seq<Seq<char>>, i: int) -> Option<Seq<char>> {
    let l = trim_ws(ls[i]);
    if skipped(l) || header(l) {
        None
    } else if pair_of(l) is None {
        Some(bad_line_msg())
    } else {
        pair_error(section_before(ls, i), line_key(ls, i), line_value(ls, i))
    }
}

/// The setting line `i` gives, if any.
pub open spec fn line_setting(ls: Seq<Seq<char>>, i: int) -> Option<Setting> {
    if pair_line(ls, i) {
        given(section_before(ls, i), line_key(ls, i))
    } else {
        None
    }
}

/// Whether line `i` gives a `[ui]` `frame_scaling` value.
pub open spec fn line_scaling(ls: Seq<Seq<char>>, i: int) -> bool {
    pair_line(ls, i) && section_named(section_before(ls, i)) == Some(Section::Ui) && line_key(
        ls,
        i,
    ) == "frame_scaling"@
}

/// The text that the last of the first `n` lines to give `s` gives it.
pub open spec fn last_text(ls: Seq<Seq<char>>, n: int, s: Setting) -> Option<Seq<char>>
    decreases n,
{
    if n <= 0 {
        None
    } else if line_setting(ls, n - 1) == Some(s) {
        Some(line_value(ls, n - 1))
    } else {
        last_text(ls, n - 1, s)
    }
}

/// The value of `s` after the first `n` lines: what the last of them to give it gives, or
/// its default.
pub open spec fn setting_value(ls: Seq<Seq<char>>, n: int, s: Setting) -> Value {
    match last_text(ls, n, s) {
        Some(t) => read_value(s, t),
        None => default_value(s),
    }
}

/// The `[ui]` `frame_scaling` values among the first `n` lines, each with its line number
/// (from 1).
pub open spec fn scaling_lines(ls: Seq<Seq<char>>, n: int) -> Seq<(int, Seq<char>)>
    decreases n,
{
    if n <= 0 {
        Seq::empty()
    } else if line_scaling(ls, n - 1) {
        scaling_lines(ls, n - 1).push((n, line_value(ls, n - 1)))
    } else {
        scaling_lines(ls, n - 1)
    }
}

/// Whether line `i` is the first line with an error.
pub open spec fn first_error_at(ls: Seq<Seq<char>>, i: int) -> bool {
    &&& 0 <= i < ls.len()
    &&& line_error(ls, i) is Some
    &&& forall|j: int| 0 <= j < i ==> line_error(ls, j) is None
}

/// The message for the error of line `i`, with its number.
pub open spec fn error_message(ls: Seq<Seq<char>>, i: int) -> Seq<char> {
    match line_error(ls, i) {
        Some(e) => line_msg((i + 1) as nat, e),
        None => Seq::empty(),
    }
}

/// Why a configuration text is refused: the message for its first bad line, and the `[ui]`
/// values read before that line, which the application still reads as numbers.
#[derive(Debug, Clone)]
pub struct ConfigError {
    pub message: String,
    pub ui: UiConfig,
}

/// The message for an error of the line numbered `n`.
fn line_message(n: usize, e: &str) -> (r: String)
    ensures
        r@ == line_msg(n as nat, e@),
{
    let mut r = String::from_str("Line ");
    let d = u64_to_decimal(n as u64);
    push_str(&mut r, d.as_str());
    push_str(&mut r, ": ");
    push_str(&mut r, e);
    r
}

/// What a blank line, a comment or a header changes.
proof fn lemma_quiet_line(ls: Seq<Seq<char>>, k: int)
    requires
        0 <= k < ls.len(),
        skipped(trim_ws(ls[k])) || header(trim_ws(ls[k])),
    ensures
        line_error(ls, k) is None,
        scaling_lines(ls, k + 1) == scaling_lines(ls, k),
        forall|s: Setting| setting_value(ls, k + 1, s) == setting_value(ls, k, s),
        section_before(ls, k + 1) == if header(trim_ws(ls[k])) {
            header_name(trim_ws(ls[k]))
        } else {
            section_before(ls, k)
        },
{
    assert forall|s: Setting| setting_value(ls, k + 1, s) == setting_value(ls, k, s) by {
        assert(last_text(ls, k + 1, s) == last_text(ls, k, s));
    }
}

/// What a valid `key=value` line changes: a `[ui]` value is added to those read, and any
/// other line sets its setting alone.
proof fn lemma_pair_line(ls: Seq<Seq<char>>, k: int)
    requires
        0 <= k < ls.len(),
        pair_line(ls, k),
        line_error(ls, k) is None,
    ensures
        section_before(ls, k + 1) == section_before(ls, k),
        line_scaling(ls, k) <==> section_named(section_before(ls, k)) == Some(Section::Ui),
        line_scaling(ls, k) ==> {
            &&& scaling_lines(ls, k + 1) == scaling_lines(ls, k).push(
                (k + 1, line_value(ls, k)),
            )
            &&& forall|s: Setting| setting_value(ls, k + 1, s) == setting_value(ls, k, s)
        },
        !line_scaling(ls, k) ==> {
            &&& scaling_lines(ls, k + 1) == scaling_lines(ls, k)
            &&& line_setting(ls, k) matches Some(s0) && setting_value(ls, k + 1, s0) == read_value(
                s0,
                line_value(ls, k),
            ) && forall|t: Setting|
                t != s0 ==> setting_value(ls, k + 1, t) == setting_value(ls, k, t)
        },
{
    reveal(pair_error);
    reveal(given);
    if line_scaling(ls, k) {
        assert forall|s: Setting| setting_value(ls, k + 1, s) == setting_value(ls, k, s) by {
            assert(line_setting(ls, k) is None);
            assert(last_text(ls, k + 1, s) == last_text(ls, k, s));
        }
    } else {
        let s0 = line_setting(ls, k)->Some_0;
        assert(line_setting(ls, k) is Some);
        assert forall|t: Setting| t != s0 implies setting_value(ls, k + 1, t) == setting_value(
            ls,
            k,
            t,
        ) by {
            assert(last_text(ls, k + 1, t) == last_text(ls, k, t));
        }
    }
}

/// Applies the `key=value` line `k` of the lines `ls` in the section named `section`.
fn read_pair(
    config: &mut AppConfig,
    section: &str,
    key: &str,
    value: &str,
    k: usize,
    Ghost(ls): Ghost<Seq<Seq<char>>>,
) -> (r: Result<(), String>)
    requires
        k < ls.len(),
        k < usize::MAX,
        pair_line(ls, k as int),
        key@ == line_key(ls, k as int),
        value@ == line_value(ls, k as int),
        section@ == section_before(ls, k as int),
        forall|s: Setting| value_of(*old(config), s) == setting_value(ls, k as int, s),
        scaling_view(old(config).ui.frame_scaling@) == scaling_lines(ls, k as int),
    ensures
        match line_error(ls, k as int) {
            Some(e) => r matches Err(m) && m@ == e && final(config).ui == old(config).ui,
            None => {
                &&& r is Ok
                &&& forall|s: Setting| value_of(*final(config), s) == setting_value(ls, k + 1, s)
                &&& scaling_view(final(config).ui.frame_scaling@) == scaling_lines(ls, k + 1)
            },
        },
{
    let ghost before = *config;
    let r = parse_setting(config, section, k + 1, key, value);
    proof {
        if r is Ok {
            lemma_pair_line(ls, k as int);
            if !line_scaling(ls, k as int) {
                assert forall|s: Setting| value_of(*config, s) == setting_value(ls, k + 1, s) by {
                    assert(value_of(before, s) == setting_value(ls, k as int, s));
                }
            }
        }
    }
    r
}

/// Reads line `k` of the lines `ls`, trimmed to `cs[ta..tb]`, into the configuration and
/// the name of the section in force.
#[verifier::spinoff_prover]
#[verifier::rlimit(40)]
fn read_line(
    config: &mut AppConfig,
    section: &mut String,
    cs: &Vec<char>,
    ta: usize,
    tb: usize,
    k: usize,
    Ghost(ls): Ghost<Seq<Seq<char>>>,
) -> (r: Result<(), String>)
    requires
        k < ls.len(),
        k < usize::MAX,
        ta <= tb <= cs@.len(),
        cs@.subrange(ta as int, tb as int) == trim_ws(ls[k as int]),
        old(section)@ == section_before(ls, k as int),
        forall|s: Setting| value_of(*old(config), s) == setting_value(ls, k as int, s),
        scaling_view(old(config).ui.frame_scaling@) == scaling_lines(ls, k as int),
    ensures
        match line_error(ls, k as int) {
            Some(e) => r matches Err(m) && m@ == e && final(config).ui == old(config).ui,
            None => {
                &&& r is Ok
                &&& final(section)@ == section_before(ls, k + 1)
                &&& forall|s: Setting| value_of(*final(config), s) == setting_value(ls, k + 1, s)
                &&& scaling_view(final(config).ui.frame_scaling@) == scaling_lines(ls, k + 1)
            },
        },
{
    let ghost l = trim_ws(ls[k as int]);
    if ta == tb || cs[ta] == '#' {
        proof {
            lemma_quiet_line(ls, k as int);
        }
        Ok(())
    } else if cs[ta] == '[' && cs[tb - 1] == ']' {
        let inner = string_from_range(cs, ta + 1, tb - 1);
        assert(inner@ =~= l.subrange(1, l.len() - 1));
        *section = to_lowercase(inner.as_str());
        proof {
            lemma_quiet_line(ls, k as int);
        }
        Ok(())
    } else {
        assert(!skipped(l) && !header(l));
        match find_char(cs, ta, tb, '=') {
            None => Err(String::from_str("Valor invalido para format (expected key=value)")),
            Some(p) => {
                let (ka, kb) = trim_range(cs, ta, p);
                let (va, vb) = trim_range(cs, p + 1, tb);
                let key = string_from_range(cs, ka, kb);
                let value = string_from_range(cs, va, vb);
                proof {
                    let q = (p - ta) as int;
                    assert(l.subrange(0, q) =~= cs@.subrange(ta as int, p as int));
                    assert(l.subrange(q + 1, l.len() as int) =~= cs@.subrange(
                        p + 1,
                        tb as int,
                    ));
                    assert(pair_of(l) == Some((key@, value@)));
                }
                read_pair(config, section.as_str(), key.as_str(), value.as_str(), k, Ghost(ls))
            },
        }
    }
}

/// The value text of the last of the first `n` lines that gives the key `key` under a
/// header naming the section `sec`.
pub open spec fn last_assignment(ls: Seq<Seq<char>>, n: int, sec: Seq<char>, key: Seq<char>) -> Option<Seq<char>>
    decreases n,
{
    if n <= 0 {
        None
    } else if pair_line(ls, n - 1) && section_before(ls, n - 1) == sec && line_key(ls, n - 1) == key {
        Some(line_value(ls, n - 1))
    } else {
        last_assignment(ls, n - 1, sec, key)
    }
}

/// The unsigned number a text gives, or `d` when there is no text or it is not one.
pub open spec fn unsigned_or(t: Option<Seq<char>>, d: int) -> int {
    match t {
        Some(x) => match parse_unsigned(x, usize::MAX as nat) {
            Some(v) => v as int,
            None => d,
        },
        None => d,
    }
}

/// The flag a text gives, or `d` when there is no text or it is neither "true" nor "false".
pub open spec fn flag_or(t: Option<Seq<char>>, d: bool) -> bool {
    match t {
        Some(x) => if x == "true"@ {
            true
        } else if x == "false"@ {
            false
        } else {
            d
        },
        None => d,
    }
}

/// The keys of `[file_transfer]` each name one setting.
proof fn lemma_file_transfer_key_names(k: Seq<char>)
    ensures
        file_transfer_key(k) == Some(Setting::ChunkSizeKb) <==> k == "chunk_size_kb"@,
        file_transfer_key(k) == Some(Setting::MaxFileSizeMb) <==> k == "max_file_size_mb"@,
        file_transfer_key(k) == Some(Setting::MaxConcurrentUploads) <==> k == "max_concurrent_uploads"@,
        file_transfer_key(k) == Some(Setting::MaxConcurrentDownloads) <==> k == "max_concurrent_downloads"@,
        file_transfer_key(k) == Some(Setting::EnableIntegrityCheck) <==> k == "enable_integrity_check"@,
{
    reveal_strlit("chunk_size_kb");
    reveal_strlit("max_file_size_mb");
    reveal_strlit("max_concurrent_uploads");
    reveal_strlit("max_concurrent_downloads");
    reveal_strlit("enable_integrity_check");
    assert("max_file_size_mb"@.len() != "chunk_size_kb"@.len());
    assert("max_concurrent_uploads"@.len() != "chunk_size_kb"@.len());
    assert("max_concurrent_uploads"@.len() != "max_file_size_mb"@.len());
    assert("max_concurrent_downloads"@.len() != "chunk_size_kb"@.len());
    assert("max_concurrent_downloads"@.len() != "max_file_size_mb"@.len());
    assert("max_concurrent_downloads"@.len() != "max_concurrent_uploads"@.len());
    assert("enable_integrity_check"@.len() != "chunk_size_kb"@.len());
    assert("enable_integrity_check"@.len() != "max_file_size_mb"@.len());
    assert("enable_integrity_check"@.len() != "max_concurrent_downloads"@.len());
    assert("max_concurrent_uploads"@[0] != "enable_integrity_check"@[0]);
    assert("max_file_size_mb"@ != "chunk_size_kb"@);
    assert("max_concurrent_uploads"@ != "chunk_size_kb"@);
    assert("max_concurrent_uploads"@ != "max_file_size_mb"@);
    assert("max_concurrent_downloads"@ != "chunk_size_kb"@);
    assert("max_concurrent_downloads"@ != "max_file_size_mb"@);
    assert("max_concurrent_downloads"@ != "max_concurrent_uploads"@);
    assert("enable_integrity_check"@ != "chunk_size_kb"@);
    assert("enable_integrity_check"@ != "max_file_size_mb"@);
    assert("enable_integrity_check"@ != "max_concurrent_downloads"@);
    assert("enable_integrity_check"@ != "max_concurrent_uploads"@);
}

/// Whether `x` is a setting of `[file_transfer]`.
pub open spec fn file_transfer_setting(x: Setting) -> bool {
    x is ChunkSizeKb || x is MaxFileSizeMb || x is MaxConcurrentUploads || x is MaxConcurrentDownloads
        || x is EnableIntegrityCheck
}

/// A key gives a setting of `[file_transfer]` only under that section's header.
proof fn lemma_given_file_transfer(sec: Seq<char>, k: Seq<char>, x: Setting)
    requires
        file_transfer_setting(x),
    ensures
        given(sec, k) == Some(x) <==> (sec == "file_transfer"@ && file_transfer_key(k) == Some(x)),
{
    reveal(given);
    reveal_strlit("camera");
    reveal_strlit("ui");
    reveal_strlit("rtp");
    reveal_strlit("ice");
    reveal_strlit("sdp");
    reveal_strlit("multiplexer");
    reveal_strlit("media");
    reveal_strlit("data_channel");
    reveal_strlit("file_transfer");
    let f = "file_transfer"@;
    assert(f.len() == 13);
    assert(f != "camera"@ && f != "ui"@ && f != "rtp"@ && f != "ice"@ && f != "sdp"@) by {
        assert("camera"@.len() == 6 && "ui"@.len() == 2 && "rtp"@.len() == 3 && "ice"@.len() == 3
            && "sdp"@.len() == 3);
    }
    assert(f != "multiplexer"@ && f != "media"@ && f != "data_channel"@) by {
        assert("multiplexer"@.len() == 11 && "media"@.len() == 5 && "data_channel"@.len() == 12);
    }
    if sec == f {
        assert(section_named(sec) == Some(Section::FileTransfer));
    }
}

/// The last line to give a setting of `[file_transfer]` is the last line to give its key
/// under that section's header.
proof fn lemma_last_text_file_transfer(ls: Seq<Seq<char>>, n: int, x: Setting, key: Seq<char>)
    requires
        file_transfer_setting(x),
        forall|k: Seq<char>| file_transfer_key(k) == Some(x) <==> k == key,
    ensures
        last_text(ls, n, x) == last_assignment(ls, n, "file_transfer"@, key),
    decreases n,
{
    if n > 0 {
        lemma_last_text_file_transfer(ls, n - 1, x, key);
        lemma_given_file_transfer(section_before(ls, n - 1), line_key(ls, n - 1), x);
    }
}

/// Parsing a configuration sets each field of `[file_transfer]` from the key of the same
/// name: from the value of the last `key=value` line with that key under a
/// `[file_transfer]` header, or to its default (chunk size 64 KB, file size 100 MB, 5
/// uploads, 10 downloads, integrity check on) when no line gives it.
pub proof fn lemma_file_transfer_fields(c: AppConfig, ls: Seq<Seq<char>>)
    requires
        forall|s: Setting| value_of(c, s) == setting_value(ls, ls.len() as int, s),
    ensures
        c.file_transfer.chunk_size_kb as int == unsigned_or(
            last_assignment(ls, ls.len() as int, "file_transfer"@, "chunk_size_kb"@),
            64,
        ),
        c.file_transfer.max_file_size_mb as int == unsigned_or(
            last_assignment(ls, ls.len() as int, "file_transfer"@, "max_file_size_mb"@),
            100,
        ),
        c.file_transfer.max_concurrent_uploads as int == unsigned_or(
            last_assignment(ls, ls.len() as int, "file_transfer"@, "max_concurrent_uploads"@),
            5,
        ),
        c.file_transfer.max_concurrent_downloads as int == unsigned_or(
            last_assignment(ls, ls.len() as int, "file_transfer"@, "max_concurrent_downloads"@),
            10,
        ),
        c.file_transfer.enable_integrity_check == flag_or(
            last_assignment(ls, ls.len() as int, "file_transfer"@, "enable_integrity_check"@),
            true,
        ),
{
    reveal(value_of);
    let n = ls.len() as int;
    assert forall|k: Seq<char>| file_transfer_key(k) == Some(Setting::ChunkSizeKb) <==> k == "chunk_size_kb"@ by {
        lemma_file_transfer_key_names(k);
    }
    assert forall|k: Seq<char>| file_transfer_key(k) == Some(Setting::MaxFileSizeMb) <==> k == "max_file_size_mb"@ by {
        lemma_file_transfer_key_names(k);
    }
    assert forall|k: Seq<char>| file_transfer_key(k) == Some(Setting::MaxConcurrentUploads) <==> k
        == "max_concurrent_uploads"@ by {
        lemma_file_transfer_key_names(k);
    }
    assert forall|k: Seq<char>| file_transfer_key(k) == Some(Setting::MaxConcurrentDownloads) <==> k
        == "max_concurrent_downloads"@ by {
        lemma_file_transfer_key_names(k);
    }
    assert forall|k: Seq<char>| file_transfer_key(k) == Some(Setting::EnableIntegrityCheck) <==> k
        == "enable_integrity_check"@ by {
        lemma_file_transfer_key_names(k);
    }
    lemma_last_text_file_transfer(ls, n, Setting::ChunkSizeKb, "chunk_size_kb"@);
    lemma_last_text_file_transfer(ls, n, Setting::MaxFileSizeMb, "max_file_size_mb"@);
    lemma_last_text_file_transfer(ls, n, Setting::MaxConcurrentUploads, "max_concurrent_uploads"@);
    lemma_last_text_file_transfer(ls, n, Setting::MaxConcurrentDownloads, "max_concurrent_downloads"@);
    lemma_last_text_file_transfer(ls, n, Setting::EnableIntegrityCheck, "enable_integrity_check"@);
    assert(value_of(c, Setting::ChunkSizeKb) == setting_value(ls, n, Setting::ChunkSizeKb));
    assert(value_of(c, Setting::MaxFileSizeMb) == setting_value(ls, n, Setting::MaxFileSizeMb));
    assert(value_of(c, Setting::MaxConcurrentUploads) == setting_value(ls, n, Setting::MaxConcurrentUploads));
    assert(value_of(c, Setting::MaxConcurrentDownloads) == setting_value(ls, n, Setting::MaxConcurrentDownloads));
    assert(value_of(c, Setting::EnableIntegrityCheck) == setting_value(ls, n, Setting::EnableIntegrityCheck));
}

/// The value a setting takes from a text, if one is given (see `read_value`), or its
/// default.
pub open spec fn read_or(s: Setting, t: Option<Seq<char>>) -> Value {
    match t {
        Some(x) => read_value(s, x),
        None => default_value(s),
    }
}

/// The last line to give a setting is the last line to give its key under its section's
/// header, when the key and the section name are the only ones that give it.
proof fn lemma_last_text_key(ls: Seq<Seq<char>>, n: int, x: Setting, sx: Section, name: Seq<char>, key: Seq<char>)
    requires
        forall|s: Seq<char>| section_named(s) == Some(sx) <==> s == name,
        forall|k: Seq<char>| key_of(sx, k) == Some(x) <==> k == key,
        forall|t: Section, k: Seq<char>| key_of(t, k) == Some(x) ==> t == sx,
    ensures
        last_text(ls, n, x) == last_assignment(ls, n, name, key),
    decreases n,
{
    if n > 0 {
        lemma_last_text_key(ls, n - 1, x, sx, name, key);
        reveal(given);
        let sec = section_before(ls, n - 1);
        let k = line_key(ls, n - 1);
        assert(given(sec, k) == Some(x) <==> (sec == name && k == key)) by {
            if given(sec, k) == Some(x) {
                assert(section_named(sec) is Some);
                assert(key_of(section_named(sec)->0, k) == Some(x));
            }
        }
    }
}

/// Each section name denotes one section.
proof fn lemma_section_names(sec: Seq<char>)
    ensures
        section_named(sec) == Some(Section::Camera) <==> sec == "camera"@,
        section_named(sec) == Some(Section::Ui) <==> sec == "ui"@,
        section_named(sec) == Some(Section::Rtp) <==> sec == "rtp"@,
        section_named(sec) == Some(Section::Ice) <==> sec == "ice"@,
        section_named(sec) == Some(Section::Sdp) <==> sec == "sdp"@,
        section_named(sec) == Some(Section::Multiplexer) <==> sec == "multiplexer"@,
        section_named(sec) == Some(Section::Media) <==> sec == "media"@,
        section_named(sec) == Some(Section::DataChannel) <==> sec == "data_channel"@,
        section_named(sec) == Some(Section::FileTransfer) <==> sec == "file_transfer"@,
        section_named(sec) == Some(Section::Server) <==> sec == "server"@,
        section_named(sec) == Some(Section::Logging) <==> sec == "logging"@,
        section_named(sec) == Some(Section::Tls) <==> sec == "tls"@,
{
    reveal_strlit("camera");
    reveal_strlit("ui");
    reveal_strlit("rtp");
    reveal_strlit("ice");
    reveal_strlit("sdp");
    reveal_strlit("multiplexer");
    reveal_strlit("media");
    reveal_strlit("data_channel");
    reveal_strlit("file_transfer");
    reveal_strlit("server");
    reveal_strlit("logging");
    reveal_strlit("tls");
    assert("ui"@.len() != "camera"@.len());
    assert("ui"@ != "camera"@);
    assert("rtp"@.len() != "camera"@.len());
    assert("rtp"@ != "camera"@);
    assert("ice"@.len() != "camera"@.len());
    assert("ice"@ != "camera"@);
    assert("sdp"@.len() != "camera"@.len());
    assert("sdp"@ != "camera"@);
    assert("multiplexer"@.len() != "camera"@.len());
    assert("multiplexer"@ != "camera"@);
    assert("media"@.len() != "camera"@.len());
    assert("media"@ != "camera"@);
    assert("data_channel"@.len() != "camera"@.len());
    assert("data_channel"@ != "camera"@);
    assert("file_transfer"@.len() != "camera"@.len());
    assert("file_transfer"@ != "camera"@);
    assert("server"@[0] != "camera"@[0]);
    assert("server"@ != "camera"@);
    assert("logging"@.len() != "camera"@.len());
    assert("logging"@ != "camera"@);
    assert("tls"@.len() != "camera"@.len());
    assert("tls"@ != "camera"@);
    assert("rtp"@.len() != "ui"@.len());
    assert("rtp"@ != "ui"@);
    assert("ice"@.len() != "ui"@.len());
    assert("ice"@ != "ui"@);
    assert("sdp"@.len() != "ui"@.len());
    assert("sdp"@ != "ui"@);
    assert("multiplexer"@.len() != "ui"@.len());
    assert("multiplexer"@ != "ui"@);
    assert("media"@.len() != "ui"@.len());
    assert("media"@ != "ui"@);
    assert("data_channel"@.len() != "ui"@.len());
    assert("data_channel"@ != "ui"@);
    assert("file_transfer"@.len() != "ui"@.len());
    assert("file_transfer"@ != "ui"@);
    assert("server"@.len() != "ui"@.len());
    assert("server"@ != "ui"@);
    assert("logging"@.len() != "ui"@.len());
    assert("logging"@ != "ui"@);
    assert("tls"@.len() != "ui"@.len());
    assert("tls"@ != "ui"@);
    assert("ice"@[0] != "rtp"@[0]);
    assert("ice"@ != "rtp"@);
    assert("sdp"@[0] != "rtp"@[0]);
    assert("sdp"@ != "rtp"@);
    assert("multiplexer"@.len() != "rtp"@.len());
    assert("multiplexer"@ != "rtp"@);
    assert("media"@.len() != "rtp"@.len());
    assert("media"@ != "rtp"@);
    assert("data_channel"@.len() != "rtp"@.len());
    assert("data_channel"@ != "rtp"@);
    assert("file_transfer"@.len() != "rtp"@.len());
    assert("file_transfer"@ != "rtp"@);
    assert("server"@.len() != "rtp"@.len());
    assert("server"@ != "rtp"@);
    assert("logging"@.len() != "rtp"@.len());
    assert("logging"@ != "rtp"@);
    assert("tls"@[0] != "rtp"@[0]);
    assert("tls"@ != "rtp"@);
    assert("sdp"@[0] != "ice"@[0]);
    assert("sdp"@ != "ice"@);
    assert("multiplexer"@.len() != "ice"@.len());
    assert("multiplexer"@ != "ice"@);
    assert("media"@.len() != "ice"@.len());
    assert("media"@ != "ice"@);
    assert("data_channel"@.len() != "ice"@.len());
    assert("data_channel"@ != "ice"@);
    assert("file_transfer"@.len() != "ice"@.len());
    assert("file_transfer"@ != "ice"@);
    assert("server"@.len() != "ice"@.len());
    assert("server"@ != "ice"@);
    assert("logging"@.len() != "ice"@.len());
    assert("logging"@ != "ice"@);
    assert("tls"@[0] != "ice"@[0]);
    assert("tls"@ != "ice"@);
    assert("multiplexer"@.len() != "sdp"@.len());
    assert("multiplexer"@ != "sdp"@);
    assert("media"@.len() != "sdp"@.len());
    assert("media"@ != "sdp"@);
    assert("data_channel"@.len() != "sdp"@.len());
    assert("data_channel"@ != "sdp"@);
    assert("file_transfer"@.len() != "sdp"@.len());
    assert("file_transfer"@ != "sdp"@);
    assert("server"@.len() != "sdp"@.len());
    assert("server"@ != "sdp"@);
    assert("logging"@.len() != "sdp"@.len());
    assert("logging"@ != "sdp"@);
    assert("tls"@[0] != "sdp"@[0]);
    assert("tls"@ != "sdp"@);
    assert("media"@.len() != "multiplexer"@.len());
    assert("media"@ != "multiplexer"@);
    assert("data_channel"@.len() != "multiplexer"@.len());
    assert("data_channel"@ != "multiplexer"@);
    assert("file_transfer"@.len() != "multiplexer"@.len());
    assert("file_transfer"@ != "multiplexer"@);
    assert("server"@.len() != "multiplexer"@.len());
    assert("server"@ != "multiplexer"@);
    assert("logging"@.len() != "multiplexer"@.len());
    assert("logging"@ != "multiplexer"@);
    assert("tls"@.len() != "multiplexer"@.len());
    assert("tls"@ != "multiplexer"@);
    assert("data_channel"@.len() != "media"@.len());
    assert("data_channel"@ != "media"@);
    assert("file_transfer"@.len() != "media"@.len());
    assert("file_transfer"@ != "media"@);
    assert("server"@.len() != "media"@.len());
    assert("server"@ != "media"@);
    assert("logging"@.len() != "media"@.len());
    assert("logging"@ != "media"@);
    assert("tls"@.len() != "media"@.len());
    assert("tls"@ != "media"@);
    assert("file_transfer"@.len() != "data_channel"@.len());
    assert("file_transfer"@ != "data_channel"@);
    assert("server"@.len() != "data_channel"@.len());
    assert("server"@ != "data_channel"@);
    assert("logging"@.len() != "data_channel"@.len());
    assert("logging"@ != "data_channel"@);
    assert("tls"@.len() != "data_channel"@.len());
    assert("tls"@ != "data_channel"@);
    assert("server"@.len() != "file_transfer"@.len());
    assert("server"@ != "file_transfer"@);
    assert("logging"@.len() != "file_transfer"@.len());
    assert("logging"@ != "file_transfer"@);
    assert("tls"@.len() != "file_transfer"@.len());
    assert("tls"@ != "file_transfer"@);
    assert("logging"@.len() != "server"@.len());
    assert("logging"@ != "server"@);
    assert("tls"@.len() != "server"@.len());
    assert("tls"@ != "server"@);
    assert("tls"@.len() != "logging"@.len());
    assert("tls"@ != "logging"@);
}

/// The keys of `[camera]` each name one setting.
proof fn lemma_camera_key_names(k: Seq<char>)
    ensures
        camera_key(k) == Some(Setting::ResolutionWidth) <==> k == "resolution_width"@,
        camera_key(k) == Some(Setting::ResolutionHeight) <==> k == "resolution_height"@,
        camera_key(k) == Some(Setting::Framerate) <==> k == "framerate"@,
{
    reveal_strlit("resolution_width");
    reveal_strlit("resolution_height");
    reveal_strlit("framerate");
    assert("resolution_height"@.len() != "resolution_width"@.len());
    assert("resolution_height"@ != "resolution_width"@);
    assert("framerate"@.len() != "resolution_width"@.len());
    assert("framerate"@ != "resolution_width"@);
    assert("framerate"@.len() != "resolution_height"@.len());
    assert("framerate"@ != "resolution_height"@);
}

/// The keys of `[rtp]` each name one setting.
proof fn lemma_rtp_key_names(k: Seq<char>)
    ensures
        rtp_key(k) == Some(Setting::PayloadType) <==> k == "payload_type"@,
        rtp_key(k) == Some(Setting::TimestampStep) <==> k == "timestamp_step"@,
        rtp_key(k) == Some(Setting::LogInterval) <==> k == "log_interval"@,
        rtp_key(k) == Some(Setting::ErrorLogInterval) <==> k == "error_log_interval"@,
        rtp_key(k) == Some(Setting::DefaultSsrc) <==> k == "default_ssrc"@,
        rtp_key(k) == Some(Setting::AudioPayloadType) <==> k == "audio_payload_type"@,
        rtp_key(k) == Some(Setting::AudioSsrc) <==> k == "audio_ssrc"@,
        rtp_key(k) == Some(Setting::AudioClockRate) <==> k == "audio_clock_rate"@,
        rtp_key(k) == Some(Setting::AudioFrameSize) <==> k == "audio_frame_size"@,
{
    reveal_strlit("payload_type");
    reveal_strlit("timestamp_step");
    reveal_strlit("log_interval");
    reveal_strlit("error_log_interval");
    reveal_strlit("default_ssrc");
    reveal_strlit("audio_payload_type");
    reveal_strlit("audio_ssrc");
    reveal_strlit("audio_clock_rate");
    reveal_strlit("audio_frame_size");
    assert("timestamp_step"@.len() != "payload_type"@.len());
    assert("timestamp_step"@ != "payload_type"@);
    assert("log_interval"@[0] != "payload_type"@[0]);
    assert("log_interval"@ != "payload_type"@);
    assert("error_log_interval"@.len() != "payload_type"@.len());
    assert("error_log_interval"@ != "payload_type"@);
    assert("default_ssrc"@[0] != "payload_type"@[0]);
    assert("default_ssrc"@ != "payload_type"@);
    assert("audio_payload_type"@.len() != "payload_type"@.len());
    assert("audio_payload_type"@ != "payload_type"@);
    assert("audio_ssrc"@.len() != "payload_type"@.len());
    assert("audio_ssrc"@ != "payload_type"@);
    assert("audio_clock_rate"@.len() != "payload_type"@.len());
    assert("audio_clock_rate"@ != "payload_type"@);
    assert("audio_frame_size"@.len() != "payload_type"@.len());
    assert("audio_frame_size"@ != "payload_type"@);
    assert("log_interval"@.len() != "timestamp_step"@.len());
    assert("log_interval"@ != "timestamp_step"@);
    assert("error_log_interval"@.len() != "timestamp_step"@.len());
    assert("error_log_interval"@ != "timestamp_step"@);
    assert("default_ssrc"@.len() != "timestamp_step"@.len());
    assert("default_ssrc"@ != "timestamp_step"@);
    assert("audio_payload_type"@.len() != "timestamp_step"@.len());
    assert("audio_payload_type"@ != "timestamp_step"@);
    assert("audio_ssrc"@.len() != "timestamp_step"@.len());
    assert("audio_ssrc"@ != "timestamp_step"@);
    assert("audio_clock_rate"@.len() != "timestamp_step"@.len());
    assert("audio_clock_rate"@ != "timestamp_step"@);
    assert("audio_frame_size"@.len() != "timestamp_step"@.len());
    assert("audio_frame_size"@ != "timestamp_step"@);
    assert("error_log_interval"@.len() != "log_interval"@.len());
    assert("error_log_interval"@ != "log_interval"@);
    assert("default_ssrc"@[0] != "log_interval"@[0]);
    assert("default_ssrc"@ != "log_interval"@);
    assert("audio_payload_type"@.len() != "log_interval"@.len());
    assert("audio_payload_type"@ != "log_interval"@);
    assert("audio_ssrc"@.len() != "log_interval"@.len());
    assert("audio_ssrc"@ != "log_interval"@);
    assert("audio_clock_rate"@.len() != "log_interval"@.len());
    assert("audio_clock_rate"@ != "log_interval"@);
    assert("audio_frame_size"@.len() != "log_interval"@.len());
    assert("audio_frame_size"@ != "log_interval"@);
    assert("default_ssrc"@.len() != "error_log_interval"@.len());
    assert("default_ssrc"@ != "error_log_interval"@);
    assert("audio_payload_type"@[0] != "error_log_interval"@[0]);
    assert("audio_payload_type"@ != "error_log_interval"@);
    assert("audio_ssrc"@.len() != "error_log_interval"@.len());
    assert("audio_ssrc"@ != "error_log_interval"@);
    assert("audio_clock_rate"@.len() != "error_log_interval"@.len());
    assert("audio_clock_rate"@ != "error_log_interval"@);
    assert("audio_frame_size"@.len() != "error_log_interval"@.len());
    assert("audio_frame_size"@ != "error_log_interval"@);
    assert("audio_payload_type"@.len() != "default_ssrc"@.len());
    assert("audio_payload_type"@ != "default_ssrc"@);
    assert("audio_ssrc"@.len() != "default_ssrc"@.len());
    assert("audio_ssrc"@ != "default_ssrc"@);
    assert("audio_clock_rate"@.len() != "default_ssrc"@.len());
    assert("audio_clock_rate"@ != "default_ssrc"@);
    assert("audio_frame_size"@.len() != "default_ssrc"@.len());
    assert("audio_frame_size"@ != "default_ssrc"@);
    assert("audio_ssrc"@.len() != "audio_payload_type"@.len());
    assert("audio_ssrc"@ != "audio_payload_type"@);
    assert("audio_clock_rate"@.len() != "audio_payload_type"@.len());
    assert("audio_clock_rate"@ != "audio_payload_type"@);
    assert("audio_frame_size"@.len() != "audio_payload_type"@.len());
    assert("audio_frame_size"@ != "audio_payload_type"@);
    assert("audio_clock_rate"@.len() != "audio_ssrc"@.len());
    assert("audio_clock_rate"@ != "audio_ssrc"@);
    assert("audio_frame_size"@.len() != "audio_ssrc"@.len());
    assert("audio_frame_size"@ != "audio_ssrc"@);
    assert("audio_frame_size"@[6] != "audio_clock_rate"@[6]);
    assert("audio_frame_size"@ != "audio_clock_rate"@);
}

/// The keys of `[ice]` each name one setting.
proof fn lemma_ice_key_names(k: Seq<char>)
    ensures
        ice_key(k) == Some(Setting::TimeoutMs) <==> k == "timeout_ms"@,
{
    reveal_strlit("timeout_ms");
}

/// The keys of `[sdp]` each name one setting.
proof fn lemma_sdp_key_names(k: Seq<char>)
    ensures
        sdp_key(k) == Some(Setting::Username) <==> k == "username"@,
        sdp_key(k) == Some(Setting::SessionId) <==> k == "session_id"@,
        sdp_key(k) == Some(Setting::SessionVersion) <==> k == "session_version"@,
        sdp_key(k) == Some(Setting::Nettype) <==> k == "nettype"@,
        sdp_key(k) == Some(Setting::Addrtype) <==> k == "addrtype"@,
        sdp_key(k) == Some(Setting::EnableSrflx) <==> k == "enable_srflx"@,
        sdp_key(k) == Some(Setting::AudioType) <==> k == "audio_type"@,
        sdp_key(k) == Some(Setting::AudioProtocol) <==> k == "audio_protocol"@,
        sdp_key(k) == Some(Setting::AudioCodecs) <==> k == "audio_codecs"@,
        sdp_key(k) == Some(Setting::AudioRtpmap) <==> k == "audio_rtpmap"@,
        sdp_key(k) == Some(Setting::AudioFmtp) <==> k == "audio_fmtp"@,
        sdp_key(k) == Some(Setting::VideoType) <==> k == "video_type"@,
        sdp_key(k) == Some(Setting::VideoProtocol) <==> k == "video_protocol"@,
        sdp_key(k) == Some(Setting::VideoCodecs) <==> k == "video_codecs"@,
        sdp_key(k) == Some(Setting::VideoRtpmap) <==> k == "video_rtpmap"@,
        sdp_key(k) == Some(Setting::VideoFmtp) <==> k == "video_fmtp"@,
{
    reveal_strlit("username");
    reveal_strlit("session_id");
    reveal_strlit("session_version");
    reveal_strlit("nettype");
    reveal_strlit("addrtype");
    reveal_strlit("enable_srflx");
    reveal_strlit("audio_type");
    reveal_strlit("audio_protocol");
    reveal_strlit("audio_codecs");
    reveal_strlit("audio_rtpmap");
    reveal_strlit("audio_fmtp");
    reveal_strlit("video_type");
    reveal_strlit("video_protocol");
    reveal_strlit("video_codecs");
    reveal_strlit("video_rtpmap");
    reveal_strlit("video_fmtp");
    assert("session_id"@.len() != "username"@.len());
    assert("session_id"@ != "username"@);
    assert("session_version"@.len() != "username"@.len());
    assert("session_version"@ != "username"@);
    assert("nettype"@.len() != "username"@.len());
    assert("nettype"@ != "username"@);
    assert("addrtype"@[0] != "username"@[0]);
    assert("addrtype"@ != "username"@);
    assert("enable_srflx"@.len() != "username"@.len());
    assert("enable_srflx"@ != "username"@);
    assert("audio_type"@.len() != "username"@.len());
    assert("audio_type"@ != "username"@);
    assert("audio_protocol"@.len() != "username"@.len());
    assert("audio_protocol"@ != "username"@);
    assert("audio_codecs"@.len() != "username"@.len());
    assert("audio_codecs"@ != "username"@);
    assert("audio_rtpmap"@.len() != "username"@.len());
    assert("audio_rtpmap"@ != "username"@);
    assert("audio_fmtp"@.len() != "username"@.len());
    assert("audio_fmtp"@ != "username"@);
    assert("video_type"@.len() != "username"@.len());
    assert("video_type"@ != "username"@);
    assert("video_protocol"@.len() != "username"@.len());
    assert("video_protocol"@ != "username"@);
    assert("video_codecs"@.len() != "username"@.len());
    assert("video_codecs"@ != "username"@);
    assert("video_rtpmap"@.len() != "username"@.len());
    assert("video_rtpmap"@ != "username"@);
    assert("video_fmtp"@.len() != "username"@.len());
    assert("video_fmtp"@ != "username"@);
    assert("session_version"@.len() != "session_id"@.len());
    assert("session_version"@ != "session_id"@);
    assert("nettype"@.len() != "session_id"@.len());
    assert("nettype"@ != "session_id"@);
    assert("addrtype"@.len() != "session_id"@.len());
    assert("addrtype"@ != "session_id"@);
    assert("enable_srflx"@.len() != "session_id"@.len());
    assert("enable_srflx"@ != "session_id"@);
    assert("audio_type"@[0] != "session_id"@[0]);
    assert("audio_type"@ != "session_id"@);
    assert("audio_protocol"@.len() != "session_id"@.len());
    assert("audio_protocol"@ != "session_id"@);
    assert("audio_codecs"@.len() != "session_id"@.len());
    assert("audio_codecs"@ != "session_id"@);
    assert("audio_rtpmap"@.len() != "session_id"@.len());
    assert("audio_rtpmap"@ != "session_id"@);
    assert("audio_fmtp"@[0] != "session_id"@[0]);
    assert("audio_fmtp"@ != "session_id"@);
    assert("video_type"@[0] != "session_id"@[0]);
    assert("video_type"@ != "session_id"@);
    assert("video_protocol"@.len() != "session_id"@.len());
    assert("video_protocol"@ != "session_id"@);
    assert("video_codecs"@.len() != "session_id"@.len());
    assert("video_codecs"@ != "session_id"@);
    assert("video_rtpmap"@.len() != "session_id"@.len());
    assert("video_rtpmap"@ != "session_id"@);
    assert("video_fmtp"@[0] != "session_id"@[0]);
    assert("video_fmtp"@ != "session_id"@);
    assert("nettype"@.len() != "session_version"@.len());
    assert("nettype"@ != "session_version"@);
    assert("addrtype"@.len() != "session_version"@.len());
    assert("addrtype"@ != "session_version"@);
    assert("enable_srflx"@.len() != "session_version"@.len());
    assert("enable_srflx"@ != "session_version"@);
    assert("audio_type"@.len() != "session_version"@.len());
    assert("audio_type"@ != "session_version"@);
    assert("audio_protocol"@.len() != "session_version"@.len());
    assert("audio_protocol"@ != "session_version"@);
    assert("audio_codecs"@.len() != "session_version"@.len());
    assert("audio_codecs"@ != "session_version"@);
    assert("audio_rtpmap"@.len() != "session_version"@.len());
    assert("audio_rtpmap"@ != "session_version"@);
    assert("audio_fmtp"@.len() != "session_version"@.len());
    assert("audio_fmtp"@ != "session_version"@);
    assert("video_type"@.len() != "session_version"@.len());
    assert("video_type"@ != "session_version"@);
    assert("video_protocol"@.len() != "session_version"@.len());
    assert("video_protocol"@ != "session_version"@);
    assert("video_codecs"@.len() != "session_version"@.len());
    assert("video_codecs"@ != "session_version"@);
    assert("video_rtpmap"@.len() != "session_version"@.len());
    assert("video_rtpmap"@ != "session_version"@);
    assert("video_fmtp"@.len() != "session_version"@.len());
    assert("video_fmtp"@ != "session_version"@);
    assert("addrtype"@.len() != "nettype"@.len());
    assert("addrtype"@ != "nettype"@);
    assert("enable_srflx"@.len() != "nettype"@.len());
    assert("enable_srflx"@ != "nettype"@);
    assert("audio_type"@.len() != "nettype"@.len());
    assert("audio_type"@ != "nettype"@);
    assert("audio_protocol"@.len() != "nettype"@.len());
    assert("audio_protocol"@ != "nettype"@);
    assert("audio_codecs"@.len() != "nettype"@.len());
    assert("audio_codecs"@ != "nettype"@);
    assert("audio_rtpmap"@.len() != "nettype"@.len());
    assert("audio_rtpmap"@ != "nettype"@);
    assert("audio_fmtp"@.len() != "nettype"@.len());
    assert("audio_fmtp"@ != "nettype"@);
    assert("video_type"@.len() != "nettype"@.len());
    assert("video_type"@ != "nettype"@);
    assert("video_protocol"@.len() != "nettype"@.len());
    assert("video_protocol"@ != "nettype"@);
    assert("video_codecs"@.len() != "nettype"@.len());
    assert("video_codecs"@ != "nettype"@);
    assert("video_rtpmap"@.len() != "nettype"@.len());
    assert("video_rtpmap"@ != "nettype"@);
    assert("video_fmtp"@.len() != "nettype"@.len());
    assert("video_fmtp"@ != "nettype"@);
    assert("enable_srflx"@.len() != "addrtype"@.len());
    assert("enable_srflx"@ != "addrtype"@);
    assert("audio_type"@.len() != "addrtype"@.len());
    assert("audio_type"@ != "addrtype"@);
    assert("audio_protocol"@.len() != "addrtype"@.len());
    assert("audio_protocol"@ != "addrtype"@);
    assert("audio_codecs"@.len() != "addrtype"@.len());
    assert("audio_codecs"@ != "addrtype"@);
    assert("audio_rtpmap"@.len() != "addrtype"@.len());
    assert("audio_rtpmap"@ != "addrtype"@);
    assert("audio_fmtp"@.len() != "addrtype"@.len());
    assert("audio_fmtp"@ != "addrtype"@);
    assert("video_type"@.len() != "addrtype"@.len());
    assert("video_type"@ != "addrtype"@);
    assert("video_protocol"@.len() != "addrtype"@.len());
    assert("video_protocol"@ != "addrtype"@);
    assert("video_codecs"@.len() != "addrtype"@.len());
    assert("video_codecs"@ != "addrtype"@);
    assert("video_rtpmap"@.len() != "addrtype"@.len());
    assert("video_rtpmap"@ != "addrtype"@);
    assert("video_fmtp"@.len() != "addrtype"@.len());
    assert("video_fmtp"@ != "addrtype"@);
    assert("audio_type"@.len() != "enable_srflx"@.len());
    assert("audio_type"@ != "enable_srflx"@);
    assert("audio_protocol"@.len() != "enable_srflx"@.len());
    assert("audio_protocol"@ != "enable_srflx"@);
    assert("audio_codecs"@[0] != "enable_srflx"@[0]);
    assert("audio_codecs"@ != "enable_srflx"@);
    assert("audio_rtpmap"@[0] != "enable_srflx"@[0]);
    assert("audio_rtpmap"@ != "enable_srflx"@);
    assert("audio_fmtp"@.len() != "enable_srflx"@.len());
    assert("audio_fmtp"@ != "enable_srflx"@);
    assert("video_type"@.len() != "enable_srflx"@.len());
    assert("video_type"@ != "enable_srflx"@);
    assert("video_protocol"@.len() != "enable_srflx"@.len());
    assert("video_protocol"@ != "enable_srflx"@);
    assert("video_codecs"@[0] != "enable_srflx"@[0]);
    assert("video_codecs"@ != "enable_srflx"@);
    assert("video_rtpmap"@[0] != "enable_srflx"@[0]);
    assert("video_rtpmap"@ != "enable_srflx"@);
    assert("video_fmtp"@.len() != "enable_srflx"@.len());
    assert("video_fmtp"@ != "enable_srflx"@);
    assert("audio_protocol"@.len() != "audio_type"@.len());
    assert("audio_protocol"@ != "audio_type"@);
    assert("audio_codecs"@.len() != "audio_type"@.len());
    assert("audio_codecs"@ != "audio_type"@);
    assert("audio_rtpmap"@.len() != "audio_type"@.len());
    assert("audio_rtpmap"@ != "audio_type"@);
    assert("audio_fmtp"@[6] != "audio_type"@[6]);
    assert("audio_fmtp"@ != "audio_type"@);
    assert("video_type"@[0] != "audio_type"@[0]);
    assert("video_type"@ != "audio_type"@);
    assert("video_protocol"@.len() != "audio_type"@.len());
    assert("video_protocol"@ != "audio_type"@);
    assert("video_codecs"@.len() != "audio_type"@.len());
    assert("video_codecs"@ != "audio_type"@);
    assert("video_rtpmap"@.len() != "audio_type"@.len());
    assert("video_rtpmap"@ != "audio_type"@);
    assert("video_fmtp"@[0] != "audio_type"@[0]);
    assert("video_fmtp"@ != "audio_type"@);
    assert("audio_codecs"@.len() != "audio_protocol"@.len());
    assert("audio_codecs"@ != "audio_protocol"@);
    assert("audio_rtpmap"@.len() != "audio_protocol"@.len());
    assert("audio_rtpmap"@ != "audio_protocol"@);
    assert("audio_fmtp"@.len() != "audio_protocol"@.len());
    assert("audio_fmtp"@ != "audio_protocol"@);
    assert("video_type"@.len() != "audio_protocol"@.len());
    assert("video_type"@ != "audio_protocol"@);
    assert("video_protocol"@[0] != "audio_protocol"@[0]);
    assert("video_protocol"@ != "audio_protocol"@);
    assert("video_codecs"@.len() != "audio_protocol"@.len());
    assert("video_codecs"@ != "audio_protocol"@);
    assert("video_rtpmap"@.len() != "audio_protocol"@.len());
    assert("video_rtpmap"@ != "audio_protocol"@);
    assert("video_fmtp"@.len() != "audio_protocol"@.len());
    assert("video_fmtp"@ != "audio_protocol"@);
    assert("audio_rtpmap"@[6] != "audio_codecs"@[6]);
    assert("audio_rtpmap"@ != "audio_codecs"@);
    assert("audio_fmtp"@.len() != "audio_codecs"@.len());
    assert("audio_fmtp"@ != "audio_codecs"@);
    assert("video_type"@.len() != "audio_codecs"@.len());
    assert("video_type"@ != "audio_codecs"@);
    assert("video_protocol"@.len() != "audio_codecs"@.len());
    assert("video_protocol"@ != "audio_codecs"@);
    assert("video_codecs"@[0] != "audio_codecs"@[0]);
    assert("video_codecs"@ != "audio_codecs"@);
    assert("video_rtpmap"@[0] != "audio_codecs"@[0]);
    assert("video_rtpmap"@ != "audio_codecs"@);
    assert("video_fmtp"@.len() != "audio_codecs"@.len());
    assert("video_fmtp"@ != "audio_codecs"@);
    assert("audio_fmtp"@.len() != "audio_rtpmap"@.len());
    assert("audio_fmtp"@ != "audio_rtpmap"@);
    assert("video_type"@.len() != "audio_rtpmap"@.len());
    assert("video_type"@ != "audio_rtpmap"@);
    assert("video_protocol"@.len() != "audio_rtpmap"@.len());
    assert("video_protocol"@ != "audio_rtpmap"@);
    assert("video_codecs"@[0] != "audio_rtpmap"@[0]);
    assert("video_codecs"@ != "audio_rtpmap"@);
    assert("video_rtpmap"@[0] != "audio_rtpmap"@[0]);
    assert("video_rtpmap"@ != "audio_rtpmap"@);
    assert("video_fmtp"@.len() != "audio_rtpmap"@.len());
    assert("video_fmtp"@ != "audio_rtpmap"@);
    assert("video_type"@[0] != "audio_fmtp"@[0]);
    assert("video_type"@ != "audio_fmtp"@);
    assert("video_protocol"@.len() != "audio_fmtp"@.len());
    assert("video_protocol"@ != "audio_fmtp"@);
    assert("video_codecs"@.len() != "audio_fmtp"@.len());
    assert("video_codecs"@ != "audio_fmtp"@);
    assert("video_rtpmap"@.len() != "audio_fmtp"@.len());
    assert("video_rtpmap"@ != "audio_fmtp"@);
    assert("video_fmtp"@[0] != "audio_fmtp"@[0]);
    assert("video_fmtp"@ != "audio_fmtp"@);
    assert("video_protocol"@.len() != "video_type"@.len());
    assert("video_protocol"@ != "video_type"@);
    assert("video_codecs"@.len() != "video_type"@.len());
    assert("video_codecs"@ != "video_type"@);
    assert("video_rtpmap"@.len() != "video_type"@.len());
    assert("video_rtpmap"@ != "video_type"@);
    assert("video_fmtp"@[6] != "video_type"@[6]);
    assert("video_fmtp"@ != "video_type"@);
    assert("video_codecs"@.len() != "video_protocol"@.len());
    assert("video_codecs"@ != "video_protocol"@);
    assert("video_rtpmap"@.len() != "video_protocol"@.len());
    assert("video_rtpmap"@ != "video_protocol"@);
    assert("video_fmtp"@.len() != "video_protocol"@.len());
    assert("video_fmtp"@ != "video_protocol"@);
    assert("video_rtpmap"@[6] != "video_codecs"@[6]);
    assert("video_rtpmap"@ != "video_codecs"@);
    assert("video_fmtp"@.len() != "video_codecs"@.len());
    assert("video_fmtp"@ != "video_codecs"@);
    assert("video_fmtp"@.len() != "video_rtpmap"@.len());
    assert("video_fmtp"@ != "video_rtpmap"@);
}

/// The keys of `[multiplexer]` each name one setting.
proof fn lemma_multiplexer_key_names(k: Seq<char>)
    ensures
        multiplexer_key(k) == Some(Setting::RecvTimeoutMs) <==> k == "recv_timeout_ms"@,
        multiplexer_key(k) == Some(Setting::BufferSize) <==> k == "buffer_size"@,
{
    reveal_strlit("recv_timeout_ms");
    reveal_strlit("buffer_size");
    assert("buffer_size"@.len() != "recv_timeout_ms"@.len());
    assert("buffer_size"@ != "recv_timeout_ms"@);
}

/// The keys of `[media]` each name one setting.
proof fn lemma_media_key_names(k: Seq<char>)
    ensures
        media_key(k) == Some(Setting::PeriodicRrSecs) <==> k == "periodic_rr_secs"@,
        media_key(k) == Some(Setting::IdleSleepMs) <==> k == "idle_sleep_ms"@,
        media_key(k) == Some(Setting::FrameIntervalMs) <==> k == "frame_interval_ms"@,
        media_key(k) == Some(Setting::MinPacketUs) <==> k == "min_packet_us"@,
        media_key(k) == Some(Setting::SendMtu) <==> k == "send_mtu"@,
        media_key(k) == Some(Setting::PeerTimeoutSecs) <==> k == "peer_timeout_secs"@,
        media_key(k) == Some(Setting::PollIntervalMs) <==> k == "poll_interval_ms"@,
        media_key(k) == Some(Setting::AudioPacketIntervalMs) <==> k == "audio_packet_interval_ms"@,
        media_key(k) == Some(Setting::AudioSampleRate) <==> k == "audio_sample_rate"@,
        media_key(k) == Some(Setting::AudioBitrate) <==> k == "audio_bitrate"@,
        media_key(k) == Some(Setting::VideoBitrate) <==> k == "video_bitrate"@,
{
    reveal_strlit("periodic_rr_secs");
    reveal_strlit("idle_sleep_ms");
    reveal_strlit("frame_interval_ms");
    reveal_strlit("min_packet_us");
    reveal_strlit("send_mtu");
    reveal_strlit("peer_timeout_secs");
    reveal_strlit("poll_interval_ms");
    reveal_strlit("audio_packet_interval_ms");
    reveal_strlit("audio_sample_rate");
    reveal_strlit("audio_bitrate");
    reveal_strlit("video_bitrate");
    assert("idle_sleep_ms"@.len() != "periodic_rr_secs"@.len());
    assert("idle_sleep_ms"@ != "periodic_rr_secs"@);
    assert("frame_interval_ms"@.len() != "periodic_rr_secs"@.len());
    assert("frame_interval_ms"@ != "periodic_rr_secs"@);
    assert("min_packet_us"@.len() != "periodic_rr_secs"@.len());
    assert("min_packet_us"@ != "periodic_rr_secs"@);
    assert("send_mtu"@.len() != "periodic_rr_secs"@.len());
    assert("send_mtu"@ != "periodic_rr_secs"@);
    assert("peer_timeout_secs"@.len() != "periodic_rr_secs"@.len());
    assert("peer_timeout_secs"@ != "periodic_rr_secs"@);
    assert("poll_interval_ms"@[1] != "periodic_rr_secs"@[1]);
    assert("poll_interval_ms"@ != "periodic_rr_secs"@);
    assert("audio_packet_interval_ms"@.len() != "periodic_rr_secs"@.len());
    assert("audio_packet_interval_ms"@ != "periodic_rr_secs"@);
    assert("audio_sample_rate"@.len() != "periodic_rr_secs"@.len());
    assert("audio_sample_rate"@ != "periodic_rr_secs"@);
    assert("audio_bitrate"@.len() != "periodic_rr_secs"@.len());
    assert("audio_bitrate"@ != "periodic_rr_secs"@);
    assert("video_bitrate"@.len() != "periodic_rr_secs"@.len());
    assert("video_bitrate"@ != "periodic_rr_secs"@);
    assert("frame_interval_ms"@.len() != "idle_sleep_ms"@.len());
    assert("frame_interval_ms"@ != "idle_sleep_ms"@);
    assert("min_packet_us"@[0] != "idle_sleep_ms"@[0]);
    assert("min_packet_us"@ != "idle_sleep_ms"@);
    assert("send_mtu"@.len() != "idle_sleep_ms"@.len());
    assert("send_mtu"@ != "idle_sleep_ms"@);
    assert("peer_timeout_secs"@.len() != "idle_sleep_ms"@.len());
    assert("peer_timeout_secs"@ != "idle_sleep_ms"@);
    assert("poll_interval_ms"@.len() != "idle_sleep_ms"@.len());
    assert("poll_interval_ms"@ != "idle_sleep_ms"@);
    assert("audio_packet_interval_ms"@.len() != "idle_sleep_ms"@.len());
    assert("audio_packet_interval_ms"@ != "idle_sleep_ms"@);
    assert("audio_sample_rate"@.len() != "idle_sleep_ms"@.len());
    assert("audio_sample_rate"@ != "idle_sleep_ms"@);
    assert("audio_bitrate"@[0] != "idle_sleep_ms"@[0]);
    assert("audio_bitrate"@ != "idle_sleep_ms"@);
    assert("video_bitrate"@[0] != "idle_sleep_ms"@[0]);
    assert("video_bitrate"@ != "idle_sleep_ms"@);
    assert("min_packet_us"@.len() != "frame_interval_ms"@.len());
    assert("min_packet_us"@ != "frame_interval_ms"@);
    assert("send_mtu"@.len() != "frame_interval_ms"@.len());
    assert("send_mtu"@ != "frame_interval_ms"@);
    assert("peer_timeout_secs"@[0] != "frame_interval_ms"@[0]);
    assert("peer_timeout_secs"@ != "frame_interval_ms"@);
    assert("poll_interval_ms"@.len() != "frame_interval_ms"@.len());
    assert("poll_interval_ms"@ != "frame_interval_ms"@);
    assert("audio_packet_interval_ms"@.len() != "frame_interval_ms"@.len());
    assert("audio_packet_interval_ms"@ != "frame_interval_ms"@);
    assert("audio_sample_rate"@[0] != "frame_interval_ms"@[0]);
    assert("audio_sample_rate"@ != "frame_interval_ms"@);
    assert("audio_bitrate"@.len() != "frame_interval_ms"@.len());
    assert("audio_bitrate"@ != "frame_interval_ms"@);
    assert("video_bitrate"@.len() != "frame_interval_ms"@.len());
    assert("video_bitrate"@ != "frame_interval_ms"@);
    assert("send_mtu"@.len() != "min_packet_us"@.len());
    assert("send_mtu"@ != "min_packet_us"@);
    assert("peer_timeout_secs"@.len() != "min_packet_us"@.len());
    assert("peer_timeout_secs"@ != "min_packet_us"@);
    assert("poll_interval_ms"@.len() != "min_packet_us"@.len());
    assert("poll_interval_ms"@ != "min_packet_us"@);
    assert("audio_packet_interval_ms"@.len() != "min_packet_us"@.len());
    assert("audio_packet_interval_ms"@ != "min_packet_us"@);
    assert("audio_sample_rate"@.len() != "min_packet_us"@.len());
    assert("audio_sample_rate"@ != "min_packet_us"@);
    assert("audio_bitrate"@[0] != "min_packet_us"@[0]);
    assert("audio_bitrate"@ != "min_packet_us"@);
    assert("video_bitrate"@[0] != "min_packet_us"@[0]);
    assert("video_bitrate"@ != "min_packet_us"@);
    assert("peer_timeout_secs"@.len() != "send_mtu"@.len());
    assert("peer_timeout_secs"@ != "send_mtu"@);
    assert("poll_interval_ms"@.len() != "send_mtu"@.len());
    assert("poll_interval_ms"@ != "send_mtu"@);
    assert("audio_packet_interval_ms"@.len() != "send_mtu"@.len());
    assert("audio_packet_interval_ms"@ != "send_mtu"@);
    assert("audio_sample_rate"@.len() != "send_mtu"@.len());
    assert("audio_sample_rate"@ != "send_mtu"@);
    assert("audio_bitrate"@.len() != "send_mtu"@.len());
    assert("audio_bitrate"@ != "send_mtu"@);
    assert("video_bitrate"@.len() != "send_mtu"@.len());
    assert("video_bitrate"@ != "send_mtu"@);
    assert("poll_interval_ms"@.len() != "peer_timeout_secs"@.len());
    assert("poll_interval_ms"@ != "peer_timeout_secs"@);
    assert("audio_packet_interval_ms"@.len() != "peer_timeout_secs"@.len());
    assert("audio_packet_interval_ms"@ != "peer_timeout_secs"@);
    assert("audio_sample_rate"@[0] != "peer_timeout_secs"@[0]);
    assert("audio_sample_rate"@ != "peer_timeout_secs"@);
    assert("audio_bitrate"@.len() != "peer_timeout_secs"@.len());
    assert("audio_bitrate"@ != "peer_timeout_secs"@);
    assert("video_bitrate"@.len() != "peer_timeout_secs"@.len());
    assert("video_bitrate"@ != "peer_timeout_secs"@);
    assert("audio_packet_interval_ms"@.len() != "poll_interval_ms"@.len());
    assert("audio_packet_interval_ms"@ != "poll_interval_ms"@);
    assert("audio_sample_rate"@.len() != "poll_interval_ms"@.len());
    assert("audio_sample_rate"@ != "poll_interval_ms"@);
    assert("audio_bitrate"@.len() != "poll_interval_ms"@.len());
    assert("audio_bitrate"@ != "poll_interval_ms"@);
    assert("video_bitrate"@.len() != "poll_interval_ms"@.len());
    assert("video_bitrate"@ != "poll_interval_ms"@);
    assert("audio_sample_rate"@.len() != "audio_packet_interval_ms"@.len());
    assert("audio_sample_rate"@ != "audio_packet_interval_ms"@);
    assert("audio_bitrate"@.len() != "audio_packet_interval_ms"@.len());
    assert("audio_bitrate"@ != "audio_packet_interval_ms"@);
    assert("video_bitrate"@.len() != "audio_packet_interval_ms"@.len());
    assert("video_bitrate"@ != "audio_packet_interval_ms"@);
    assert("audio_bitrate"@.len() != "audio_sample_rate"@.len());
    assert("audio_bitrate"@ != "audio_sample_rate"@);
    assert("video_bitrate"@.len() != "audio_sample_rate"@.len());
    assert("video_bitrate"@ != "audio_sample_rate"@);
    assert("video_bitrate"@[0] != "audio_bitrate"@[0]);
    assert("video_bitrate"@ != "audio_bitrate"@);
}

/// The keys of `[data_channel]` each name one setting.
proof fn lemma_data_channel_key_names(k: Seq<char>)
    ensures
        data_channel_key(k) == Some(Setting::SctpPort) <==> k == "sctp_port"@,
        data_channel_key(k) == Some(Setting::EnableDataChannels) <==> k == "enable_data_channels"@,
{
    reveal_strlit("sctp_port");
    reveal_strlit("enable_data_channels");
    assert("enable_data_channels"@.len() != "sctp_port"@.len());
    assert("enable_data_channels"@ != "sctp_port"@);
}

/// The keys of `[server]` each name one setting.
proof fn lemma_server_key_names(k: Seq<char>)
    ensures
        server_key(k) == Some(Setting::BindAddress) <==> k == "bind_address"@,
        server_key(k) == Some(Setting::MaxClients) <==> k == "max_clients"@,
        server_key(k) == Some(Setting::UsersFile) <==> k == "users_file"@,
{
    reveal_strlit("bind_address");
    reveal_strlit("max_clients");
    reveal_strlit("users_file");
    assert("max_clients"@.len() != "bind_address"@.len());
    assert("max_clients"@ != "bind_address"@);
    assert("users_file"@.len() != "bind_address"@.len());
    assert("users_file"@ != "bind_address"@);
    assert("users_file"@.len() != "max_clients"@.len());
    assert("users_file"@ != "max_clients"@);
}

/// The keys of `[logging]` each name one setting.
proof fn lemma_logging_key_names(k: Seq<char>)
    ensures
        logging_key(k) == Some(Setting::LogFile) <==> k == "log_file"@,
{
    reveal_strlit("log_file");
}

/// The keys of `[tls]` each name one setting.
proof fn lemma_tls_key_names(k: Seq<char>)
    ensures
        tls_key(k) == Some(Setting::Psk) <==> k == "psk"@,
{
    reveal_strlit("psk");
}

/// Parsing a configuration sets each field of `[camera]` from the key of the same name:
/// from the value of the last `key=value` line with that key under a `[camera]` header,
/// or to its default when no line gives it (see `read_or`).
pub proof fn lemma_camera_fields(c: AppConfig, ls: Seq<Seq<char>>)
    requires
        forall|s: Setting| value_of(c, s) == setting_value(ls, ls.len() as int, s),
    ensures
        Value::Num(c.camera.resolution_width as int) == read_or(Setting::ResolutionWidth, last_assignment(ls, ls.len() as int, "camera"@, "resolution_width"@)),
        Value::Num(c.camera.resolution_height as int) == read_or(Setting::ResolutionHeight, last_assignment(ls, ls.len() as int, "camera"@, "resolution_height"@)),
        Value::Num(c.camera.framerate as int) == read_or(Setting::Framerate, last_assignment(ls, ls.len() as int, "camera"@, "framerate"@)),
{
    reveal(value_of);
    let n = ls.len() as int;
    assert forall|s: Seq<char>| section_named(s) == Some(Section::Camera) <==> s == "camera"@ by {
        lemma_section_names(s);
    }
    assert forall|k: Seq<char>| key_of(Section::Camera, k) == Some(Setting::ResolutionWidth) <==> k == "resolution_width"@ by {
        lemma_camera_key_names(k);
    }
    assert forall|t: Section, k: Seq<char>| key_of(t, k) == Some(Setting::ResolutionWidth) implies t == Section::Camera by {}
    lemma_last_text_key(ls, n, Setting::ResolutionWidth, Section::Camera, "camera"@, "resolution_width"@);
    assert(value_of(c, Setting::ResolutionWidth) == setting_value(ls, n, Setting::ResolutionWidth));
    assert forall|k: Seq<char>| key_of(Section::Camera, k) == Some(Setting::ResolutionHeight) <==> k == "resolution_height"@ by {
        lemma_camera_key_names(k);
    }
    assert forall|t: Section, k: Seq<char>| key_of(t, k) == Some(Setting::ResolutionHeight) implies t == Section::Camera by {}
    lemma_last_text_key(ls, n, Setting::ResolutionHeight, Section::Camera, "camera"@, "resolution_height"@);
    assert(value_of(c, Setting::ResolutionHeight) == setting_value(ls, n, Setting::ResolutionHeight));
    assert forall|k: Seq<char>| key_of(Section::Camera, k) == Some(Setting::Framerate) <==> k == "framerate"@ by {
        lemma_camera_key_names(k);
    }
    assert forall|t: Section, k: Seq<char>| key_of(t, k) == Some(Setting::Framerate) implies t == Section::Camera by {}
    lemma_last_text_key(ls, n, Setting::Framerate, Section::Camera, "camera"@, "framerate"@);
    assert(value_of(c, Setting::Framerate) == setting_value(ls, n, Setting::Framerate));
}

/// Parsing a configuration sets each field of `[rtp]` from the key of the same name:
/// from the value of the last `key=value` line with that key under a `[rtp]` header,
/// or to its default when no line gives it (see `read_or`).
pub proof fn lemma_rtp_fields(c: AppConfig, ls: Seq<Seq<char>>)
    requires
        forall|s: Setting| value_of(c, s) == setting_value(ls, ls.len() as int, s),
    ensures
        Value::Num(c.rtp.payload_type as int) == read_or(Setting::PayloadType, last_assignment(ls, ls.len() as int, "rtp"@, "payload_type"@)),
        Value::Num(c.rtp.timestamp_step as int) == read_or(Setting::TimestampStep, last_assignment(ls, ls.len() as int, "rtp"@, "timestamp_step"@)),
        Value::Num(c.rtp.log_interval as int) == read_or(Setting::LogInterval, last_assignment(ls, ls.len() as int, "rtp"@, "log_interval"@)),
        Value::Num(c.rtp.error_log_interval as int) == read_or(Setting::ErrorLogInterval, last_assignment(ls, ls.len() as int, "rtp"@, "error_log_interval"@)),
        Value::Num(c.rtp.default_ssrc as int) == read_or(Setting::DefaultSsrc, last_assignment(ls, ls.len() as int, "rtp"@, "default_ssrc"@)),
        Value::Num(c.rtp.audio_payload_type as int) == read_or(Setting::AudioPayloadType, last_assignment(ls, ls.len() as int, "rtp"@, "audio_payload_type"@)),
        Value::Num(c.rtp.audio_ssrc as int) == read_or(Setting::AudioSsrc, last_assignment(ls, ls.len() as int, "rtp"@, "audio_ssrc"@)),
        Value::Num(c.rtp.audio_clock_rate as int) == read_or(Setting::AudioClockRate, last_assignment(ls, ls.len() as int, "rtp"@, "audio_clock_rate"@)),
        Value::Num(c.rtp.audio_frame_size as int) == read_or(Setting::AudioFrameSize, last_assignment(ls, ls.len() as int, "rtp"@, "audio_frame_size"@)),
{
    reveal(value_of);
    let n = ls.len() as int;
    assert forall|s: Seq<char>| section_named(s) == Some(Section::Rtp) <==> s == "rtp"@ by {
        lemma_section_names(s);
    }
    assert forall|k: Seq<char>| key_of(Section::Rtp, k) == Some(Setting::PayloadType) <==> k == "payload_type"@ by {
        lemma_rtp_key_names(k);
    }
    assert forall|t: Section, k: Seq<char>| key_of(t, k) == Some(Setting::PayloadType) implies t == Section::Rtp by {}
    lemma_last_text_key(ls, n, Setting::PayloadType, Section::Rtp, "rtp"@, "payload_type"@);
    assert(value_of(c, Setting::PayloadType) == setting_value(ls, n, Setting::PayloadType));
    assert forall|k: Seq<char>| key_of(Section::Rtp, k) == Some(Setting::TimestampStep) <==> k == "timestamp_step"@ by {
        lemma_rtp_key_names(k);
    }
    assert forall|t: Section, k: Seq<char>| key_of(t, k) == Some(Setting::TimestampStep) implies t == Section::Rtp by {}
    lemma_last_text_key(ls, n, Setting::TimestampStep, Section::Rtp, "rtp"@, "timestamp_step"@);
    assert(value_of(c, Setting::TimestampStep) == setting_value(ls, n, Setting::TimestampStep));
    assert forall|k: Seq<char>| key_of(Section::Rtp, k) == Some(Setting::LogInterval) <==> k == "log_interval"@ by {
        lemma_rtp_key_names(k);
    }
    assert forall|t: Section, k: Seq<char>| key_of(t, k) == Some(Setting::LogInterval) implies t == Section::Rtp by {}
    lemma_last_text_key(ls, n, Setting::LogInterval, Section::Rtp, "rtp"@, "log_interval"@);
    assert(value_of(c, Setting::LogInterval) == setting_value(ls, n, Setting::LogInterval));
    assert forall|k: Seq<char>| key_of(Section::Rtp, k) == Some(Setting::ErrorLogInterval) <==> k == "error_log_interval"@ by {
        lemma_rtp_key_names(k);
    }
    assert forall|t: Section, k: Seq<char>| key_of(t, k) == Some(Setting::ErrorLogInterval) implies t == Section::Rtp by {}
    lemma_last_text_key(ls, n, Setting::ErrorLogInterval, Section::Rtp, "rtp"@, "error_log_interval"@);
    assert(value_of(c, Setting::ErrorLogInterval) == setting_value(ls, n, Setting::ErrorLogInterval));
    assert forall|k: Seq<char>| key_of(Section::Rtp, k) == Some(Setting::DefaultSsrc) <==> k == "default_ssrc"@ by {
        lemma_rtp_key_names(k);
    }
    assert forall|t: Section, k: Seq<char>| key_of(t, k) == Some(Setting::DefaultSsrc) implies t == Section::Rtp by {}
    lemma_last_text_key(ls, n, Setting::DefaultSsrc, Section::Rtp, "rtp"@, "default_ssrc"@);
    assert(value_of(c, Setting::DefaultSsrc) == setting_value(ls, n, Setting::DefaultSsrc));
    assert forall|k: Seq<char>| key_of(Section::Rtp, k) == Some(Setting::AudioPayloadType) <==> k == "audio_payload_type"@ by {
        lemma_rtp_key_names(k);
    }
    assert forall|t: Section, k: Seq<char>| key_of(t, k) == Some(Setting::AudioPayloadType) implies t == Section::Rtp by {}
    lemma_last_text_key(ls, n, Setting::AudioPayloadType, Section::Rtp, "rtp"@, "audio_payload_type"@);
    assert(value_of(c, Setting::AudioPayloadType) == setting_value(ls, n, Setting::AudioPayloadType));
    assert forall|k: Seq<char>| key_of(Section::Rtp, k) == Some(Setting::AudioSsrc) <==> k == "audio_ssrc"@ by {
        lemma_rtp_key_names(k);
    }
    assert forall|t: Section, k: Seq<char>| key_of(t, k) == Some(Setting::AudioSsrc) implies t == Section::Rtp by {}
    lemma_last_text_key(ls, n, Setting::AudioSsrc, Section::Rtp, "rtp"@, "audio_ssrc"@);
    assert(value_of(c, Setting::AudioSsrc) == setting_value(ls, n, Setting::AudioSsrc));
    assert forall|k: Seq<char>| key_of(Section::Rtp, k) == Some(Setting::AudioClockRate) <==> k == "audio_clock_rate"@ by {
        lemma_rtp_key_names(k);
    }
    assert forall|t: Section, k: Seq<char>| key_of(t, k) == Some(Setting::AudioClockRate) implies t == Section::Rtp by {}
    lemma_last_text_key(ls, n, Setting::AudioClockRate, Section::Rtp, "rtp"@, "audio_clock_rate"@);
    assert(value_of(c, Setting::AudioClockRate) == setting_value(ls, n, Setting::AudioClockRate));
    assert forall|k: Seq<char>| key_of(Section::Rtp, k) == Some(Setting::AudioFrameSize) <==> k == "audio_frame_size"@ by {
        lemma_rtp_key_names(k);
    }
    assert forall|t: Section, k: Seq<char>| key_of(t, k) == Some(Setting::AudioFrameSize) implies t == Section::Rtp by {}
    lemma_last_text_key(ls, n, Setting::AudioFrameSize, Section::Rtp, "rtp"@, "audio_frame_size"@);
    assert(value_of(c, Setting::AudioFrameSize) == setting_value(ls, n, Setting::AudioFrameSize));
}

/// Parsing a configuration sets each field of `[ice]` from the key of the same name:
/// from the value of the last `key=value` line with that key under a `[ice]` header,
/// or to its default when no line gives it (see `read_or`).
pub proof fn lemma_ice_fields(c: AppConfig, ls: Seq<Seq<char>>)
    requires
        forall|s: Setting| value_of(c, s) == setting_value(ls, ls.len() as int, s),
    ensures
        Value::Num(c.ice.timeout_ms as int) == read_or(Setting::TimeoutMs, last_assignment(ls, ls.len() as int, "ice"@, "timeout_ms"@)),
{
    reveal(value_of);
    let n = ls.len() as int;
    assert forall|s: Seq<char>| section_named(s) == Some(Section::Ice) <==> s == "ice"@ by {
        lemma_section_names(s);
    }
    assert forall|k: Seq<char>| key_of(Section::Ice, k) == Some(Setting::TimeoutMs) <==> k == "timeout_ms"@ by {
        lemma_ice_key_names(k);
    }
    assert forall|t: Section, k: Seq<char>| key_of(t, k) == Some(Setting::TimeoutMs) implies t == Section::Ice by {}
    lemma_last_text_key(ls, n, Setting::TimeoutMs, Section::Ice, "ice"@, "timeout_ms"@);
    assert(value_of(c, Setting::TimeoutMs) == setting_value(ls, n, Setting::TimeoutMs));
}

/// Parsing a configuration sets each field of `[sdp]` from the key of the same name:
/// from the value of the last `key=value` line with that key under a `[sdp]` header,
/// or to its default when no line gives it (see `read_or`).
pub proof fn lemma_sdp_fields(c: AppConfig, ls: Seq<Seq<char>>)
    requires
        forall|s: Setting| value_of(c, s) == setting_value(ls, ls.len() as int, s),
    ensures
        Value::Text(c.sdp.username@) == read_or(Setting::Username, last_assignment(ls, ls.len() as int, "sdp"@, "username"@)),
        Value::Num(c.sdp.session_id as int) == read_or(Setting::SessionId, last_assignment(ls, ls.len() as int, "sdp"@, "session_id"@)),
        Value::Num(c.sdp.session_version as int) == read_or(Setting::SessionVersion, last_assignment(ls, ls.len() as int, "sdp"@, "session_version"@)),
        Value::Text(c.sdp.nettype@) == read_or(Setting::Nettype, last_assignment(ls, ls.len() as int, "sdp"@, "nettype"@)),
        Value::Text(c.sdp.addrtype@) == read_or(Setting::Addrtype, last_assignment(ls, ls.len() as int, "sdp"@, "addrtype"@)),
        Value::Flag(c.sdp.enable_srflx) == read_or(Setting::EnableSrflx, last_assignment(ls, ls.len() as int, "sdp"@, "enable_srflx"@)),
        Value::Text(c.sdp.audio_type@) == read_or(Setting::AudioType, last_assignment(ls, ls.len() as int, "sdp"@, "audio_type"@)),
        Value::Text(c.sdp.audio_protocol@) == read_or(Setting::AudioProtocol, last_assignment(ls, ls.len() as int, "sdp"@, "audio_protocol"@)),
        Value::List(texts(c.sdp.audio_codecs@)) == read_or(Setting::AudioCodecs, last_assignment(ls, ls.len() as int, "sdp"@, "audio_codecs"@)),
        Value::List(texts(c.sdp.audio_rtpmap@)) == read_or(Setting::AudioRtpmap, last_assignment(ls, ls.len() as int, "sdp"@, "audio_rtpmap"@)),
        Value::List(texts(c.sdp.audio_fmtp@)) == read_or(Setting::AudioFmtp, last_assignment(ls, ls.len() as int, "sdp"@, "audio_fmtp"@)),
        Value::Text(c.sdp.video_type@) == read_or(Setting::VideoType, last_assignment(ls, ls.len() as int, "sdp"@, "video_type"@)),
        Value::Text(c.sdp.video_protocol@) == read_or(Setting::VideoProtocol, last_assignment(ls, ls.len() as int, "sdp"@, "video_protocol"@)),
        Value::List(texts(c.sdp.video_codecs@)) == read_or(Setting::VideoCodecs, last_assignment(ls, ls.len() as int, "sdp"@, "video_codecs"@)),
        Value::List(texts(c.sdp.video_rtpmap@)) == read_or(Setting::VideoRtpmap, last_assignment(ls, ls.len() as int, "sdp"@, "video_rtpmap"@)),
        Value::List(texts(c.sdp.video_fmtp@)) == read_or(Setting::VideoFmtp, last_assignment(ls, ls.len() as int, "sdp"@, "video_fmtp"@)),
{
    reveal(value_of);
    let n = ls.len() as int;
    assert forall|s: Seq<char>| section_named(s) == Some(Section::Sdp) <==> s == "sdp"@ by {
        lemma_section_names(s);
    }
    assert forall|k: Seq<char>| key_of(Section::Sdp, k) == Some(Setting::Username) <==> k == "username"@ by {
        lemma_sdp_key_names(k);
    }
    assert forall|t: Section, k: Seq<char>| key_of(t, k) == Some(Setting::Username) implies t == Section::Sdp by {}
    lemma_last_text_key(ls, n, Setting::Username, Section::Sdp, "sdp"@, "username"@);
    assert(value_of(c, Setting::Username) == setting_value(ls, n, Setting::Username));
    assert forall|k: Seq<char>| key_of(Section::Sdp, k) == Some(Setting::SessionId) <==> k == "session_id"@ by {
        lemma_sdp_key_names(k);
    }
    assert forall|t: Section, k: Seq<char>| key_of(t, k) == Some(Setting::SessionId) implies t == Section::Sdp by {}
    lemma_last_text_key(ls, n, Setting::SessionId, Section::Sdp, "sdp"@, "session_id"@);
    assert(value_of(c, Setting::SessionId) == setting_value(ls, n, Setting::SessionId));
    assert forall|k: Seq<char>| key_of(Section::Sdp, k) == Some(Setting::SessionVersion) <==> k == "session_version"@ by {
        lemma_sdp_key_names(k);
    }
    assert forall|t: Section, k: Seq<char>| key_of(t, k) == Some(Setting::SessionVersion) implies t == Section::Sdp by {}
    lemma_last_text_key(ls, n, Setting::SessionVersion, Section::Sdp, "sdp"@, "session_version"@);
    assert(value_of(c, Setting::SessionVersion) == setting_value(ls, n, Setting::SessionVersion));
    assert forall|k: Seq<char>| key_of(Section::Sdp, k) == Some(Setting::Nettype) <==> k == "nettype"@ by {
        lemma_sdp_key_names(k);
    }
    assert forall|t: Section, k: Seq<char>| key_of(t, k) == Some(Setting::Nettype) implies t == Section::Sdp by {}
    lemma_last_text_key(ls, n, Setting::Nettype, Section::Sdp, "sdp"@, "nettype"@);
    assert(value_of(c, Setting::Nettype) == setting_value(ls, n, Setting::Nettype));
    assert forall|k: Seq<char>| key_of(Section::Sdp, k) == Some(Setting::Addrtype) <==> k == "addrtype"@ by {
        lemma_sdp_key_names(k);
    }
    assert forall|t: Section, k: Seq<char>| key_of(t, k) == Some(Setting::Addrtype) implies t == Section::Sdp by {}
    lemma_last_text_key(ls, n, Setting::Addrtype, Section::Sdp, "sdp"@, "addrtype"@);
    assert(value_of(c, Setting::Addrtype) == setting_value(ls, n, Setting::Addrtype));
    assert forall|k: Seq<char>| key_of(Section::Sdp, k) == Some(Setting::EnableSrflx) <==> k == "enable_srflx"@ by {
        lemma_sdp_key_names(k);
    }
    assert forall|t: Section, k: Seq<char>| key_of(t, k) == Some(Setting::EnableSrflx) implies t == Section::Sdp by {}
    lemma_last_text_key(ls, n, Setting::EnableSrflx, Section::Sdp, "sdp"@, "enable_srflx"@);
    assert(value_of(c, Setting::EnableSrflx) == setting_value(ls, n, Setting::EnableSrflx));
    assert forall|k: Seq<char>| key_of(Section::Sdp, k) == Some(Setting::AudioType) <==> k == "audio_type"@ by {
        lemma_sdp_key_names(k);
    }
    assert forall|t: Section, k: Seq<char>| key_of(t, k) == Some(Setting::AudioType) implies t == Section::Sdp by {}
    lemma_last_text_key(ls, n, Setting::AudioType, Section::Sdp, "sdp"@, "audio_type"@);
    assert(value_of(c, Setting::AudioType) == setting_value(ls, n, Setting::AudioType));
    assert forall|k: Seq<char>| key_of(Section::Sdp, k) == Some(Setting::AudioProtocol) <==> k == "audio_protocol"@ by {
        lemma_sdp_key_names(k);
    }
    assert forall|t: Section, k: Seq<char>| key_of(t, k) == Some(Setting::AudioProtocol) implies t == Section::Sdp by {}
    lemma_last_text_key(ls, n, Setting::AudioProtocol, Section::Sdp, "sdp"@, "audio_protocol"@);
    assert(value_of(c, Setting::AudioProtocol) == setting_value(ls, n, Setting::AudioProtocol));
    assert forall|k: Seq<char>| key_of(Section::Sdp, k) == Some(Setting::AudioCodecs) <==> k == "audio_codecs"@ by {
        lemma_sdp_key_names(k);
    }
    assert forall|t: Section, k: Seq<char>| key_of(t, k) == Some(Setting::AudioCodecs) implies t == Section::Sdp by {}
    lemma_last_text_key(ls, n, Setting::AudioCodecs, Section::Sdp, "sdp"@, "audio_codecs"@);
    assert(value_of(c, Setting::AudioCodecs) == setting_value(ls, n, Setting::AudioCodecs));
    assert forall|k: Seq<char>| key_of(Section::Sdp, k) == Some(Setting::AudioRtpmap) <==> k == "audio_rtpmap"@ by {
        lemma_sdp_key_names(k);
    }
    assert forall|t: Section, k: Seq<char>| key_of(t, k) == Some(Setting::AudioRtpmap) implies t == Section::Sdp by {}
    lemma_last_text_key(ls, n, Setting::AudioRtpmap, Section::Sdp, "sdp"@, "audio_rtpmap"@);
    assert(value_of(c, Setting::AudioRtpmap) == setting_value(ls, n, Setting::AudioRtpmap));
    assert forall|k: Seq<char>| key_of(Section::Sdp, k) == Some(Setting::AudioFmtp) <==> k == "audio_fmtp"@ by {
        lemma_sdp_key_names(k);
    }
    assert forall|t: Section, k: Seq<char>| key_of(t, k) == Some(Setting::AudioFmtp) implies t == Section::Sdp by {}
    lemma_last_text_key(ls, n, Setting::AudioFmtp, Section::Sdp, "sdp"@, "audio_fmtp"@);
    assert(value_of(c, Setting::AudioFmtp) == setting_value(ls, n, Setting::AudioFmtp));
    assert forall|k: Seq<char>| key_of(Section::Sdp, k) == Some(Setting::VideoType) <==> k == "video_type"@ by {
        lemma_sdp_key_names(k);
    }
    assert forall|t: Section, k: Seq<char>| key_of(t, k) == Some(Setting::VideoType) implies t == Section::Sdp by {}
    lemma_last_text_key(ls, n, Setting::VideoType, Section::Sdp, "sdp"@, "video_type"@);
    assert(value_of(c, Setting::VideoType) == setting_value(ls, n, Setting::VideoType));
    assert forall|k: Seq<char>| key_of(Section::Sdp, k) == Some(Setting::VideoProtocol) <==> k == "video_protocol"@ by {
        lemma_sdp_key_names(k);
    }
    assert forall|t: Section, k: Seq<char>| key_of(t, k) == Some(Setting::VideoProtocol) implies t == Section::Sdp by {}
    lemma_last_text_key(ls, n, Setting::VideoProtocol, Section::Sdp, "sdp"@, "video_protocol"@);
    assert(value_of(c, Setting::VideoProtocol) == setting_value(ls, n, Setting::VideoProtocol));
    assert forall|k: Seq<char>| key_of(Section::Sdp, k) == Some(Setting::VideoCodecs) <==> k == "video_codecs"@ by {
        lemma_sdp_key_names(k);
    }
    assert forall|t: Section, k: Seq<char>| key_of(t, k) == Some(Setting::VideoCodecs) implies t == Section::Sdp by {}
    lemma_last_text_key(ls, n, Setting::VideoCodecs, Section::Sdp, "sdp"@, "video_codecs"@);
    assert(value_of(c, Setting::VideoCodecs) == setting_value(ls, n, Setting::VideoCodecs));
    assert forall|k: Seq<char>| key_of(Section::Sdp, k) == Some(Setting::VideoRtpmap) <==> k == "video_rtpmap"@ by {
        lemma_sdp_key_names(k);
    }
    assert forall|t: Section, k: Seq<char>| key_of(t, k) == Some(Setting::VideoRtpmap) implies t == Section::Sdp by {}
    lemma_last_text_key(ls, n, Setting::VideoRtpmap, Section::Sdp, "sdp"@, "video_rtpmap"@);
    assert(value_of(c, Setting::VideoRtpmap) == setting_value(ls, n, Setting::VideoRtpmap));
    assert forall|k: Seq<char>| key_of(Section::Sdp, k) == Some(Setting::VideoFmtp) <==> k == "video_fmtp"@ by {
        lemma_sdp_key_names(k);
    }
    assert forall|t: Section, k: Seq<char>| key_of(t, k) == Some(Setting::VideoFmtp) implies t == Section::Sdp by {}
    lemma_last_text_key(ls, n, Setting::VideoFmtp, Section::Sdp, "sdp"@, "video_fmtp"@);
    assert(value_of(c, Setting::VideoFmtp) == setting_value(ls, n, Setting::VideoFmtp));
}

/// Parsing a configuration sets each field of `[multiplexer]` from the key of the same name:
/// from the value of the last `key=value` line with that key under a `[multiplexer]` header,
/// or to its default when no line gives it (see `read_or`).
pub proof fn lemma_multiplexer_fields(c: AppConfig, ls: Seq<Seq<char>>)
    requires
        forall|s: Setting| value_of(c, s) == setting_value(ls, ls.len() as int, s),
    ensures
        Value::Num(c.multiplexer.recv_timeout_ms as int) == read_or(Setting::RecvTimeoutMs, last_assignment(ls, ls.len() as int, "multiplexer"@, "recv_timeout_ms"@)),
        Value::Num(c.multiplexer.buffer_size as int) == read_or(Setting::BufferSize, last_assignment(ls, ls.len() as int, "multiplexer"@, "buffer_size"@)),
{
    reveal(value_of);
    let n = ls.len() as int;
    assert forall|s: Seq<char>| section_named(s) == Some(Section::Multiplexer) <==> s == "multiplexer"@ by {
        lemma_section_names(s);
    }
    assert forall|k: Seq<char>| key_of(Section::Multiplexer, k) == Some(Setting::RecvTimeoutMs) <==> k == "recv_timeout_ms"@ by {
        lemma_multiplexer_key_names(k);
    }
    assert forall|t: Section, k: Seq<char>| key_of(t, k) == Some(Setting::RecvTimeoutMs) implies t == Section::Multiplexer by {}
    lemma_last_text_key(ls, n, Setting::RecvTimeoutMs, Section::Multiplexer, "multiplexer"@, "recv_timeout_ms"@);
    assert(value_of(c, Setting::RecvTimeoutMs) == setting_value(ls, n, Setting::RecvTimeoutMs));
    assert forall|k: Seq<char>| key_of(Section::Multiplexer, k) == Some(Setting::BufferSize) <==> k == "buffer_size"@ by {
        lemma_multiplexer_key_names(k);
    }
    assert forall|t: Section, k: Seq<char>| key_of(t, k) == Some(Setting::BufferSize) implies t == Section::Multiplexer by {}
    lemma_last_text_key(ls, n, Setting::BufferSize, Section::Multiplexer, "multiplexer"@, "buffer_size"@);
    assert(value_of(c, Setting::BufferSize) == setting_value(ls, n, Setting::BufferSize));
}

/// Parsing a configuration sets each field of `[media]` from the key of the same name:
/// from the value of the last `key=value` line with that key under a `[media]` header,
/// or to its default when no line gives it (see `read_or`).
pub proof fn lemma_media_fields(c: AppConfig, ls: Seq<Seq<char>>)
    requires
        forall|s: Setting| value_of(c, s) == setting_value(ls, ls.len() as int, s),
    ensures
        Value::Num(c.media.periodic_rr_secs as int) == read_or(Setting::PeriodicRrSecs, last_assignment(ls, ls.len() as int, "media"@, "periodic_rr_secs"@)),
        Value::Num(c.media.idle_sleep_ms as int) == read_or(Setting::IdleSleepMs, last_assignment(ls, ls.len() as int, "media"@, "idle_sleep_ms"@)),
        Value::Num(c.media.frame_interval_ms as int) == read_or(Setting::FrameIntervalMs, last_assignment(ls, ls.len() as int, "media"@, "frame_interval_ms"@)),
        Value::Num(c.media.min_packet_us as int) == read_or(Setting::MinPacketUs, last_assignment(ls, ls.len() as int, "media"@, "min_packet_us"@)),
        Value::Num(c.media.send_mtu as int) == read_or(Setting::SendMtu, last_assignment(ls, ls.len() as int, "media"@, "send_mtu"@)),
        Value::Num(c.media.peer_timeout_secs as int) == read_or(Setting::PeerTimeoutSecs, last_assignment(ls, ls.len() as int, "media"@, "peer_timeout_secs"@)),
        Value::Num(c.media.poll_interval_ms as int) == read_or(Setting::PollIntervalMs, last_assignment(ls, ls.len() as int, "media"@, "poll_interval_ms"@)),
        Value::Num(c.media.audio_packet_interval_ms as int) == read_or(Setting::AudioPacketIntervalMs, last_assignment(ls, ls.len() as int, "media"@, "audio_packet_interval_ms"@)),
        Value::Num(c.media.audio_sample_rate as int) == read_or(Setting::AudioSampleRate, last_assignment(ls, ls.len() as int, "media"@, "audio_sample_rate"@)),
        Value::Num(c.media.audio_bitrate as int) == read_or(Setting::AudioBitrate, last_assignment(ls, ls.len() as int, "media"@, "audio_bitrate"@)),
        Value::Num(c.media.video_bitrate as int) == read_or(Setting::VideoBitrate, last_assignment(ls, ls.len() as int, "media"@, "video_bitrate"@)),
{
    reveal(value_of);
    let n = ls.len() as int;
    assert forall|s: Seq<char>| section_named(s) == Some(Section::Media) <==> s == "media"@ by {
        lemma_section_names(s);
    }
    assert forall|k: Seq<char>| key_of(Section::Media, k) == Some(Setting::PeriodicRrSecs) <==> k == "periodic_rr_secs"@ by {
        lemma_media_key_names(k);
    }
    assert forall|t: Section, k: Seq<char>| key_of(t, k) == Some(Setting::PeriodicRrSecs) implies t == Section::Media by {}
    lemma_last_text_key(ls, n, Setting::PeriodicRrSecs, Section::Media, "media"@, "periodic_rr_secs"@);
    assert(value_of(c, Setting::PeriodicRrSecs) == setting_value(ls, n, Setting::PeriodicRrSecs));
    assert forall|k: Seq<char>| key_of(Section::Media, k) == Some(Setting::IdleSleepMs) <==> k == "idle_sleep_ms"@ by {
        lemma_media_key_names(k);
    }
    assert forall|t: Section, k: Seq<char>| key_of(t, k) == Some(Setting::IdleSleepMs) implies t == Section::Media by {}
    lemma_last_text_key(ls, n, Setting::IdleSleepMs, Section::Media, "media"@, "idle_sleep_ms"@);
    assert(value_of(c, Setting::IdleSleepMs) == setting_value(ls, n, Setting::IdleSleepMs));
    assert forall|k: Seq<char>| key_of(Section::Media, k) == Some(Setting::FrameIntervalMs) <==> k == "frame_interval_ms"@ by {
        lemma_media_key_names(k);
    }
    assert forall|t: Section, k: Seq<char>| key_of(t, k) == Some(Setting::FrameIntervalMs) implies t == Section::Media by {}
    lemma_last_text_key(ls, n, Setting::FrameIntervalMs, Section::Media, "media"@, "frame_interval_ms"@);
    assert(value_of(c, Setting::FrameIntervalMs) == setting_value(ls, n, Setting::FrameIntervalMs));
    assert forall|k: Seq<char>| key_of(Section::Media, k) == Some(Setting::MinPacketUs) <==> k == "min_packet_us"@ by {
        lemma_media_key_names(k);
    }
    assert forall|t: Section, k: Seq<char>| key_of(t, k) == Some(Setting::MinPacketUs) implies t == Section::Media by {}
    lemma_last_text_key(ls, n, Setting::MinPacketUs, Section::Media, "media"@, "min_packet_us"@);
    assert(value_of(c, Setting::MinPacketUs) == setting_value(ls, n, Setting::MinPacketUs));
    assert forall|k: Seq<char>| key_of(Section::Media, k) == Some(Setting::SendMtu) <==> k == "send_mtu"@ by {
        lemma_media_key_names(k);
    }
    assert forall|t: Section, k: Seq<char>| key_of(t, k) == Some(Setting::SendMtu) implies t == Section::Media by {}
    lemma_last_text_key(ls, n, Setting::SendMtu, Section::Media, "media"@, "send_mtu"@);
    assert(value_of(c, Setting::SendMtu) == setting_value(ls, n, Setting::SendMtu));
    assert forall|k: Seq<char>| key_of(Section::Media, k) == Some(Setting::PeerTimeoutSecs) <==> k == "peer_timeout_secs"@ by {
        lemma_media_key_names(k);
    }
    assert forall|t: Section, k: Seq<char>| key_of(t, k) == Some(Setting::PeerTimeoutSecs) implies t == Section::Media by {}
    lemma_last_text_key(ls, n, Setting::PeerTimeoutSecs, Section::Media, "media"@, "peer_timeout_secs"@);
    assert(value_of(c, Setting::PeerTimeoutSecs) == setting_value(ls, n, Setting::PeerTimeoutSecs));
    assert forall|k: Seq<char>| key_of(Section::Media, k) == Some(Setting::PollIntervalMs) <==> k == "poll_interval_ms"@ by {
        lemma_media_key_names(k);
    }
    assert forall|t: Section, k: Seq<char>| key_of(t, k) == Some(Setting::PollIntervalMs) implies t == Section::Media by {}
    lemma_last_text_key(ls, n, Setting::PollIntervalMs, Section::Media, "media"@, "poll_interval_ms"@);
    assert(value_of(c, Setting::PollIntervalMs) == setting_value(ls, n, Setting::PollIntervalMs));
    assert forall|k: Seq<char>| key_of(Section::Media, k) == Some(Setting::AudioPacketIntervalMs) <==> k == "audio_packet_interval_ms"@ by {
        lemma_media_key_names(k);
    }
    assert forall|t: Section, k: Seq<char>| key_of(t, k) == Some(Setting::AudioPacketIntervalMs) implies t == Section::Media by {}
    lemma_last_text_key(ls, n, Setting::AudioPacketIntervalMs, Section::Media, "media"@, "audio_packet_interval_ms"@);
    assert(value_of(c, Setting::AudioPacketIntervalMs) == setting_value(ls, n, Setting::AudioPacketIntervalMs));
    assert forall|k: Seq<char>| key_of(Section::Media, k) == Some(Setting::AudioSampleRate) <==> k == "audio_sample_rate"@ by {
        lemma_media_key_names(k);
    }
    assert forall|t: Section, k: Seq<char>| key_of(t, k) == Some(Setting::AudioSampleRate) implies t == Section::Media by {}
    lemma_last_text_key(ls, n, Setting::AudioSampleRate, Section::Media, "media"@, "audio_sample_rate"@);
    assert(value_of(c, Setting::AudioSampleRate) == setting_value(ls, n, Setting::AudioSampleRate));
    assert forall|k: Seq<char>| key_of(Section::Media, k) == Some(Setting::AudioBitrate) <==> k == "audio_bitrate"@ by {
        lemma_media_key_names(k);
    }
    assert forall|t: Section, k: Seq<char>| key_of(t, k) == Some(Setting::AudioBitrate) implies t == Section::Media by {}
    lemma_last_text_key(ls, n, Setting::AudioBitrate, Section::Media, "media"@, "audio_bitrate"@);
    assert(value_of(c, Setting::AudioBitrate) == setting_value(ls, n, Setting::AudioBitrate));
    assert forall|k: Seq<char>| key_of(Section::Media, k) == Some(Setting::VideoBitrate) <==> k == "video_bitrate"@ by {
        lemma_media_key_names(k);
    }
    assert forall|t: Section, k: Seq<char>| key_of(t, k) == Some(Setting::VideoBitrate) implies t == Section::Media by {}
    lemma_last_text_key(ls, n, Setting::VideoBitrate, Section::Media, "media"@, "video_bitrate"@);
    assert(value_of(c, Setting::VideoBitrate) == setting_value(ls, n, Setting::VideoBitrate));
}

/// Parsing a configuration sets each field of `[data_channel]` from the key of the same name:
/// from the value of the last `key=value` line with that key under a `[data_channel]` header,
/// or to its default when no line gives it (see `read_or`).
pub proof fn lemma_data_channel_fields(c: AppConfig, ls: Seq<Seq<char>>)
    requires
        forall|s: Setting| value_of(c, s) == setting_value(ls, ls.len() as int, s),
    ensures
        Value::Num(c.data_channel.sctp_port as int) == read_or(Setting::SctpPort, last_assignment(ls, ls.len() as int, "data_channel"@, "sctp_port"@)),
        Value::Flag(c.data_channel.enable_data_channels) == read_or(Setting::EnableDataChannels, last_assignment(ls, ls.len() as int, "data_channel"@, "enable_data_channels"@)),
{
    reveal(value_of);
    let n = ls.len() as int;
    assert forall|s: Seq<char>| section_named(s) == Some(Section::DataChannel) <==> s == "data_channel"@ by {
        lemma_section_names(s);
    }
    assert forall|k: Seq<char>| key_of(Section::DataChannel, k) == Some(Setting::SctpPort) <==> k == "sctp_port"@ by {
        lemma_data_channel_key_names(k);
    }
    assert forall|t: Section, k: Seq<char>| key_of(t, k) == Some(Setting::SctpPort) implies t == Section::DataChannel by {}
    lemma_last_text_key(ls, n, Setting::SctpPort, Section::DataChannel, "data_channel"@, "sctp_port"@);
    assert(value_of(c, Setting::SctpPort) == setting_value(ls, n, Setting::SctpPort));
    assert forall|k: Seq<char>| key_of(Section::DataChannel, k) == Some(Setting::EnableDataChannels) <==> k == "enable_data_channels"@ by {
        lemma_data_channel_key_names(k);
    }
    assert forall|t: Section, k: Seq<char>| key_of(t, k) == Some(Setting::EnableDataChannels) implies t == Section::DataChannel by {}
    lemma_last_text_key(ls, n, Setting::EnableDataChannels, Section::DataChannel, "data_channel"@, "enable_data_channels"@);
    assert(value_of(c, Setting::EnableDataChannels) == setting_value(ls, n, Setting::EnableDataChannels));
}

/// Parsing a configuration sets each field of `[server]` from the key of the same name:
/// from the value of the last `key=value` line with that key under a `[server]` header,
/// or to its default when no line gives it (see `read_or`).
pub proof fn lemma_server_fields(c: AppConfig, ls: Seq<Seq<char>>)
    requires
        forall|s: Setting| value_of(c, s) == setting_value(ls, ls.len() as int, s),
    ensures
        Value::Text(c.server.bind_address@) == read_or(Setting::BindAddress, last_assignment(ls, ls.len() as int, "server"@, "bind_address"@)),
        Value::Num(c.server.max_clients as int) == read_or(Setting::MaxClients, last_assignment(ls, ls.len() as int, "server"@, "max_clients"@)),
        Value::Text(c.server.users_file@) == read_or(Setting::UsersFile, last_assignment(ls, ls.len() as int, "server"@, "users_file"@)),
{
    reveal(value_of);
    let n = ls.len() as int;
    assert forall|s: Seq<char>| section_named(s) == Some(Section::Server) <==> s == "server"@ by {
        lemma_section_names(s);
    }
    assert forall|k: Seq<char>| key_of(Section::Server, k) == Some(Setting::BindAddress) <==> k == "bind_address"@ by {
        lemma_server_key_names(k);
    }
    assert forall|t: Section, k: Seq<char>| key_of(t, k) == Some(Setting::BindAddress) implies t == Section::Server by {}
    lemma_last_text_key(ls, n, Setting::BindAddress, Section::Server, "server"@, "bind_address"@);
    assert(value_of(c, Setting::BindAddress) == setting_value(ls, n, Setting::BindAddress));
    assert forall|k: Seq<char>| key_of(Section::Server, k) == Some(Setting::MaxClients) <==> k == "max_clients"@ by {
        lemma_server_key_names(k);
    }
    assert forall|t: Section, k: Seq<char>| key_of(t, k) == Some(Setting::MaxClients) implies t == Section::Server by {}
    lemma_last_text_key(ls, n, Setting::MaxClients, Section::Server, "server"@, "max_clients"@);
    assert(value_of(c, Setting::MaxClients) == setting_value(ls, n, Setting::MaxClients));
    assert forall|k: Seq<char>| key_of(Section::Server, k) == Some(Setting::UsersFile) <==> k == "users_file"@ by {
        lemma_server_key_names(k);
    }
    assert forall|t: Section, k: Seq<char>| key_of(t, k) == Some(Setting::UsersFile) implies t == Section::Server by {}
    lemma_last_text_key(ls, n, Setting::UsersFile, Section::Server, "server"@, "users_file"@);
    assert(value_of(c, Setting::UsersFile) == setting_value(ls, n, Setting::UsersFile));
}

/// Parsing a configuration sets each field of `[logging]` from the key of the same name:
/// from the value of the last `key=value` line with that key under a `[logging]` header,
/// or to its default when no line gives it (see `read_or`).
pub proof fn lemma_logging_fields(c: AppConfig, ls: Seq<Seq<char>>)
    requires
        forall|s: Setting| value_of(c, s) == setting_value(ls, ls.len() as int, s),
    ensures
        Value::Text(c.logging.log_file@) == read_or(Setting::LogFile, last_assignment(ls, ls.len() as int, "logging"@, "log_file"@)),
{
    reveal(value_of);
    let n = ls.len() as int;
    assert forall|s: Seq<char>| section_named(s) == Some(Section::Logging) <==> s == "logging"@ by {
        lemma_section_names(s);
    }
    assert forall|k: Seq<char>| key_of(Section::Logging, k) == Some(Setting::LogFile) <==> k == "log_file"@ by {
        lemma_logging_key_names(k);
    }
    assert forall|t: Section, k: Seq<char>| key_of(t, k) == Some(Setting::LogFile) implies t == Section::Logging by {}
    lemma_last_text_key(ls, n, Setting::LogFile, Section::Logging, "logging"@, "log_file"@);
    assert(value_of(c, Setting::LogFile) == setting_value(ls, n, Setting::LogFile));
}

/// Parsing a configuration sets each field of `[tls]` from the key of the same name:
/// from the value of the last `key=value` line with that key under a `[tls]` header,
/// or to its default when no line gives it (see `read_or`).
pub proof fn lemma_tls_fields(c: AppConfig, ls: Seq<Seq<char>>)
    requires
        forall|s: Setting| value_of(c, s) == setting_value(ls, ls.len() as int, s),
    ensures
        Value::Text(c.tls.psk@) == read_or(Setting::Psk, last_assignment(ls, ls.len() as int, "tls"@, "psk"@)),
{
    reveal(value_of);
    let n = ls.len() as int;
    assert forall|s: Seq<char>| section_named(s) == Some(Section::Tls) <==> s == "tls"@ by {
        lemma_section_names(s);
    }
    assert forall|k: Seq<char>| key_of(Section::Tls, k) == Some(Setting::Psk) <==> k == "psk"@ by {
        lemma_tls_key_names(k);
    }
    assert forall|t: Section, k: Seq<char>| key_of(t, k) == Some(Setting::Psk) implies t == Section::Tls by {}
    lemma_last_text_key(ls, n, Setting::Psk, Section::Tls, "tls"@, "psk"@);
    assert(value_of(c, Setting::Psk) == setting_value(ls, n, Setting::Psk));
}

impl AppConfig {
    /// Reads the text of a configuration file, line by line (`str::lines`), each trimmed:
    /// blank lines and lines starting with '#' are skipped, `[name]` makes the section
    /// named in lower case the one in force, and `key=value` sets a key of that section.
    /// Settings that no line gives keep their defaults; a later line overrides an earlier
    /// one. The text is refused at its first bad line: one that is none of these, one in
    /// an unknown section, one with a key its section does not have, or one with a value
    /// that its key does not accept.
    pub fn parse(content: &str) -> (r: Result<AppConfig, ConfigError>)
        ensures
            r is Ok <==> forall|i: int|
                0 <= i < lines_of(content@).len() ==> line_error(lines_of(content@), i) is None,
            r matches Ok(c) ==> {
                &&& forall|s: Setting|
                    value_of(c, s) == setting_value(
                        lines_of(content@),
                        lines_of(content@).len() as int,
                        s,
                    )
                &&& scaling_view(c.ui.frame_scaling@) == scaling_lines(
                    lines_of(content@),
                    lines_of(content@).len() as int,
                )
            },
            r matches Err(e) ==> exists|i: int|
                {
                    &&& first_error_at(lines_of(content@), i)
                    &&& e.message@ == error_message(lines_of(content@), i)
                    &&& scaling_view(e.ui.frame_scaling@) == scaling_lines(lines_of(content@), i)
                },
    {
        let cs = str_chars(content);
        let lines = line_ranges(&cs);
        let ghost ls = lines_of(content@);
        let mut config = AppConfig::default();
        let mut section = String::new();
        let mut k: usize = 0;
        assert(scaling_view(config.ui.frame_scaling@) =~= scaling_lines(ls, 0));
        while k < lines.len()
            invariant
                k <= lines@.len() == ls.len(),
                cs@ == content@,
                ls == lines_of(content@),
                forall|x: int|
                    0 <= x < lines@.len() ==> (#[trigger] lines@[x]).0 <= lines@[x].1
                        <= cs@.len() && cs@.subrange(lines@[x].0 as int, lines@[x].1 as int)
                        == ls[x],
                section@ == section_before(ls, k as int),
                forall|i: int| 0 <= i < k ==> line_error(ls, i) is None,
                forall|s: Setting| value_of(config, s) == setting_value(ls, k as int, s),
                scaling_view(config.ui.frame_scaling@) == scaling_lines(ls, k as int),
            decreases lines@.len() - k,
        {
            let (a, b) = lines[k];
            let (ta, tb) = trim_range(&cs, a, b);
            match read_line(&mut config, &mut section, &cs, ta, tb, k, Ghost(ls)) {
                Ok(()) => {},
                Err(e) => {
                    assert(first_error_at(ls, k as int));
                    let message = line_message(k + 1, e.as_str());
                    return Err(ConfigError { message, ui: config.ui });
                },
            }
            k += 1;
        }
        Ok(config)
    }
}

} // verus!
