//! Classification of incoming UDP datagrams by their first bytes.
use crate::protocols::data_channel::{is_valid_sctp_packet, sctp_packet_ok};
use crate::protocols::ice::{is_stun_message, looks_like_stun};
use crate::protocols::rtcp::{is_rtcp, looks_like_rtcp};
use crate::wire::get_be16;
use vstd::prelude::*;

verus! {

/// The protocol a datagram belongs to.
#[derive(Clone, Copy, Debug, PartialEq, Eq, Structural)]
pub enum PacketType {
    Stun,
    Dtls,
    Sctp,
    Rtcp,
    Rtp,
    Unknown,
}

/// Settings of the receive loop that demultiplexes datagrams.
pub struct MultiplexerConfig {
    /// Timeout in milliseconds of each receive call.
    pub recv_timeout_ms: u64,
    /// Size of the receive buffer.
    pub buffer_size: usize,
}

impl Default for MultiplexerConfig {
    fn default() -> (c: Self)
        ensures
            c.recv_timeout_ms == 500,
            c.buffer_size == 65_535,
    {
        Self { recv_timeout_ms: 500, buffer_size: 65_535 }
    }
}

/// The protocol of the datagram held in the first `len` bytes of `b`, tested in this order:
/// SCTP shape, STUN magic cookie, DTLS content type 16..=23, RTCP header, RTP version 2 with
/// payload type 97 (H.264) or 111 (Opus).
pub open spec fn packet_type_of(b: Seq<u8>, len: int) -> PacketType {
    if sctp_packet_ok(b, len) {
        PacketType::Sctp
    } else if len >= 20 && looks_like_stun(b.subrange(0, len)) {
        PacketType::Stun
    } else if len >= 1 && 16 <= b[0] <= 23 {
        PacketType::Dtls
    } else if len >= 4 && looks_like_rtcp(b.subrange(0, len)) {
        PacketType::Rtcp
    } else if len >= 12 && (b[0] >> 6u8) & 0x3u8 == 2 && ((b[1] & 0x7Fu8) == 97 || (b[1]
        & 0x7Fu8) == 111) {
        PacketType::Rtp
    } else {
        PacketType::Unknown
    }
}

/// Bytes `b[i]`, `b[i + 1]` read as a 16-bit big-endian number.
proof fn lemma_be16_value(b: Seq<u8>, i: int)
    requires
        0 <= i && i + 1 < b.len(),
    ensures
        get_be16(b, i) as int == b[i] as int * 256 + b[i + 1] as int,
{
    let x = b[i];
    let y = b[i + 1];
    assert((((x as u16) << 8u16) | (y as u16)) as u16 == x as u16 * 256 + y as u16) by (bit_vector);
}

/// A datagram of at least 16 bytes whose two ports are not both zero and whose first chunk
/// announces a length from 4 up to what follows the 12-byte common header is SCTP, before any
/// other protocol is considered, exactly when that chunk's type is a standard one (0 to 15,
/// DATA among them) or 0xC0 or 0xC1.
pub proof fn lemma_sctp_by_chunk_type(b: Seq<u8>, len: int)
    requires
        16 <= len <= b.len(),
        b[0] != 0 || b[1] != 0 || b[2] != 0 || b[3] != 0,
        4 <= b[14] as int * 256 + b[15] as int <= len - 12,
    ensures
        (packet_type_of(b, len) == PacketType::Sctp) <==> (b[12] <= 15 || b[12] == 0xC0 || b[12] == 0xC1),
{
    lemma_be16_value(b, 0);
    lemma_be16_value(b, 2);
    lemma_be16_value(b, 14);
}

/// Classifies the datagram held in the first `len` bytes of `buf`.
pub fn detect_packet_type(buf: &[u8], len: usize) -> (t: PacketType)
    requires
        len <= buf@.len(),
    ensures
        t == packet_type_of(buf@, len as int),
{
    if is_valid_sctp_packet(buf, len) {
        return PacketType::Sctp;
    }
    if len >= 20 && is_stun_message(&buf[0..len]) {
        return PacketType::Stun;
    }
    if len >= 1 {
        let first_byte = buf[0];
        if 16 <= first_byte && first_byte <= 23 {
            return PacketType::Dtls;
        }
    }
    if len >= 4 && is_rtcp(&buf[0..len]) {
        return PacketType::Rtcp;
    }
    if len >= 12 {
        let version = (buf[0] >> 6u8) & 0x3u8;
        if version == 2 {
            let payload_type = buf[1] & 0x7Fu8;
            if payload_type == 97 || payload_type == 111 {
                return PacketType::Rtp;
            }
        }
    }
    PacketType::Unknown
}

} // verus!
