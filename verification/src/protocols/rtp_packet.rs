//! The fixed 12-byte RTP header and its wire encoding.
use crate::wire::{be16, be32, get_be16, get_be32, lemma_be16_roundtrip, lemma_be32_roundtrip, read_be16, read_be32};
use vstd::prelude::*;

verus! {

/// An RTP fixed header.
#[derive(Debug)]
pub struct RtpHeader {
    pub version: u8,
    pub padding: bool,
    pub extension: bool,
    pub csrc_count: u8,
    pub marker: bool,
    pub payload_type: u8,
    pub seq: u16,
    pub timestamp: u32,
    pub ssrc: u32,
}

/// The header fields that do not change from packet to packet.
pub struct RtpParams {
    pub version: u8,
    pub padding: bool,
    pub extension: bool,
    pub csrc_count: u8,
}

/// 1 for `true`, 0 for `false`.
pub open spec fn bit(b: bool) -> u8 {
    if b {
        1
    } else {
        0
    }
}

pub(crate) fn bit_exec(b: bool) -> (r: u8)
    ensures
        r == bit(b),
{
    if b {
        1
    } else {
        0
    }
}

/// First header byte: version (2 bits), padding, extension, CSRC count (4 bits).
pub open spec fn rtp_byte0(h: RtpHeader) -> u8 {
    ((h.version << 6u8) | (bit(h.padding) << 5u8) | (bit(h.extension) << 4u8) | (h.csrc_count
        & 0x0Fu8)) as u8
}

/// Second header byte: marker bit and 7-bit payload type.
pub open spec fn rtp_byte1(h: RtpHeader) -> u8 {
    ((bit(h.marker) << 7u8) | (h.payload_type & 0x7Fu8)) as u8
}

/// The 12 bytes that encode `h`.
pub open spec fn rtp_header_bytes(h: RtpHeader) -> Seq<u8> {
    seq![rtp_byte0(h), rtp_byte1(h)] + be16(h.seq) + be32(h.timestamp) + be32(h.ssrc)
}

/// The header that the first 12 bytes of `s` encode.
pub open spec fn rtp_header_from_seq(s: Seq<u8>) -> RtpHeader {
    RtpHeader {
        version: s[0] >> 6u8,
        padding: (s[0] & 0x20u8) != 0,
        extension: (s[0] & 0x10u8) != 0,
        csrc_count: s[0] & 0x0Fu8,
        marker: (s[1] & 0x80u8) != 0,
        payload_type: s[1] & 0x7Fu8,
        seq: get_be16(s, 2),
        timestamp: get_be32(s, 4),
        ssrc: get_be32(s, 8),
    }
}

/// A header whose every field fits its bits on the wire.
pub open spec fn rtp_header_fits(h: RtpHeader) -> bool {
    h.version < 4 && h.csrc_count < 16 && h.payload_type < 128
}

impl RtpHeader {
    /// Builds a header from its parameters and per-packet fields.
    pub fn new(
        params: RtpParams,
        marker: bool,
        payload_type: u8,
        seq: u16,
        timestamp: u32,
        ssrc: u32,
    ) -> (h: Self)
        ensures
            h.version == params.version,
            h.padding == params.padding,
            h.extension == params.extension,
            h.csrc_count == params.csrc_count,
            h.marker == marker,
            h.payload_type == payload_type,
            h.seq == seq,
            h.timestamp == timestamp,
            h.ssrc == ssrc,
    {
        RtpHeader {
            version: params.version,
            padding: params.padding,
            extension: params.extension,
            csrc_count: params.csrc_count,
            marker,
            payload_type,
            seq,
            timestamp,
            ssrc,
        }
    }

    /// Encodes the header in its 12 wire bytes.
    pub fn to_bytes(&self) -> (b: [u8; 12])
        ensures
            b@ == rtp_header_bytes(*self),
    {
        let b0 = (self.version << 6u8) | (bit_exec(self.padding) << 5u8) | (bit_exec(self.extension)
            << 4u8) | (self.csrc_count & 0x0Fu8);
        let b1 = (bit_exec(self.marker) << 7u8) | (self.payload_type & 0x7Fu8);
        let b = [
            b0,
            b1,
            (self.seq >> 8) as u8,
            self.seq as u8,
            (self.timestamp >> 24) as u8,
            (self.timestamp >> 16) as u8,
            (self.timestamp >> 8) as u8,
            self.timestamp as u8,
            (self.ssrc >> 24) as u8,
            (self.ssrc >> 16) as u8,
            (self.ssrc >> 8) as u8,
            self.ssrc as u8,
        ];
        assert(b@ =~= rtp_header_bytes(*self));
        b
    }

    /// Decodes a header from the first 12 bytes of `buf`; fails on a shorter buffer.
    pub fn from_bytes(buf: &[u8]) -> (r: Result<Self, String>)
        ensures
            r is Err <==> buf@.len() < 12,
            r matches Ok(h) ==> h == rtp_header_from_seq(buf@),
            r matches Err(e) ==> e@ == "Buffer too small to contain RTP header"@,
    {
        if buf.len() < 12 {
            return Err(String::from_str("Buffer too small to contain RTP header"));
        }
        Ok(RtpHeader {
            version: buf[0] >> 6u8,
            padding: (buf[0] & 0x20u8) != 0,
            extension: (buf[0] & 0x10u8) != 0,
            csrc_count: buf[0] & 0x0Fu8,
            marker: (buf[1] & 0x80u8) != 0,
            payload_type: buf[1] & 0x7Fu8,
            seq: read_be16(buf, 2),
            timestamp: read_be32(buf, 4),
            ssrc: read_be32(buf, 8),
        })
    }
}

/// Decoding the encoding of a header whose fields fit their bits gives the header back.
pub proof fn lemma_rtp_header_roundtrip(h: RtpHeader)
    requires
        rtp_header_fits(h),
    ensures
        rtp_header_from_seq(rtp_header_bytes(h)) == h,
{
    let s = rtp_header_bytes(h);
    let v = h.version;
    let p = bit(h.padding);
    let x = bit(h.extension);
    let c = h.csrc_count;
    let m = bit(h.marker);
    let pt = h.payload_type;
    assert(p < 2 && x < 2 && m < 2);
    assert((p == 1) == h.padding && (x == 1) == h.extension && (m == 1) == h.marker);
    let b0 = rtp_byte0(h);
    let b1 = rtp_byte1(h);
    assert(v < 4 && p < 2 && x < 2 && c < 16 && b0 == ((v << 6u8) | (p << 5u8) | (x << 4u8) | (c
        & 0x0Fu8)) as u8 ==> b0 >> 6u8 == v && ((b0 & 0x20u8) != 0) == (p == 1) && ((b0 & 0x10u8)
        != 0) == (x == 1) && b0 & 0x0Fu8 == c) by (bit_vector);
    assert(m < 2 && pt < 128 && b1 == ((m << 7u8) | (pt & 0x7Fu8)) as u8 ==> ((b1 & 0x80u8) != 0)
        == (m == 1) && b1 & 0x7Fu8 == pt) by (bit_vector);
    assert(s[0] == b0 && s[1] == b1);
    assert(s.subrange(2, 4) =~= be16(h.seq));
    assert(s.subrange(4, 8) =~= be32(h.timestamp));
    assert(s.subrange(8, 12) =~= be32(h.ssrc));
    lemma_be16_roundtrip(h.seq, s, 2);
    lemma_be32_roundtrip(h.timestamp, s, 4);
    lemma_be32_roundtrip(h.ssrc, s, 8);
}

} // verus!
