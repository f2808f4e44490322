//! RTP packetization of Opus frames: one frame per packet, payload type 111.
use crate::protocols::rtp_packet::{
    lemma_rtp_header_roundtrip, rtp_header_bytes, rtp_header_from_seq, RtpHeader, RtpParams,
};
use crate::wire::{next_seq, push_all, seq_next};
use vstd::prelude::*;

verus! {

/// The header of an Opus RTP packet: version 2, no padding, extension or CSRCs, no marker.
pub open spec fn opus_rtp_header(payload_type: u8, seq: u16, timestamp: u32, ssrc: u32) -> RtpHeader {
    RtpHeader {
        version: 2,
        padding: false,
        extension: false,
        csrc_count: 0,
        marker: false,
        payload_type,
        seq,
        timestamp,
        ssrc,
    }
}

/// Packetizer of Opus frames.
pub struct OpusRtpPacketizer {
    pub payload_type: u8,
    pub seq: u16,
    pub ssrc: u32,
}

impl OpusRtpPacketizer {
    /// A packetizer with payload type 111 that starts at `initial_seq`.
    pub fn new(ssrc: u32, initial_seq: u16) -> (p: Self)
        ensures
            p.payload_type == 111,
            p.seq == initial_seq,
            p.ssrc == ssrc,
    {
        Self { payload_type: 111, seq: initial_seq, ssrc }
    }

    /// One RTP packet: the 12-byte header with the current sequence number, then the frame.
    /// The sequence number advances by one, wrapping at 65535.
    pub fn packetize(&mut self, opus_data: &[u8], timestamp: u32) -> (packet: Vec<u8>)
        ensures
            packet@ == rtp_header_bytes(
                opus_rtp_header(old(self).payload_type, old(self).seq, timestamp, old(self).ssrc),
            ) + opus_data@,
            old(self).payload_type < 128 ==> rtp_header_from_seq(packet@) == opus_rtp_header(
                old(self).payload_type,
                old(self).seq,
                timestamp,
                old(self).ssrc,
            ),
            packet@.subrange(12, packet@.len() as int) == opus_data@,
            final(self).seq == next_seq(old(self).seq),
            final(self).payload_type == old(self).payload_type,
            final(self).ssrc == old(self).ssrc,
    {
        let params = RtpParams { version: 2, padding: false, extension: false, csrc_count: 0 };
        let header = RtpHeader::new(params, false, self.payload_type, self.seq, timestamp, self.ssrc);
        self.seq = seq_next(self.seq);
        let mut packet = Vec::new();
        let hb = header.to_bytes();
        push_all(&mut packet, &hb);
        push_all(&mut packet, opus_data);
        proof {
            let h = opus_rtp_header(old(self).payload_type, old(self).seq, timestamp, old(self).ssrc);
            assert(packet@.subrange(12, packet@.len() as int) =~= opus_data@);
            if h.payload_type < 128 {
                lemma_rtp_header_roundtrip(h);
                assert(rtp_header_from_seq(packet@) == rtp_header_from_seq(rtp_header_bytes(h))) by {
                    assert(packet@.subrange(0, 12) =~= rtp_header_bytes(h));
                }
            }
        }
        packet
    }

    /// The sequence number the next packet will carry.
    pub fn sequence(&self) -> (r: u16)
        ensures
            r == self.seq,
    {
        self.seq
    }

    /// The synchronization source of the stream.
    pub fn ssrc(&self) -> (r: u32)
        ensures
            r == self.ssrc,
    {
        self.ssrc
    }
}

/// Depacketizer of Opus frames: the payload is the frame itself.
pub struct OpusRtpDepacketizer;

impl OpusRtpDepacketizer {
    /// A depacketizer.
    pub fn new() -> Self {
        Self
    }

    /// The Opus frame carried by an RTP payload: the payload unchanged.
    pub fn depacketize(&self, _header: &RtpHeader, payload: &[u8]) -> (frame: Vec<u8>)
        ensures
            frame@ == payload@,
    {
        let mut frame = Vec::new();
        push_all(&mut frame, payload);
        frame
    }
}

impl Default for OpusRtpDepacketizer {
    fn default() -> Self {
        Self::new()
    }
}

} // verus!
