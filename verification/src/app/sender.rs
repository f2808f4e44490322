//! What a call's media sender puts on the wire for each encoded frame: RTP packets
//! numbered in sequence, their payloads sealed with SRTP when a key was agreed, and the
//! counts that the sender reports. Capture, encoding, pacing and the socket are the
//! caller's.
use crate::crypto::{aes128_gcm_seal, AES_GCM_P_MAX};
use crate::protocols::h264_rtp::{
    frame_packets, fu_fragments, h264_header, lemma_seq_add_next, nal_packets, nalu_texts,
    seq_add, H264RtpPacketizer,
};
use crate::protocols::opus_rtp::{opus_rtp_header, OpusRtpPacketizer};
use crate::protocols::rtcp_receiver::{sat_add, wrap_add};
use crate::protocols::rtp_packet::{bit, rtp_header_bytes};
use crate::protocols::srtp::{encrypt_rtp_packet, srtp_nonce, SrtpContext};
use crate::wire::{next_seq, push_all, seq_next};
use vstd::prelude::*;

verus! {

/// A packet as sent: with a key, its payload (after the 12-byte header) sealed under the
/// nonce of sequence number `seq`; without one, or when it is shorter than a header, as it is.
pub open spec fn sealed_packet(p: Seq<u8>, seq: u16, srtp: Option<&SrtpContext>) -> Seq<u8> {
    match srtp {
        Some(c) => if p.len() < 12 {
            p
        } else {
            p.take(12) + aes128_gcm_seal(c.key(), srtp_nonce(seq), p.skip(12))
        },
        None => p,
    }
}

/// The payload bytes of the first `n` packets (each less its 12-byte header), added up
/// and held at `u32::MAX`.
pub open spec fn payload_total(pk: Seq<Seq<u8>>, n: int) -> u32
    decreases n,
{
    if n <= 0 {
        0
    } else if pk[n - 1].len() >= 12 {
        sat_add(payload_total(pk, n - 1), (pk[n - 1].len() - 12) as u32)
    } else {
        payload_total(pk, n - 1)
    }
}

/// FU-A fragments carry at most `max_frag` bytes after their 14 bytes of headers.
proof fn lemma_fragments_fit(
    nal: Seq<u8>,
    offset: int,
    first: bool,
    last_nal: bool,
    payload_type: u8,
    seq: u16,
    timestamp: u32,
    ssrc: u32,
    max_frag: int,
)
    ensures
        forall|j: int|
            0 <= j < fu_fragments(nal, offset, first, last_nal, payload_type, seq, timestamp, ssrc, max_frag).len()
                ==> (#[trigger] fu_fragments(nal, offset, first, last_nal, payload_type, seq, timestamp, ssrc, max_frag)[j]).len()
                <= 14 + max_frag,
    decreases nal.len() - offset,
{
    if 0 < max_frag && 0 < offset < nal.len() {
        let remaining = nal.len() - offset;
        let frag = if remaining < max_frag {
            remaining
        } else {
            max_frag
        };
        let last = offset + frag >= nal.len();
        let fu_indicator = ((nal[0] & 0xE0u8) | 28u8) as u8;
        let fu_header = ((bit(first) << 7u8) | (bit(last) << 6u8) | (nal[0] & 0x1Fu8)) as u8;
        let pkt = rtp_header_bytes(h264_header(payload_type, last && last_nal, seq, timestamp, ssrc))
            + seq![fu_indicator, fu_header] + nal.subrange(offset, offset + frag);
        let rest = fu_fragments(nal, offset + frag, false, last_nal, payload_type, next_seq(seq), timestamp, ssrc, max_frag);
        let all = fu_fragments(nal, offset, first, last_nal, payload_type, seq, timestamp, ssrc, max_frag);
        assert(all == seq![pkt] + rest);
        assert(pkt.len() == 14 + frag);
        lemma_fragments_fit(nal, offset + frag, false, last_nal, payload_type, next_seq(seq), timestamp, ssrc, max_frag);
        assert forall|j: int| 0 <= j < all.len() implies (#[trigger] all[j]).len() <= 14 + max_frag by {
            if j > 0 {
                assert(all[j] == rest[j - 1]);
            }
        }
    }
}

/// No packet of an access unit is longer than the MTU.
proof fn lemma_frame_fits(nalus: Seq<Seq<u8>>, k: int, payload_type: u8, seq: u16, timestamp: u32, ssrc: u32, mtu: int)
    ensures
        forall|j: int|
            0 <= j < frame_packets(nalus, k, payload_type, seq, timestamp, ssrc, mtu).len()
                ==> (#[trigger] frame_packets(nalus, k, payload_type, seq, timestamp, ssrc, mtu)[j]).len() <= mtu,
    decreases nalus.len() - k,
{
    if 0 <= k < nalus.len() {
        let last = k == nalus.len() - 1;
        let p = nal_packets(nalus[k], last, payload_type, seq, timestamp, ssrc, mtu);
        let max_frag = if mtu >= 14 {
            mtu - 14
        } else {
            0
        };
        lemma_fragments_fit(nalus[k], 1, true, last, payload_type, seq, timestamp, ssrc, max_frag);
        let rest = frame_packets(nalus, k + 1, payload_type, seq_add(seq, p.len()), timestamp, ssrc, mtu);
        let all = frame_packets(nalus, k, payload_type, seq, timestamp, ssrc, mtu);
        lemma_frame_fits(nalus, k + 1, payload_type, seq_add(seq, p.len()), timestamp, ssrc, mtu);
        assert(all == p + rest);
        assert forall|j: int| 0 <= j < all.len() implies (#[trigger] all[j]).len() <= mtu by {
            if j < p.len() {
                if nalus[k].len() > 0 && 12 + nalus[k].len() <= mtu {
                    assert(p[j].len() == 12 + nalus[k].len());
                } else {
                    let fr = fu_fragments(nalus[k], 1, true, last, payload_type, seq, timestamp, ssrc, max_frag);
                    assert(p == fr);
                    assert(fr[j].len() <= 14 + max_frag);
                    assert(max_frag > 0);
                }
            } else {
                assert(all[j] == rest[j - p.len()]);
            }
        }
    }
}

/// The video stream's sender: its packetizer, the number of its next packet and the
/// timestamp of the frame being sent.
pub struct VideoSender {
    pub packetizer: H264RtpPacketizer,
    pub seq: u16,
    pub timestamp: u32,
}

impl VideoSender {
    /// A stream of packets of at most `mtu` bytes, numbered from 0, timestamps from 0.
    pub fn new(mtu: usize, payload_type: u8, ssrc: u32) -> (s: Self)
        ensures
            s.packetizer.mtu == mtu,
            s.packetizer.payload_type == payload_type,
            s.packetizer.ssrc == ssrc,
            s.packetizer.seq == 0,
            s.seq == 0,
            s.timestamp == 0,
    {
        VideoSender { packetizer: H264RtpPacketizer::new(mtu, payload_type, 0, ssrc), seq: 0, timestamp: 0 }
    }

    /// The packets of an encoded frame, in sending order: the packetizer's packets for the
    /// frame's timestamp, numbered on from the stream's next number, each sealed with its
    /// own number when a key is given. Also returns their payload bytes (see
    /// `payload_total`); the next number moves past them.
    pub fn send_rtp_packets(&mut self, encoded: &[u8], srtp: Option<&SrtpContext>) -> (r: (Vec<Vec<u8>>, u32))
        requires
            old(self).packetizer.mtu <= 12 + AES_GCM_P_MAX,
        ensures
            ({
                let pk = frame_packets(
                    nalu_texts(encoded@),
                    0,
                    old(self).packetizer.payload_type,
                    old(self).seq,
                    old(self).timestamp,
                    old(self).packetizer.ssrc,
                    old(self).packetizer.mtu as int,
                );
                &&& r.0@.len() == pk.len()
                &&& forall|i: int|
                    0 <= i < pk.len() ==> (#[trigger] r.0@[i])@ == sealed_packet(
                        pk[i],
                        seq_add(old(self).seq, i as nat),
                        srtp,
                    )
                &&& r.1 == payload_total(pk, pk.len() as int)
                &&& final(self).seq == seq_add(old(self).seq, pk.len())
            }),
            final(self).packetizer.seq == final(self).seq,
            final(self).packetizer.mtu == old(self).packetizer.mtu,
            final(self).packetizer.payload_type == old(self).packetizer.payload_type,
            final(self).packetizer.ssrc == old(self).packetizer.ssrc,
            final(self).timestamp == old(self).timestamp,
    {
        self.packetizer.seq = self.seq;
        let packets = self.packetizer.packetize_frame(encoded, self.timestamp);
        let ghost pk = frame_packets(
            nalu_texts(encoded@),
            0,
            old(self).packetizer.payload_type,
            old(self).seq,
            old(self).timestamp,
            old(self).packetizer.ssrc,
            old(self).packetizer.mtu as int,
        );
        proof {
            lemma_frame_fits(
                nalu_texts(encoded@),
                0,
                old(self).packetizer.payload_type,
                old(self).seq,
                old(self).timestamp,
                old(self).packetizer.ssrc,
                old(self).packetizer.mtu as int,
            );
            lemma_seq_add_next(old(self).seq, 0);
        }
        let mut out: Vec<Vec<u8>> = Vec::new();
        let mut payload_bytes: u32 = 0;
        let mut cur: u16 = self.seq;
        let mut i: usize = 0;
        while i < packets.len()
            invariant
                i <= packets@.len() == pk.len(),
                forall|j: int| 0 <= j < pk.len() ==> (#[trigger] packets@[j])@ == pk[j],
                forall|j: int| 0 <= j < pk.len() ==> (#[trigger] pk[j]).len() <= 12 + AES_GCM_P_MAX,
                out@.len() == i,
                forall|j: int|
                    0 <= j < i ==> (#[trigger] out@[j])@ == sealed_packet(pk[j], seq_add(old(self).seq, j as nat), srtp),
                cur == seq_add(old(self).seq, i as nat),
                payload_bytes == payload_total(pk, i as int),
            decreases packets@.len() - i,
        {
            let pkt = &packets[i];
            let to_send = match srtp {
                Some(c) => encrypt_rtp_packet(pkt.as_slice(), cur, c),
                None => {
                    let mut copy: Vec<u8> = Vec::new();
                    push_all(&mut copy, pkt.as_slice());
                    copy
                },
            };
            if pkt.len() >= 12 {
                payload_bytes = payload_bytes.saturating_add((pkt.len() - 12) as u32);
            }
            out.push(to_send);
            proof {
                lemma_seq_add_next(old(self).seq, i as nat);
            }
            cur = seq_next(cur);
            i += 1;
        }
        self.seq = self.packetizer.seq;
        (out, payload_bytes)
    }

    /// The next frame's timestamp: `step` later, wrapping at 2^32.
    pub fn next_frame(&mut self, step: u32)
        ensures
            final(self).timestamp == wrap_add(old(self).timestamp, step as int),
            final(self).seq == old(self).seq,
            final(self).packetizer == old(self).packetizer,
    {
        self.timestamp = self.timestamp.wrapping_add(step);
    }
}

/// The audio stream's sender: its packetizer, the next timestamp, and the packets and
/// payload bytes sent so far.
pub struct AudioSender {
    pub packetizer: OpusRtpPacketizer,
    pub timestamp: u32,
    pub packets_sent: u32,
    pub bytes_sent: u32,
}

impl AudioSender {
    /// Nothing sent yet, packets numbered from 0 with timestamps from 0.
    pub fn new(ssrc: u32) -> (s: Self)
        ensures
            s.packetizer.payload_type == 111,
            s.packetizer.ssrc == ssrc,
            s.packetizer.seq == 0,
            s.timestamp == 0,
            s.packets_sent == 0,
            s.bytes_sent == 0,
    {
        AudioSender { packetizer: OpusRtpPacketizer::new(ssrc, 0), timestamp: 0, packets_sent: 0, bytes_sent: 0 }
    }

    /// The packet of an encoded frame: the Opus packet with the stream's number and the
    /// current timestamp, sealed with that number when a key is given. The counts grow by
    /// the packet and its frame's bytes, and the timestamp moves on by `frame_size`.
    pub fn send_frame(&mut self, encoded: &[u8], frame_size: u32, srtp: Option<&SrtpContext>) -> (packet: Vec<u8>)
        requires
            encoded@.len() <= AES_GCM_P_MAX,
            old(self).packets_sent < u32::MAX,
            old(self).bytes_sent + encoded@.len() <= u32::MAX,
        ensures
            packet@ == sealed_packet(
                rtp_header_bytes(
                    opus_rtp_header(
                        old(self).packetizer.payload_type,
                        old(self).packetizer.seq,
                        old(self).timestamp,
                        old(self).packetizer.ssrc,
                    ),
                ) + encoded@,
                old(self).packetizer.seq,
                srtp,
            ),
            final(self).packetizer.seq == next_seq(old(self).packetizer.seq),
            final(self).packetizer.payload_type == old(self).packetizer.payload_type,
            final(self).packetizer.ssrc == old(self).packetizer.ssrc,
            final(self).packets_sent == old(self).packets_sent + 1,
            final(self).bytes_sent == old(self).bytes_sent + encoded@.len(),
            final(self).timestamp == wrap_add(old(self).timestamp, frame_size as int),
    {
        let seq = self.packetizer.sequence();
        let rtp_packet = self.packetizer.packetize(encoded, self.timestamp);
        let packet = match srtp {
            Some(c) => encrypt_rtp_packet(rtp_packet.as_slice(), seq, c),
            None => rtp_packet,
        };
        self.packets_sent = self.packets_sent + 1;
        self.bytes_sent = self.bytes_sent + encoded.len() as u32;
        self.timestamp = self.timestamp.wrapping_add(frame_size);
        packet
    }
}

} // verus!
