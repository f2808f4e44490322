//! RTCP (RTP Control Protocol) packets: encoding, compound packets and decoding.
use crate::protocols::rtp_packet::bit;
use crate::text::{lossy_text, string_from_utf8_lossy};
use crate::wire::{
    be16, be32, get_be16, get_be32, lemma_be16_roundtrip, lemma_be32_roundtrip, push_all,
    push_be16, push_be32, read_be16, read_be32,
};
use vstd::prelude::*;
use vstd::utf8::{encode_utf8, encode_utf8_decode_utf8, encode_utf8_valid_utf8};

verus! {

/// RTCP protocol version (RFC 3550).
pub const RTCP_VERSION: u8 = 2;

/// Payload type of a Sender Report.
pub const PT_SR: u8 = 200;

/// Payload type of a Receiver Report.
pub const PT_RR: u8 = 201;

/// Payload type of a Source Description.
pub const PT_SDES: u8 = 202;

/// Payload type of a BYE.
pub const PT_BYE: u8 = 203;

/// Payload type of a payload-specific feedback message.
pub const PT_PSFB: u8 = 206;

/// Feedback message type of a Picture Loss Indication.
pub const FMT_PLI: u8 = 1;

/// End marker of an SDES item list.
pub const SDES_END: u8 = 0;

/// SDES item type CNAME.
pub const SDES_CNAME: u8 = 1;

/// The common RTCP header (version, padding, count, payload type, length in words minus one).
#[derive(Debug)]
pub struct RtcpHeader {
    pub version: u8,
    pub padding: bool,
    pub count: u8,
    pub pt: u8,
    pub length: u16,
}

/// The 4 bytes that encode a header.
pub open spec fn rtcp_header_bytes(version: u8, padding: bool, count: u8, pt: u8, length: u16) -> Seq<
    u8,
> {
    seq![((version << 6u8) | (bit(padding) << 5u8) | (count & 0x1Fu8)) as u8, pt] + be16(length)
}

/// Total size in bytes of the packet that a header with this length field announces.
pub open spec fn rtcp_packet_size(length: u16) -> int {
    (length as int + 1) * 4
}

/// Whether `s` starts with an RTCP header of version 2 whose whole packet fits in `s`.
pub open spec fn rtcp_header_ok(s: Seq<u8>) -> bool {
    &&& s.len() >= 4
    &&& s[0] >> 6u8 == RTCP_VERSION
    &&& s.len() >= rtcp_packet_size(get_be16(s, 2))
}

impl RtcpHeader {
    /// Encodes the header in 4 bytes.
    pub fn to_bytes(&self) -> (b: [u8; 4])
        ensures
            b@ == rtcp_header_bytes(self.version, self.padding, self.count, self.pt, self.length),
    {
        let p: u8 = if self.padding {
            1
        } else {
            0
        };
        let b = [
            (self.version << 6u8) | (p << 5u8) | (self.count & 0x1Fu8),
            self.pt,
            (self.length >> 8) as u8,
            self.length as u8,
        ];
        assert(b@ =~= rtcp_header_bytes(self.version, self.padding, self.count, self.pt, self.length));
        b
    }

    /// Decodes a header from the start of `buf` together with the total size of its packet;
    /// `None` when `buf` is shorter than 4 bytes, the version is not 2, or the announced
    /// packet does not fit in `buf`.
    pub fn from_bytes(buf: &[u8]) -> (r: Option<(Self, usize)>)
        ensures
            r is Some <==> rtcp_header_ok(buf@),
            r matches Some((h, n)) ==> {
                &&& h.version == buf@[0] >> 6u8
                &&& h.padding == ((buf@[0] & 0x20u8) != 0)
                &&& h.count == buf@[0] & 0x1Fu8
                &&& h.pt == buf@[1]
                &&& h.length == get_be16(buf@, 2)
                &&& n == rtcp_packet_size(h.length)
            },
    {
        if buf.len() < 4 {
            return None;
        }
        let v = buf[0] >> 6u8;
        if v != RTCP_VERSION {
            return None;
        }
        let padding = (buf[0] & 0x20u8) != 0;
        let count = buf[0] & 0x1Fu8;
        let pt = buf[1];
        let length = read_be16(buf, 2);
        let bytes = ((length as usize) + 1) * 4;
        if buf.len() < bytes {
            return None;
        }
        Some((RtcpHeader { version: v, padding, count, pt, length }, bytes))
    }
}

/// A reception report block carried by SR and RR packets.
#[derive(Debug, Clone, Copy, Default)]
pub struct ReportBlock {
    pub ssrc: u32,
    pub fraction_lost: u8,
    pub cumulative_lost: u32,
    pub ext_highest_seq: u32,
    pub jitter: u32,
    pub lsr: u32,
    pub dlsr: u32,
}

/// The 24 bytes of a report block; only the low 24 bits of `cumulative_lost` travel.
pub open spec fn report_block_bytes(rb: ReportBlock) -> Seq<u8> {
    let cum = rb.cumulative_lost & 0x00FF_FFFFu32;
    be32(rb.ssrc) + seq![
        rb.fraction_lost,
        ((cum >> 16u32) & 0xFFu32) as u8,
        ((cum >> 8u32) & 0xFFu32) as u8,
        (cum & 0xFFu32) as u8,
    ] + be32(rb.ext_highest_seq) + be32(rb.jitter) + be32(rb.lsr) + be32(rb.dlsr)
}

/// The concatenated encodings of a sequence of report blocks.
pub open spec fn report_blocks_bytes(rbs: Seq<ReportBlock>) -> Seq<u8>
    decreases rbs.len(),
{
    if rbs.len() == 0 {
        seq![]
    } else {
        report_blocks_bytes(rbs.drop_last()) + report_block_bytes(rbs.last())
    }
}

/// The report block encoded at `b[o..o + 24]`.
pub open spec fn report_block_at(b: Seq<u8>, o: int) -> ReportBlock {
    ReportBlock {
        ssrc: get_be32(b, o),
        fraction_lost: b[o + 4],
        cumulative_lost: ((b[o + 5] as u32) << 16u32) | ((b[o + 6] as u32) << 8u32) | (b[o
            + 7] as u32),
        ext_highest_seq: get_be32(b, o + 8),
        jitter: get_be32(b, o + 12),
        lsr: get_be32(b, o + 16),
        dlsr: get_be32(b, o + 20),
    }
}

/// Up to `k` report blocks read from `b` starting at `o`, stopping at the first that does not fit.
pub open spec fn report_blocks_at(b: Seq<u8>, o: int, k: nat) -> Seq<ReportBlock>
    decreases k,
{
    if k == 0 || o + 24 > b.len() {
        seq![]
    } else {
        seq![report_block_at(b, o)] + report_blocks_at(b, o + 24, (k - 1) as nat)
    }
}

impl ReportBlock {
    /// Encodes the block in 24 bytes.
    pub fn as_bytes_from_ref(&self) -> (b: [u8; 24])
        ensures
            b@ == report_block_bytes(*self),
    {
        let cum = self.cumulative_lost & 0x00FF_FFFFu32;
        let b = [
            (self.ssrc >> 24) as u8,
            (self.ssrc >> 16) as u8,
            (self.ssrc >> 8) as u8,
            self.ssrc as u8,
            self.fraction_lost,
            ((cum >> 16u32) & 0xFFu32) as u8,
            ((cum >> 8u32) & 0xFFu32) as u8,
            (cum & 0xFFu32) as u8,
            (self.ext_highest_seq >> 24) as u8,
            (self.ext_highest_seq >> 16) as u8,
            (self.ext_highest_seq >> 8) as u8,
            self.ext_highest_seq as u8,
            (self.jitter >> 24) as u8,
            (self.jitter >> 16) as u8,
            (self.jitter >> 8) as u8,
            self.jitter as u8,
            (self.lsr >> 24) as u8,
            (self.lsr >> 16) as u8,
            (self.lsr >> 8) as u8,
            self.lsr as u8,
            (self.dlsr >> 24) as u8,
            (self.dlsr >> 16) as u8,
            (self.dlsr >> 8) as u8,
            self.dlsr as u8,
        ];
        assert(b@ =~= report_block_bytes(*self));
        b
    }
}

fn push_report_blocks(out: &mut Vec<u8>, reports: &Vec<ReportBlock>)
    ensures
        final(out)@ == old(out)@ + report_blocks_bytes(reports@),
{
    let mut i: usize = 0;
    while i < reports.len()
        invariant
            i <= reports@.len(),
            out@ == old(out)@ + report_blocks_bytes(reports@.subrange(0, i as int)),
        decreases reports@.len() - i,
    {
        let b = reports[i].as_bytes_from_ref();
        push_all(out, &b);
        i += 1;
        assert(reports@.subrange(0, i as int).drop_last() =~= reports@.subrange(0, i - 1));
    }
    assert(reports@.subrange(0, reports@.len() as int) =~= reports@);
}

/// A Sender Report: NTP/RTP time correlation and send counters.
#[derive(Debug, Clone)]
pub struct SenderReport {
    pub ssrc: u32,
    pub ntp_secs: u32,
    pub ntp_frac: u32,
    pub rtp_ts: u32,
    pub packet_count: u32,
    pub byte_count: u32,
    pub reports: Vec<ReportBlock>,
}

/// A Receiver Report: reception statistics towards the sender.
#[derive(Debug)]
pub struct ReceiverReport {
    pub ssrc: u32,
    pub reports: Vec<ReportBlock>,
}

/// An SDES item: a type and its text.
#[derive(Debug, Clone)]
pub struct SdesItem {
    pub typ: u8,
    pub text: String,
}

/// An SDES chunk: the items that describe one SSRC.
#[derive(Debug, Clone)]
pub struct SdesChunk {
    pub ssrc: u32,
    pub items: Vec<SdesItem>,
}

/// A BYE packet: the leaving SSRCs and an optional reason.
#[derive(Debug, Clone)]
pub struct Bye {
    pub ssrcs: Vec<u32>,
    pub reason: Option<String>,
}

/// A Picture Loss Indication feedback message.
#[derive(Debug, Clone)]
pub struct PictureLossIndication {
    pub sender_ssrc: u32,
    pub media_ssrc: u32,
}

/// The RTCP packets this library encodes and decodes.
#[derive(Debug)]
pub enum RtcpPacket {
    SR(SenderReport),
    RR(ReceiverReport),
    SDES(Vec<SdesChunk>),
    BYE(Bye),
    PLI(PictureLossIndication),
}

/// Mathematical value of an RTCP packet.
pub enum RtcpModel {
    SR {
        ssrc: u32,
        ntp_secs: u32,
        ntp_frac: u32,
        rtp_ts: u32,
        packet_count: u32,
        byte_count: u32,
        reports: Seq<ReportBlock>,
    },
    RR { ssrc: u32, reports: Seq<ReportBlock> },
    SDES { chunks: Seq<(u32, Seq<(u8, Seq<char>)>)> },
    BYE { ssrcs: Seq<u32>, reason: Option<Seq<char>> },
    PLI { sender_ssrc: u32, media_ssrc: u32 },
}

/// The (type, text) view of the items of a chunk.
pub open spec fn sdes_items_view(items: Seq<SdesItem>) -> Seq<(u8, Seq<char>)> {
    items.map_values(|it: SdesItem| (it.typ, it.text@))
}

/// The (ssrc, items) view of a list of chunks.
pub open spec fn sdes_chunks_view(chunks: Seq<SdesChunk>) -> Seq<(u32, Seq<(u8, Seq<char>)>)> {
    chunks.map_values(|c: SdesChunk| (c.ssrc, sdes_items_view(c.items@)))
}

impl RtcpPacket {
    /// The mathematical value of this packet.
    pub open spec fn model(self) -> RtcpModel {
        match self {
            RtcpPacket::SR(sr) => RtcpModel::SR {
                ssrc: sr.ssrc,
                ntp_secs: sr.ntp_secs,
                ntp_frac: sr.ntp_frac,
                rtp_ts: sr.rtp_ts,
                packet_count: sr.packet_count,
                byte_count: sr.byte_count,
                reports: sr.reports@,
            },
            RtcpPacket::RR(rr) => RtcpModel::RR { ssrc: rr.ssrc, reports: rr.reports@ },
            RtcpPacket::SDES(chunks) => RtcpModel::SDES { chunks: sdes_chunks_view(chunks@) },
            RtcpPacket::BYE(b) => RtcpModel::BYE {
                ssrcs: b.ssrcs@,
                reason: match b.reason {
                    Some(r) => Some(r@),
                    None => None,
                },
            },
            RtcpPacket::PLI(p) => RtcpModel::PLI {
                sender_ssrc: p.sender_ssrc,
                media_ssrc: p.media_ssrc,
            },
        }
    }
}

/// The models of a sequence of packets.
pub open spec fn rtcp_models(ps: Seq<RtcpPacket>) -> Seq<RtcpModel> {
    ps.map_values(|p: RtcpPacket| p.model())
}

/// Length field for a packet whose payload after the header has `payload_len` bytes.
pub open spec fn length_words(payload_len: int) -> u16 {
    ((payload_len + 4) / 4 - 1) as u16
}

/// `n` zero bytes.
pub open spec fn zeros(n: nat) -> Seq<u8> {
    Seq::new(n, |i: int| 0u8)
}

/// Number of zero bytes that pad `len` to a multiple of 4.
pub open spec fn pad4(len: int) -> nat {
    ((4 - len % 4) % 4) as nat
}

/// The bytes of one SDES item: type, length of the text (one byte), text.
pub open spec fn sdes_item_bytes(it: (u8, Seq<char>)) -> Seq<u8> {
    seq![it.0, encode_utf8(it.1).len() as u8] + encode_utf8(it.1)
}

/// The concatenated bytes of a list of SDES items.
pub open spec fn sdes_items_bytes(items: Seq<(u8, Seq<char>)>) -> Seq<u8>
    decreases items.len(),
{
    if items.len() == 0 {
        seq![]
    } else {
        sdes_items_bytes(items.drop_last()) + sdes_item_bytes(items.last())
    }
}

/// The bytes of one SDES chunk: SSRC, items, end marker, zero padding to 32 bits.
pub open spec fn sdes_chunk_bytes(c: (u32, Seq<(u8, Seq<char>)>)) -> Seq<u8> {
    let unpadded = be32(c.0) + sdes_items_bytes(c.1) + seq![SDES_END];
    unpadded + zeros(pad4(unpadded.len() as int))
}

/// The concatenated bytes of a list of SDES chunks.
pub open spec fn sdes_chunks_bytes(chunks: Seq<(u32, Seq<(u8, Seq<char>)>)>) -> Seq<u8>
    decreases chunks.len(),
{
    if chunks.len() == 0 {
        seq![]
    } else {
        sdes_chunks_bytes(chunks.drop_last()) + sdes_chunk_bytes(chunks.last())
    }
}

/// The concatenated big-endian encodings of a list of SSRCs.
pub open spec fn ssrcs_bytes(ssrcs: Seq<u32>) -> Seq<u8>
    decreases ssrcs.len(),
{
    if ssrcs.len() == 0 {
        seq![]
    } else {
        ssrcs_bytes(ssrcs.drop_last()) + be32(ssrcs.last())
    }
}

/// The payload of a BYE after its header: SSRCs, then, with a reason, its length (at most 255),
/// its first bytes, and zero padding to 32 bits.
pub open spec fn bye_payload(ssrcs: Seq<u32>, reason: Option<Seq<char>>) -> Seq<u8> {
    match reason {
        None => ssrcs_bytes(ssrcs),
        Some(r) => {
            let rb = encode_utf8(r);
            let len = if rb.len() < 255 {
                rb.len() as int
            } else {
                255
            };
            let unpadded = ssrcs_bytes(ssrcs) + seq![len as u8] + rb.subrange(0, len);
            unpadded + zeros(pad4(unpadded.len() as int))
        },
    }
}

/// The wire bytes of a packet.
pub open spec fn rtcp_model_bytes(m: RtcpModel) -> Seq<u8> {
    match m {
        RtcpModel::SR { ssrc, ntp_secs, ntp_frac, rtp_ts, packet_count, byte_count, reports } => {
            rtcp_header_bytes(
                RTCP_VERSION,
                false,
                reports.len() as u8,
                PT_SR,
                length_words(24 + 24 * reports.len() as int),
            ) + be32(ssrc) + be32(ntp_secs) + be32(ntp_frac) + be32(rtp_ts) + be32(packet_count)
                + be32(byte_count) + report_blocks_bytes(reports)
        },
        RtcpModel::RR { ssrc, reports } => {
            rtcp_header_bytes(
                RTCP_VERSION,
                false,
                reports.len() as u8,
                PT_RR,
                length_words(4 + 24 * reports.len() as int),
            ) + be32(ssrc) + report_blocks_bytes(reports)
        },
        RtcpModel::SDES { chunks } => {
            let body = sdes_chunks_bytes(chunks);
            rtcp_header_bytes(
                RTCP_VERSION,
                false,
                chunks.len() as u8,
                PT_SDES,
                length_words(body.len() as int),
            ) + body
        },
        RtcpModel::BYE { ssrcs, reason } => {
            let payload = bye_payload(ssrcs, reason);
            rtcp_header_bytes(
                RTCP_VERSION,
                false,
                ssrcs.len() as u8,
                PT_BYE,
                length_words(payload.len() as int),
            ) + payload
        },
        RtcpModel::PLI { sender_ssrc, media_ssrc } => {
            rtcp_header_bytes(RTCP_VERSION, false, FMT_PLI, PT_PSFB, 2) + be32(sender_ssrc) + be32(
                media_ssrc,
            )
        },
    }
}

/// The concatenated wire bytes of a compound packet.
pub open spec fn rtcp_compound_bytes(ms: Seq<RtcpModel>) -> Seq<u8>
    decreases ms.len(),
{
    if ms.len() == 0 {
        seq![]
    } else {
        rtcp_compound_bytes(ms.drop_last()) + rtcp_model_bytes(ms.last())
    }
}

/// Size in bytes of the encoding of a packet, computed without building it.
pub open spec fn rtcp_model_len(m: RtcpModel) -> int {
    rtcp_model_bytes(m).len() as int
}

proof fn lemma_report_blocks_len(rbs: Seq<ReportBlock>)
    ensures
        report_blocks_bytes(rbs).len() == 24 * rbs.len(),
    decreases rbs.len(),
{
    if rbs.len() > 0 {
        lemma_report_blocks_len(rbs.drop_last());
    }
}

proof fn lemma_ssrcs_len(ssrcs: Seq<u32>)
    ensures
        ssrcs_bytes(ssrcs).len() == 4 * ssrcs.len(),
    decreases ssrcs.len(),
{
    if ssrcs.len() > 0 {
        lemma_ssrcs_len(ssrcs.drop_last());
    }
}

impl SenderReport {
    /// The mathematical value of this report.
    pub open spec fn model(self) -> RtcpModel {
        RtcpPacket::SR(self).model()
    }

    /// Encodes the report with its header.
    pub fn to_bytes(&self) -> (out: Vec<u8>)
        requires
            rtcp_model_len(self.model()) <= usize::MAX,
        ensures
            out@ == rtcp_model_bytes(self.model()),
    {
        proof {
            lemma_report_blocks_len(self.reports@);
        }
        let rb_len = self.reports.len() * 24;
        let payload_len = 24 + rb_len;
        let lw = ((payload_len + 4) / 4) - 1;
        let hdr = RtcpHeader {
            version: RTCP_VERSION,
            padding: false,
            count: self.reports.len() as u8,
            pt: PT_SR,
            length: lw as u16,
        };
        let mut out = Vec::new();
        let hb = hdr.to_bytes();
        push_all(&mut out, &hb);
        push_be32(&mut out, self.ssrc);
        push_be32(&mut out, self.ntp_secs);
        push_be32(&mut out, self.ntp_frac);
        push_be32(&mut out, self.rtp_ts);
        push_be32(&mut out, self.packet_count);
        push_be32(&mut out, self.byte_count);
        push_report_blocks(&mut out, &self.reports);
        assert(out@ =~= rtcp_model_bytes(self.model()));
        out
    }
}

impl ReceiverReport {
    /// The mathematical value of this report.
    pub open spec fn model(self) -> RtcpModel {
        RtcpPacket::RR(self).model()
    }

    /// Encodes the report with its header.
    pub fn to_bytes(&self) -> (out: Vec<u8>)
        requires
            rtcp_model_len(self.model()) <= usize::MAX,
        ensures
            out@ == rtcp_model_bytes(self.model()),
    {
        proof {
            lemma_report_blocks_len(self.reports@);
        }
        let rb_len = self.reports.len() * 24;
        let payload_len = 4 + rb_len;
        let lw = ((payload_len + 4) / 4) - 1;
        let hdr = RtcpHeader {
            version: RTCP_VERSION,
            padding: false,
            count: self.reports.len() as u8,
            pt: PT_RR,
            length: lw as u16,
        };
        let mut out = Vec::new();
        let hb = hdr.to_bytes();
        push_all(&mut out, &hb);
        push_be32(&mut out, self.ssrc);
        push_report_blocks(&mut out, &self.reports);
        assert(out@ =~= rtcp_model_bytes(self.model()));
        out
    }
}

fn push_zero_padding(v: &mut Vec<u8>)
    ensures
        final(v)@ == old(v)@ + zeros(pad4(old(v)@.len() as int)),
{
    let ghost start = v@;
    while (v.len() % 4) != 0
        invariant
            start.len() <= v@.len() <= start.len() + 3,
            v@ == start + zeros((v@.len() - start.len()) as nat),
            v@.len() - start.len() <= pad4(start.len() as int),
        decreases pad4(start.len() as int) - (v@.len() - start.len()),
    {
        v.push(0);
        assert(v@ =~= start + zeros((v@.len() - start.len()) as nat));
    }
    assert(v@.len() - start.len() == pad4(start.len() as int));
}

impl SdesChunk {
    /// The (ssrc, items) value of this chunk.
    pub open spec fn model(self) -> (u32, Seq<(u8, Seq<char>)>) {
        (self.ssrc, sdes_items_view(self.items@))
    }

    /// Encodes the chunk: SSRC, items, end marker and zero padding to 32 bits.
    pub fn to_bytes(&self) -> (v: Vec<u8>)
        ensures
            v@ == sdes_chunk_bytes(self.model()),
    {
        let mut v = Vec::new();
        push_be32(&mut v, self.ssrc);
        let mut i: usize = 0;
        while i < self.items.len()
            invariant
                i <= self.items@.len(),
                v@ == be32(self.ssrc) + sdes_items_bytes(
                    sdes_items_view(self.items@.subrange(0, i as int)),
                ),
            decreases self.items@.len() - i,
        {
            let it = &self.items[i];
            let tb = it.text.as_str().as_bytes();
            v.push(it.typ);
            v.push(tb.len() as u8);
            push_all(&mut v, tb);
            i += 1;
            assert(sdes_items_view(self.items@.subrange(0, i as int)).drop_last() =~= sdes_items_view(
                self.items@.subrange(0, i - 1),
            ));
        }
        assert(self.items@.subrange(0, self.items@.len() as int) =~= self.items@);
        v.push(SDES_END);
        push_zero_padding(&mut v);
        v
    }
}

fn push_ssrcs(out: &mut Vec<u8>, ssrcs: &Vec<u32>)
    ensures
        final(out)@ == old(out)@ + ssrcs_bytes(ssrcs@),
{
    let mut i: usize = 0;
    while i < ssrcs.len()
        invariant
            i <= ssrcs@.len(),
            out@ == old(out)@ + ssrcs_bytes(ssrcs@.subrange(0, i as int)),
        decreases ssrcs@.len() - i,
    {
        push_be32(out, ssrcs[i]);
        i += 1;
        assert(ssrcs@.subrange(0, i as int).drop_last() =~= ssrcs@.subrange(0, i - 1));
    }
    assert(ssrcs@.subrange(0, ssrcs@.len() as int) =~= ssrcs@);
}

impl Bye {
    /// The mathematical value of this packet.
    pub open spec fn model(self) -> RtcpModel {
        RtcpPacket::BYE(self).model()
    }

    /// Encodes the packet; a reason longer than 255 bytes is cut to its first 255 bytes.
    pub fn to_bytes(&self) -> (out: Vec<u8>)
        requires
            rtcp_model_len(self.model()) <= usize::MAX,
        ensures
            out@ == rtcp_model_bytes(self.model()),
    {
        let mut payload = Vec::new();
        push_ssrcs(&mut payload, &self.ssrcs);
        proof {
            lemma_ssrcs_len(self.ssrcs@);
        }
        match &self.reason {
            Some(reason) => {
                let reason_bytes = reason.as_str().as_bytes();
                let len = if reason_bytes.len() < 255 {
                    reason_bytes.len()
                } else {
                    255
                };
                payload.push(len as u8);
                push_all(&mut payload, &reason_bytes[0..len]);
                push_zero_padding(&mut payload);
            },
            None => {},
        }
        let lw = ((payload.len() + 4) / 4) - 1;
        let hdr = RtcpHeader {
            version: RTCP_VERSION,
            padding: false,
            count: self.ssrcs.len() as u8,
            pt: PT_BYE,
            length: lw as u16,
        };
        let mut out = Vec::new();
        let hb = hdr.to_bytes();
        push_all(&mut out, &hb);
        push_all(&mut out, payload.as_slice());
        assert(out@ =~= rtcp_model_bytes(self.model()));
        out
    }
}

impl PictureLossIndication {
    /// The mathematical value of this packet.
    pub open spec fn model(self) -> RtcpModel {
        RtcpPacket::PLI(self).model()
    }

    /// Encodes the packet (12 bytes).
    pub fn to_bytes(&self) -> (out: Vec<u8>)
        ensures
            out@ == rtcp_model_bytes(self.model()),
    {
        let hdr = RtcpHeader {
            version: RTCP_VERSION,
            padding: false,
            count: FMT_PLI,
            pt: PT_PSFB,
            length: 2,
        };
        let mut out = Vec::new();
        let hb = hdr.to_bytes();
        push_all(&mut out, &hb);
        push_be32(&mut out, self.sender_ssrc);
        push_be32(&mut out, self.media_ssrc);
        assert(out@ =~= rtcp_model_bytes(self.model()));
        out
    }
}


proof fn lemma_compound_prefix_len(ms: Seq<RtcpModel>, j: int, k: int)
    requires
        0 <= j <= k <= ms.len(),
    ensures
        rtcp_compound_bytes(ms.take(j)).len() <= rtcp_compound_bytes(ms.take(k)).len(),
    decreases k - j,
{
    if j < k {
        lemma_compound_prefix_len(ms, j, k - 1);
        assert(ms.take(k).drop_last() =~= ms.take(k - 1));
    }
}

fn sdes_packet_bytes(chunks: &Vec<SdesChunk>) -> (out: Vec<u8>)
    requires
        rtcp_model_len(RtcpModel::SDES { chunks: sdes_chunks_view(chunks@) }) <= usize::MAX,
    ensures
        out@ == rtcp_model_bytes(RtcpModel::SDES { chunks: sdes_chunks_view(chunks@) }),
{
    let mut body = Vec::new();
    let mut i: usize = 0;
    while i < chunks.len()
        invariant
            i <= chunks@.len(),
            body@ == sdes_chunks_bytes(sdes_chunks_view(chunks@.subrange(0, i as int))),
        decreases chunks@.len() - i,
    {
        let cb = chunks[i].to_bytes();
        push_all(&mut body, cb.as_slice());
        i += 1;
        assert(sdes_chunks_view(chunks@.subrange(0, i as int)).drop_last() =~= sdes_chunks_view(
            chunks@.subrange(0, i - 1),
        ));
    }
    assert(chunks@.subrange(0, chunks@.len() as int) =~= chunks@);
    let lw = ((body.len() + 4) / 4) - 1;
    let hdr = RtcpHeader {
        version: RTCP_VERSION,
        padding: false,
        count: chunks.len() as u8,
        pt: PT_SDES,
        length: lw as u16,
    };
    let mut out = Vec::new();
    let hb = hdr.to_bytes();
    push_all(&mut out, &hb);
    push_all(&mut out, body.as_slice());
    out
}

/// Encodes a compound RTCP packet: the encodings of the packets, one after the other.
pub fn encode_compound(packets: &[RtcpPacket]) -> (out: Vec<u8>)
    requires
        rtcp_compound_bytes(rtcp_models(packets@)).len() <= usize::MAX,
    ensures
        out@ == rtcp_compound_bytes(rtcp_models(packets@)),
{
    let ghost ms = rtcp_models(packets@);
    let mut out = Vec::new();
    let mut i: usize = 0;
    while i < packets.len()
        invariant
            i <= packets@.len(),
            ms == rtcp_models(packets@),
            rtcp_compound_bytes(ms).len() <= usize::MAX,
            out@ == rtcp_compound_bytes(ms.take(i as int)),
        decreases packets@.len() - i,
    {
        proof {
            lemma_compound_prefix_len(ms, i + 1, ms.len() as int);
            assert(ms.take(i + 1).drop_last() =~= ms.take(i as int));
            assert(ms.take(ms.len() as int) =~= ms);
            assert(ms[i as int] == packets@[i as int].model());
        }
        match &packets[i] {
            RtcpPacket::SR(sr) => {
                let b = sr.to_bytes();
                push_all(&mut out, b.as_slice());
            },
            RtcpPacket::RR(rr) => {
                let b = rr.to_bytes();
                push_all(&mut out, b.as_slice());
            },
            RtcpPacket::SDES(chunks) => {
                let b = sdes_packet_bytes(chunks);
                push_all(&mut out, b.as_slice());
            },
            RtcpPacket::BYE(bye) => {
                let b = bye.to_bytes();
                push_all(&mut out, b.as_slice());
            },
            RtcpPacket::PLI(pli) => {
                let b = pli.to_bytes();
                push_all(&mut out, b.as_slice());
            },
        }
        i += 1;
    }
    assert(ms.take(packets@.len() as int) =~= ms);
    out
}

/// Whether `s` starts like an RTCP packet: at least 4 bytes, version 2, payload type 200..=207.
pub open spec fn looks_like_rtcp(s: Seq<u8>) -> bool {
    s.len() >= 4 && s[0] >> 6u8 == RTCP_VERSION && 200 <= s[1] <= 207
}

/// Tells whether `buf` starts like an RTCP packet.
pub fn is_rtcp(buf: &[u8]) -> (r: bool)
    ensures
        r == looks_like_rtcp(buf@),
{
    if buf.len() < 4 {
        return false;
    }
    let v = buf[0] >> 6u8;
    if v != RTCP_VERSION {
        return false;
    }
    let pt = buf[1];
    pt == PT_SR || pt == PT_RR || pt == PT_SDES || pt == PT_BYE || pt == 204 || pt == 205 || pt
        == 206 || pt == 207
}

/// Up to `k` SSRCs read from `b` starting at `o`, stopping at the first that does not fit.
pub open spec fn ssrcs_at(b: Seq<u8>, o: int, k: nat) -> Seq<u32>
    decreases k,
{
    if k == 0 || o + 4 > b.len() {
        seq![]
    } else {
        seq![get_be32(b, o)] + ssrcs_at(b, o + 4, (k - 1) as nat)
    }
}

/// The reason of a BYE whose reason field, if any, starts at `o`.
pub open spec fn bye_reason_at(b: Seq<u8>, o: int) -> Option<Seq<char>> {
    if o < b.len() {
        let l = b[o] as int;
        if o + 1 + l <= b.len() {
            Some(lossy_text(b.subrange(o + 1, o + 1 + l)))
        } else {
            None
        }
    } else {
        None
    }
}

/// The packet that a body of type `pt` with count field `count` decodes to, if any
/// (SDES bodies are recognized but their chunks are not read).
pub open spec fn rtcp_body_model(count: u8, pt: u8, b: Seq<u8>) -> Option<RtcpModel> {
    if pt == PT_SR {
        if b.len() >= 24 {
            Some(
                RtcpModel::SR {
                    ssrc: get_be32(b, 0),
                    ntp_secs: get_be32(b, 4),
                    ntp_frac: get_be32(b, 8),
                    rtp_ts: get_be32(b, 12),
                    packet_count: get_be32(b, 16),
                    byte_count: get_be32(b, 20),
                    reports: report_blocks_at(b, 24, count as nat),
                },
            )
        } else {
            None
        }
    } else if pt == PT_RR {
        if b.len() >= 4 {
            Some(RtcpModel::RR { ssrc: get_be32(b, 0), reports: report_blocks_at(b, 4, count as nat) })
        } else {
            None
        }
    } else if pt == PT_SDES {
        Some(RtcpModel::SDES { chunks: seq![] })
    } else if pt == PT_BYE {
        let ssrcs = ssrcs_at(b, 0, count as nat);
        Some(RtcpModel::BYE { ssrcs, reason: bye_reason_at(b, 4 * ssrcs.len() as int) })
    } else if pt == PT_PSFB {
        if count == FMT_PLI && b.len() >= 8 {
            Some(RtcpModel::PLI { sender_ssrc: get_be32(b, 0), media_ssrc: get_be32(b, 4) })
        } else {
            None
        }
    } else {
        None
    }
}

/// The packets decoded from `s` starting at offset `off`: packet after packet, skipping those
/// whose body is not understood, and stopping at the first header that does not decode.
pub open spec fn rtcp_decode_from(s: Seq<u8>, off: int) -> Seq<RtcpModel>
    decreases s.len() - off,
{
    if off < 0 || off + 4 > s.len() {
        seq![]
    } else {
        let rest = s.subrange(off, s.len() as int);
        if !rtcp_header_ok(rest) {
            seq![]
        } else {
            let n = rtcp_packet_size(get_be16(rest, 2));
            let here = rtcp_body_model(rest[0] & 0x1Fu8, rest[1], s.subrange(off + 4, off + n));
            let tail = rtcp_decode_from(s, off + n);
            match here {
                Some(m) => seq![m] + tail,
                None => tail,
            }
        }
    }
}

/// The model of an optional packet.
pub open spec fn opt_rtcp_model(p: Option<RtcpPacket>) -> Option<RtcpModel> {
    match p {
        Some(p) => Some(p.model()),
        None => None,
    }
}

fn read_report_blocks(b: &[u8], start: usize, count: u8) -> (v: Vec<ReportBlock>)
    requires
        start <= b@.len(),
    ensures
        v@ == report_blocks_at(b@, start as int, count as nat),
{
    let mut v = Vec::new();
    let mut o = start;
    let mut i: u8 = 0;
    while i < count && b.len() - o >= 24
        invariant
            i <= count,
            start <= o <= b@.len(),
            v@ + report_blocks_at(b@, o as int, (count - i) as nat) == report_blocks_at(
                b@,
                start as int,
                count as nat,
            ),
        decreases count - i,
    {
        let rb = ReportBlock {
            ssrc: read_be32(b, o),
            fraction_lost: b[o + 4],
            cumulative_lost: ((b[o + 5] as u32) << 16u32) | ((b[o + 6] as u32) << 8u32) | (b[o
                + 7] as u32),
            ext_highest_seq: read_be32(b, o + 8),
            jitter: read_be32(b, o + 12),
            lsr: read_be32(b, o + 16),
            dlsr: read_be32(b, o + 20),
        };
        proof {
            assert(report_blocks_at(b@, o as int, (count - i) as nat) == seq![
                report_block_at(b@, o as int),
            ] + report_blocks_at(b@, o + 24, (count - i - 1) as nat));
        }
        v.push(rb);
        o += 24;
        i += 1;
        assert(v@ + report_blocks_at(b@, o as int, (count - i) as nat) =~= report_blocks_at(
            b@,
            start as int,
            count as nat,
        ));
    }
    assert(report_blocks_at(b@, o as int, (count - i) as nat) =~= Seq::<ReportBlock>::empty());
    assert(v@ =~= report_blocks_at(b@, start as int, count as nat));
    v
}

fn read_ssrcs(b: &[u8], count: u8) -> (v: Vec<u32>)
    ensures
        v@ == ssrcs_at(b@, 0, count as nat),
        4 * v@.len() <= b@.len(),
{
    let mut v = Vec::new();
    let mut o: usize = 0;
    let mut i: u8 = 0;
    while i < count && b.len() - o >= 4
        invariant
            i <= count,
            o <= b@.len(),
            o == 4 * v@.len(),
            v@ + ssrcs_at(b@, o as int, (count - i) as nat) == ssrcs_at(b@, 0, count as nat),
        decreases count - i,
    {
        let x = read_be32(b, o);
        proof {
            assert(ssrcs_at(b@, o as int, (count - i) as nat) == seq![get_be32(b@, o as int)]
                + ssrcs_at(b@, o + 4, (count - i - 1) as nat));
        }
        v.push(x);
        o += 4;
        i += 1;
        assert(v@ + ssrcs_at(b@, o as int, (count - i) as nat) =~= ssrcs_at(b@, 0, count as nat));
    }
    assert(ssrcs_at(b@, o as int, (count - i) as nat) =~= Seq::<u32>::empty());
    assert(v@ =~= ssrcs_at(b@, 0, count as nat));
    v
}

fn decode_body(count: u8, pt: u8, body: &[u8]) -> (r: Option<RtcpPacket>)
    ensures
        opt_rtcp_model(r) == rtcp_body_model(count, pt, body@),
{
    let n = body.len();
    if pt == PT_SR {
        if n >= 24 {
            let reports = read_report_blocks(body, 24, count);
            let sr = SenderReport {
                ssrc: read_be32(body, 0),
                ntp_secs: read_be32(body, 4),
                ntp_frac: read_be32(body, 8),
                rtp_ts: read_be32(body, 12),
                packet_count: read_be32(body, 16),
                byte_count: read_be32(body, 20),
                reports,
            };
            let r = Some(RtcpPacket::SR(sr));
            assert(opt_rtcp_model(r) == rtcp_body_model(count, pt, body@));
            r
        } else {
            None
        }
    } else if pt == PT_RR {
        if n >= 4 {
            let reports = read_report_blocks(body, 4, count);
            let r = Some(RtcpPacket::RR(ReceiverReport { ssrc: read_be32(body, 0), reports }));
            assert(opt_rtcp_model(r) == rtcp_body_model(count, pt, body@));
            r
        } else {
            None
        }
    } else if pt == PT_SDES {
        let r = Some(RtcpPacket::SDES(Vec::new()));
        assert(sdes_chunks_view(Seq::<SdesChunk>::empty()) =~= Seq::empty());
        assert(opt_rtcp_model(r) == rtcp_body_model(count, pt, body@));
        r
    } else if pt == PT_BYE {
        let ssrcs = read_ssrcs(body, count);
        let o = 4 * ssrcs.len();
        let reason = if o < n {
            let len = body[o] as usize;
            if len <= n - o - 1 {
                Some(string_from_utf8_lossy(&body[o + 1..o + 1 + len]))
            } else {
                None
            }
        } else {
            None
        };
        let r = Some(RtcpPacket::BYE(Bye { ssrcs, reason }));
        assert(opt_rtcp_model(r) == rtcp_body_model(count, pt, body@));
        r
    } else if pt == PT_PSFB {
        if count == FMT_PLI && n >= 8 {
            let r = Some(
                RtcpPacket::PLI(
                    PictureLossIndication {
                        sender_ssrc: read_be32(body, 0),
                        media_ssrc: read_be32(body, 4),
                    },
                ),
            );
            assert(opt_rtcp_model(r) == rtcp_body_model(count, pt, body@));
            r
        } else {
            None
        }
    } else {
        None
    }
}

/// Decodes a compound RTCP packet: packet after packet until a header fails to decode;
/// packets of unknown type or with a too-short body are skipped.
pub fn decode_compound(buf: &[u8]) -> (out: Vec<RtcpPacket>)
    ensures
        rtcp_models(out@) == rtcp_decode_from(buf@, 0),
{
    let mut out: Vec<RtcpPacket> = Vec::new();
    let mut off: usize = 0;
    while buf.len() - off >= 4
        invariant
            off <= buf@.len(),
            rtcp_models(out@) + rtcp_decode_from(buf@, off as int) == rtcp_decode_from(buf@, 0),
        ensures
            rtcp_models(out@) =~= rtcp_decode_from(buf@, 0),
        decreases buf@.len() - off,
    {
        let rest = &buf[off..buf.len()];
        match RtcpHeader::from_bytes(rest) {
            Some((hdr, bytes)) => {
                assert(rest@ == buf@.subrange(off as int, buf@.len() as int));
                let body = &buf[off + 4..off + bytes];
                let p = decode_body(hdr.count, hdr.pt, body);
                let ghost old_out = out@;
                match p {
                    Some(p) => {
                        out.push(p);
                        assert(rtcp_models(out@) =~= rtcp_models(old_out) + seq![
                            out@.last().model(),
                        ]);
                    },
                    None => {},
                }
                off += bytes;
                assert(rtcp_models(out@) + rtcp_decode_from(buf@, off as int) =~= rtcp_decode_from(
                    buf@,
                    0,
                ));
            },
            None => {
                assert(rest@ == buf@.subrange(off as int, buf@.len() as int));
                assert(rtcp_decode_from(buf@, off as int) =~= Seq::<RtcpModel>::empty());
                break;
            },
        }
    }
    out
}


/// A report block as it comes back from the wire: only 24 bits of `cumulative_lost` travel.
pub open spec fn report_block_on_wire(rb: ReportBlock) -> ReportBlock {
    ReportBlock { cumulative_lost: rb.cumulative_lost & 0x00FF_FFFFu32, ..rb }
}

/// Report blocks as they come back from the wire.
pub open spec fn report_blocks_on_wire(rbs: Seq<ReportBlock>) -> Seq<ReportBlock> {
    rbs.map_values(|rb: ReportBlock| report_block_on_wire(rb))
}

/// Whether a packet survives encoding and decoding (up to what the wire drops): at most 31
/// report blocks or SSRCs (the 5-bit count field), a BYE reason of at most 255 bytes, and an
/// SDES packet short enough for its 16-bit length field (its chunks are not read back, so
/// their count may wrap).
pub open spec fn rtcp_roundtrips(m: RtcpModel) -> bool {
    match m {
        RtcpModel::SR { reports, .. } => reports.len() < 32,
        RtcpModel::RR { reports, .. } => reports.len() < 32,
        RtcpModel::SDES { chunks } => sdes_chunks_bytes(chunks).len() + 4 <= 0x4_0000,
        RtcpModel::BYE { ssrcs, reason } => ssrcs.len() < 32 && match reason {
            Some(r) => encode_utf8(r).len() <= 255,
            None => true,
        },
        RtcpModel::PLI { .. } => true,
    }
}

/// What decoding gives back for an encoded packet: the cumulative loss of report blocks keeps
/// its low 24 bits, and SDES chunks are not read.
pub open spec fn rtcp_on_wire(m: RtcpModel) -> RtcpModel {
    match m {
        RtcpModel::SR { ssrc, ntp_secs, ntp_frac, rtp_ts, packet_count, byte_count, reports } => {
            RtcpModel::SR {
                ssrc,
                ntp_secs,
                ntp_frac,
                rtp_ts,
                packet_count,
                byte_count,
                reports: report_blocks_on_wire(reports),
            }
        },
        RtcpModel::RR { ssrc, reports } => RtcpModel::RR {
            ssrc,
            reports: report_blocks_on_wire(reports),
        },
        RtcpModel::SDES { .. } => RtcpModel::SDES { chunks: seq![] },
        _ => m,
    }
}

proof fn lemma_report_blocks_front(rbs: Seq<ReportBlock>)
    requires
        rbs.len() > 0,
    ensures
        report_blocks_bytes(rbs) == report_block_bytes(rbs[0]) + report_blocks_bytes(
            rbs.drop_first(),
        ),
    decreases rbs.len(),
{
    if rbs.len() > 1 {
        lemma_report_blocks_front(rbs.drop_last());
        assert(rbs.drop_last().drop_first() =~= rbs.drop_first().drop_last());
        assert(rbs.drop_first().last() == rbs.last());
        assert(rbs.drop_last()[0] == rbs[0]);
    } else {
        assert(rbs.drop_last() =~= Seq::<ReportBlock>::empty());
        assert(rbs.drop_first() =~= Seq::<ReportBlock>::empty());
    }
}

proof fn lemma_report_block_at(rb: ReportBlock, s: Seq<u8>, o: int)
    requires
        0 <= o,
        o + 24 <= s.len(),
        s.subrange(o, o + 24) == report_block_bytes(rb),
    ensures
        report_block_at(s, o) == report_block_on_wire(rb),
{
    let t = s.subrange(o, o + 24);
    assert(s.subrange(o, o + 4) =~= t.subrange(0, 4));
    assert(s.subrange(o + 8, o + 12) =~= t.subrange(8, 12));
    assert(s.subrange(o + 12, o + 16) =~= t.subrange(12, 16));
    assert(s.subrange(o + 16, o + 20) =~= t.subrange(16, 20));
    assert(s.subrange(o + 20, o + 24) =~= t.subrange(20, 24));
    assert(t.subrange(0, 4) =~= be32(rb.ssrc));
    assert(t.subrange(8, 12) =~= be32(rb.ext_highest_seq));
    assert(t.subrange(12, 16) =~= be32(rb.jitter));
    assert(t.subrange(16, 20) =~= be32(rb.lsr));
    assert(t.subrange(20, 24) =~= be32(rb.dlsr));
    lemma_be32_roundtrip(rb.ssrc, s, o);
    lemma_be32_roundtrip(rb.ext_highest_seq, s, o + 8);
    lemma_be32_roundtrip(rb.jitter, s, o + 12);
    lemma_be32_roundtrip(rb.lsr, s, o + 16);
    lemma_be32_roundtrip(rb.dlsr, s, o + 20);
    let c = rb.cumulative_lost;
    let cum = c & 0x00FF_FFFFu32;
    assert(s[o + 4] == t[4] && s[o + 5] == t[5] && s[o + 6] == t[6] && s[o + 7] == t[7]);
    let b5 = s[o + 5];
    let b6 = s[o + 6];
    let b7 = s[o + 7];
    assert(b5 == ((cum >> 16u32) & 0xFFu32) as u8 && b6 == ((cum >> 8u32) & 0xFFu32) as u8 && b7
        == (cum & 0xFFu32) as u8 && cum == c & 0x00FF_FFFFu32 ==> ((b5 as u32) << 16u32) | ((
    b6 as u32) << 8u32) | (b7 as u32) == c & 0x00FF_FFFFu32) by (bit_vector);
}

proof fn lemma_report_blocks_at(rbs: Seq<ReportBlock>, s: Seq<u8>, o: int)
    requires
        0 <= o,
        o + 24 * rbs.len() <= s.len(),
        s.subrange(o, o + 24 * rbs.len()) == report_blocks_bytes(rbs),
    ensures
        report_blocks_at(s, o, rbs.len()) == report_blocks_on_wire(rbs),
    decreases rbs.len(),
{
    if rbs.len() > 0 {
        lemma_report_blocks_front(rbs);
        lemma_report_blocks_len(rbs.drop_first());
        let t = s.subrange(o, o + 24 * rbs.len());
        assert(s.subrange(o, o + 24) =~= t.subrange(0, 24));
        assert(t.subrange(0, 24) =~= report_block_bytes(rbs[0]));
        lemma_report_block_at(rbs[0], s, o);
        assert(s.subrange(o + 24, o + 24 + 24 * rbs.drop_first().len()) =~= t.subrange(
            24,
            24 * rbs.len() as int,
        ));
        assert(t.subrange(24, 24 * rbs.len() as int) =~= report_blocks_bytes(rbs.drop_first()));
        lemma_report_blocks_at(rbs.drop_first(), s, o + 24);
        assert(report_blocks_on_wire(rbs) =~= seq![report_block_on_wire(rbs[0])]
            + report_blocks_on_wire(rbs.drop_first()));
    } else {
        assert(report_blocks_on_wire(rbs) =~= Seq::<ReportBlock>::empty());
    }
}

proof fn lemma_header_fields(count: u8, pt: u8, length: u16, s: Seq<u8>)
    requires
        count < 32,
        s.len() >= 4,
        s.subrange(0, 4) == rtcp_header_bytes(RTCP_VERSION, false, count, pt, length),
    ensures
        s[0] >> 6u8 == RTCP_VERSION,
        s[0] & 0x1Fu8 == count,
        s[1] == pt,
        get_be16(s, 2) == length,
{
    let t = s.subrange(0, 4);
    assert(s[0] == t[0] && s[1] == t[1]);
    assert(s.subrange(2, 4) =~= t.subrange(2, 4));
    assert(t.subrange(2, 4) =~= be16(length));
    lemma_be16_roundtrip(length, s, 2);
    let b0 = s[0];
    assert(count < 32 && b0 == ((2u8 << 6u8) | (0u8 << 5u8) | (count & 0x1Fu8)) as u8 ==> b0
        >> 6u8 == 2 && b0 & 0x1Fu8 == count) by (bit_vector);
}

proof fn lemma_decode_shift(p: Seq<u8>, s: Seq<u8>, off: int)
    requires
        0 <= off,
    ensures
        rtcp_decode_from(p + s, p.len() + off) == rtcp_decode_from(s, off),
    decreases s.len() - off,
{
    let ps = p + s;
    let o2 = p.len() + off;
    if off + 4 <= s.len() {
        assert(ps.subrange(o2, ps.len() as int) =~= s.subrange(off, s.len() as int));
        let rest = s.subrange(off, s.len() as int);
        if rtcp_header_ok(rest) {
            let n = rtcp_packet_size(get_be16(rest, 2));
            assert(ps.subrange(o2 + 4, o2 + n) =~= s.subrange(off + 4, off + n));
            lemma_decode_shift(p, s, off + n);
        }
    }
}

proof fn lemma_decode_first(s: Seq<u8>, n: int, count: u8, pt: u8, m: Option<RtcpModel>)
    requires
        4 <= n <= s.len(),
        s[0] >> 6u8 == RTCP_VERSION,
        rtcp_packet_size(get_be16(s, 2)) == n,
        s[0] & 0x1Fu8 == count,
        s[1] == pt,
        rtcp_body_model(count, pt, s.subrange(4, n)) == m,
    ensures
        rtcp_decode_from(s, 0) == match m {
            Some(x) => seq![x] + rtcp_decode_from(s, n),
            None => rtcp_decode_from(s, n),
        },
{
    assert(s.subrange(0, s.len() as int) =~= s);
}

proof fn lemma_sr_roundtrip(
    ssrc: u32,
    ntp_secs: u32,
    ntp_frac: u32,
    rtp_ts: u32,
    packet_count: u32,
    byte_count: u32,
    reports: Seq<ReportBlock>,
    rest: Seq<u8>,
)
    requires
        reports.len() < 32,
    ensures
        ({
            let m = RtcpModel::SR {
                ssrc,
                ntp_secs,
                ntp_frac,
                rtp_ts,
                packet_count,
                byte_count,
                reports,
            };
            rtcp_decode_from(rtcp_model_bytes(m) + rest, 0) == seq![rtcp_on_wire(m)]
                + rtcp_decode_from(rest, 0)
        }),
{
    let m = RtcpModel::SR { ssrc, ntp_secs, ntp_frac, rtp_ts, packet_count, byte_count, reports };
    let b = rtcp_model_bytes(m);
    let s = b + rest;
    let n = reports.len() as int;
    lemma_report_blocks_len(reports);
    let lw = length_words(24 + 24 * n);
    assert(lw == 6 * n + 6);
    assert(s.subrange(0, 4) =~= rtcp_header_bytes(RTCP_VERSION, false, n as u8, PT_SR, lw));
    lemma_header_fields(n as u8, PT_SR, lw, s);
    let body = s.subrange(4, 28 + 24 * n);
    assert(body.subrange(0, 4) =~= be32(ssrc));
    assert(body.subrange(4, 8) =~= be32(ntp_secs));
    assert(body.subrange(8, 12) =~= be32(ntp_frac));
    assert(body.subrange(12, 16) =~= be32(rtp_ts));
    assert(body.subrange(16, 20) =~= be32(packet_count));
    assert(body.subrange(20, 24) =~= be32(byte_count));
    lemma_be32_roundtrip(ssrc, body, 0);
    lemma_be32_roundtrip(ntp_secs, body, 4);
    lemma_be32_roundtrip(ntp_frac, body, 8);
    lemma_be32_roundtrip(rtp_ts, body, 12);
    lemma_be32_roundtrip(packet_count, body, 16);
    lemma_be32_roundtrip(byte_count, body, 20);
    assert(body.subrange(24, 24 + 24 * n) =~= report_blocks_bytes(reports));
    lemma_report_blocks_at(reports, body, 24);
    assert(rtcp_body_model(n as u8, PT_SR, body) == Some(rtcp_on_wire(m)));
    lemma_decode_first(s, 28 + 24 * n, n as u8, PT_SR, Some(rtcp_on_wire(m)));
    lemma_decode_shift(b, rest, 0);
}

proof fn lemma_rr_roundtrip(ssrc: u32, reports: Seq<ReportBlock>, rest: Seq<u8>)
    requires
        reports.len() < 32,
    ensures
        ({
            let m = RtcpModel::RR { ssrc, reports };
            rtcp_decode_from(rtcp_model_bytes(m) + rest, 0) == seq![rtcp_on_wire(m)]
                + rtcp_decode_from(rest, 0)
        }),
{
    let m = RtcpModel::RR { ssrc, reports };
    let b = rtcp_model_bytes(m);
    let s = b + rest;
    let n = reports.len() as int;
    lemma_report_blocks_len(reports);
    let lw = length_words(4 + 24 * n);
    assert(lw == 6 * n + 1);
    assert(s.subrange(0, 4) =~= rtcp_header_bytes(RTCP_VERSION, false, n as u8, PT_RR, lw));
    lemma_header_fields(n as u8, PT_RR, lw, s);
    let body = s.subrange(4, 8 + 24 * n);
    assert(body.subrange(0, 4) =~= be32(ssrc));
    lemma_be32_roundtrip(ssrc, body, 0);
    assert(body.subrange(4, 4 + 24 * n) =~= report_blocks_bytes(reports));
    lemma_report_blocks_at(reports, body, 4);
    assert(rtcp_body_model(n as u8, PT_RR, body) == Some(rtcp_on_wire(m)));
    lemma_decode_first(s, 8 + 24 * n, n as u8, PT_RR, Some(rtcp_on_wire(m)));
    lemma_decode_shift(b, rest, 0);
}

proof fn lemma_pli_roundtrip(sender_ssrc: u32, media_ssrc: u32, rest: Seq<u8>)
    ensures
        ({
            let m = RtcpModel::PLI { sender_ssrc, media_ssrc };
            rtcp_decode_from(rtcp_model_bytes(m) + rest, 0) == seq![rtcp_on_wire(m)]
                + rtcp_decode_from(rest, 0)
        }),
{
    let m = RtcpModel::PLI { sender_ssrc, media_ssrc };
    let b = rtcp_model_bytes(m);
    let s = b + rest;
    assert(s.subrange(0, 4) =~= rtcp_header_bytes(RTCP_VERSION, false, FMT_PLI, PT_PSFB, 2));
    lemma_header_fields(FMT_PLI, PT_PSFB, 2, s);
    let body = s.subrange(4, 12);
    assert(body.subrange(0, 4) =~= be32(sender_ssrc));
    assert(body.subrange(4, 8) =~= be32(media_ssrc));
    lemma_be32_roundtrip(sender_ssrc, body, 0);
    lemma_be32_roundtrip(media_ssrc, body, 4);
    assert(rtcp_body_model(FMT_PLI, PT_PSFB, body) == Some(rtcp_on_wire(m)));
    lemma_decode_first(s, 12, FMT_PLI, PT_PSFB, Some(rtcp_on_wire(m)));
    lemma_decode_shift(b, rest, 0);
}

proof fn lemma_pad4(l: int)
    requires
        l >= 0,
    ensures
        (l + pad4(l)) % 4 == 0,
        pad4(l) <= 3,
{
}

proof fn lemma_sdes_chunks_len(chunks: Seq<(u32, Seq<(u8, Seq<char>)>)>)
    ensures
        sdes_chunks_bytes(chunks).len() % 4 == 0,
    decreases chunks.len(),
{
    if chunks.len() > 0 {
        lemma_sdes_chunks_len(chunks.drop_last());
        let c = chunks.last();
        let unpadded = be32(c.0) + sdes_items_bytes(c.1) + seq![SDES_END];
        lemma_pad4(unpadded.len() as int);
    }
}

#[verifier::spinoff_prover]
#[verifier::rlimit(40)]
proof fn lemma_sdes_roundtrip(chunks: Seq<(u32, Seq<(u8, Seq<char>)>)>, rest: Seq<u8>)
    requires
        rtcp_roundtrips(RtcpModel::SDES { chunks }),
    ensures
        ({
            let m = RtcpModel::SDES { chunks };
            rtcp_decode_from(rtcp_model_bytes(m) + rest, 0) == seq![rtcp_on_wire(m)]
                + rtcp_decode_from(rest, 0)
        }),
{
    let m = RtcpModel::SDES { chunks };
    let b = rtcp_model_bytes(m);
    let s = b + rest;
    let body = sdes_chunks_bytes(chunks);
    lemma_sdes_chunks_len(chunks);
    let l = body.len() as int;
    let lw = length_words(l);
    assert(lw == l / 4);
    let c = chunks.len() as u8;
    let n = c & 0x1Fu8;
    assert(n < 32 && n & 0x1Fu8 == n) by (bit_vector)
        requires
            n == c & 0x1Fu8,
    ;
    assert(rtcp_header_bytes(RTCP_VERSION, false, c, PT_SDES, lw) == rtcp_header_bytes(
        RTCP_VERSION,
        false,
        n,
        PT_SDES,
        lw,
    ));
    assert(s.subrange(0, 4) =~= rtcp_header_bytes(RTCP_VERSION, false, n, PT_SDES, lw));
    lemma_header_fields(n, PT_SDES, lw, s);
    assert(rtcp_body_model(n, PT_SDES, s.subrange(4, 4 + l)) == Some(rtcp_on_wire(m)));
    lemma_decode_first(s, 4 + l, n, PT_SDES, Some(rtcp_on_wire(m)));
    lemma_decode_shift(b, rest, 0);
}

proof fn lemma_ssrcs_front(ssrcs: Seq<u32>)
    requires
        ssrcs.len() > 0,
    ensures
        ssrcs_bytes(ssrcs) == be32(ssrcs[0]) + ssrcs_bytes(ssrcs.drop_first()),
    decreases ssrcs.len(),
{
    if ssrcs.len() > 1 {
        lemma_ssrcs_front(ssrcs.drop_last());
        assert(ssrcs.drop_last().drop_first() =~= ssrcs.drop_first().drop_last());
        assert(ssrcs.drop_first().last() == ssrcs.last());
        assert(ssrcs.drop_last()[0] == ssrcs[0]);
    } else {
        assert(ssrcs.drop_last() =~= Seq::<u32>::empty());
        assert(ssrcs.drop_first() =~= Seq::<u32>::empty());
    }
}

proof fn lemma_ssrcs_at(ssrcs: Seq<u32>, s: Seq<u8>, o: int, k: nat)
    requires
        0 <= o,
        ssrcs.len() == k,
        o + 4 * k <= s.len(),
        s.subrange(o, o + 4 * k) == ssrcs_bytes(ssrcs),
    ensures
        ssrcs_at(s, o, k) == ssrcs,
    decreases k,
{
    if k > 0 {
        lemma_ssrcs_front(ssrcs);
        lemma_ssrcs_len(ssrcs.drop_first());
        let t = s.subrange(o, o + 4 * k);
        assert(s.subrange(o, o + 4) =~= t.subrange(0, 4));
        assert(t.subrange(0, 4) =~= be32(ssrcs[0]));
        lemma_be32_roundtrip(ssrcs[0], s, o);
        assert(s.subrange(o + 4, o + 4 + 4 * (k - 1)) =~= t.subrange(4, 4 * k as int));
        assert(t.subrange(4, 4 * k as int) =~= ssrcs_bytes(ssrcs.drop_first()));
        lemma_ssrcs_at(ssrcs.drop_first(), s, o + 4, (k - 1) as nat);
        assert(ssrcs =~= seq![ssrcs[0]] + ssrcs.drop_first());
    } else {
        assert(ssrcs =~= Seq::<u32>::empty());
    }
}

#[verifier::spinoff_prover]
#[verifier::rlimit(40)]
proof fn lemma_bye_roundtrip(ssrcs: Seq<u32>, reason: Option<Seq<char>>, rest: Seq<u8>)
    requires
        rtcp_roundtrips(RtcpModel::BYE { ssrcs, reason }),
    ensures
        ({
            let m = RtcpModel::BYE { ssrcs, reason };
            rtcp_decode_from(rtcp_model_bytes(m) + rest, 0) == seq![rtcp_on_wire(m)]
                + rtcp_decode_from(rest, 0)
        }),
{
    let m = RtcpModel::BYE { ssrcs, reason };
    let b = rtcp_model_bytes(m);
    let s = b + rest;
    let payload = bye_payload(ssrcs, reason);
    let k = ssrcs.len() as int;
    lemma_ssrcs_len(ssrcs);
    let sb = ssrcs_bytes(ssrcs);
    match reason {
        None => {},
        Some(r) => {
            let rb = encode_utf8(r);
            let unpadded = sb + seq![rb.len() as u8] + rb.subrange(0, rb.len() as int);
            lemma_pad4(unpadded.len() as int);
        },
    }
    let l = payload.len() as int;
    assert(l % 4 == 0);
    let lw = length_words(l);
    assert(lw == l / 4);
    let n = ssrcs.len() as u8;
    assert(s.subrange(0, 4) =~= rtcp_header_bytes(RTCP_VERSION, false, n, PT_BYE, lw));
    lemma_header_fields(n, PT_BYE, lw, s);
    let body = s.subrange(4, 4 + l);
    assert(body.subrange(0, 4 * k) =~= sb);
    lemma_ssrcs_at(ssrcs, body, 0, ssrcs.len());
    match reason {
        None => {
            assert(bye_reason_at(body, 4 * k) == reason);
        },
        Some(r) => {
            let rb = encode_utf8(r);
            encode_utf8_valid_utf8(r);
            encode_utf8_decode_utf8(r);
            assert(body[4 * k] == rb.len() as u8);
            assert(body.subrange(4 * k + 1, 4 * k + 1 + rb.len() as int) =~= rb);
            assert(bye_reason_at(body, 4 * k) == reason);
        },
    }
    assert(rtcp_body_model(n, PT_BYE, body) == Some(rtcp_on_wire(m)));
    lemma_decode_first(s, 4 + l, n, PT_BYE, Some(rtcp_on_wire(m)));
    lemma_decode_shift(b, rest, 0);
}

/// Decoding a packet's encoding followed by more bytes gives the packet back (as it comes off
/// the wire) followed by what those bytes decode to.
pub proof fn lemma_rtcp_packet_roundtrip(m: RtcpModel, rest: Seq<u8>)
    requires
        rtcp_roundtrips(m),
    ensures
        rtcp_decode_from(rtcp_model_bytes(m) + rest, 0) == seq![rtcp_on_wire(m)] + rtcp_decode_from(
            rest,
            0,
        ),
{
    match m {
        RtcpModel::SR { ssrc, ntp_secs, ntp_frac, rtp_ts, packet_count, byte_count, reports } => {
            lemma_sr_roundtrip(
                ssrc,
                ntp_secs,
                ntp_frac,
                rtp_ts,
                packet_count,
                byte_count,
                reports,
                rest,
            )
        },
        RtcpModel::RR { ssrc, reports } => lemma_rr_roundtrip(ssrc, reports, rest),
        RtcpModel::PLI { sender_ssrc, media_ssrc } => lemma_pli_roundtrip(
            sender_ssrc,
            media_ssrc,
            rest,
        ),
        RtcpModel::SDES { chunks } => lemma_sdes_roundtrip(chunks, rest),
        RtcpModel::BYE { ssrcs, reason } => lemma_bye_roundtrip(ssrcs, reason, rest),
    }
}


proof fn lemma_compound_front(ms: Seq<RtcpModel>)
    requires
        ms.len() > 0,
    ensures
        rtcp_compound_bytes(ms) == rtcp_model_bytes(ms[0]) + rtcp_compound_bytes(ms.drop_first()),
    decreases ms.len(),
{
    if ms.len() > 1 {
        lemma_compound_front(ms.drop_last());
        assert(ms.drop_last().drop_first() =~= ms.drop_first().drop_last());
        assert(ms.drop_first().last() == ms.last());
        assert(ms.drop_last()[0] == ms[0]);
    } else {
        assert(ms.drop_last() =~= Seq::<RtcpModel>::empty());
        assert(ms.drop_first() =~= Seq::<RtcpModel>::empty());
    }
}

/// Decoding an encoded compound packet gives back each of its packets, in order, as it comes
/// off the wire (see `rtcp_on_wire`), provided each packet fits its count and length fields.
pub proof fn lemma_rtcp_compound_roundtrip(ms: Seq<RtcpModel>)
    requires
        forall|i: int| 0 <= i < ms.len() ==> rtcp_roundtrips(#[trigger] ms[i]),
    ensures
        rtcp_decode_from(rtcp_compound_bytes(ms), 0) == ms.map_values(
            |m: RtcpModel| rtcp_on_wire(m),
        ),
    decreases ms.len(),
{
    if ms.len() == 0 {
        assert(ms.map_values(|m: RtcpModel| rtcp_on_wire(m)) =~= Seq::<RtcpModel>::empty());
    } else {
        lemma_compound_front(ms);
        let tail = ms.drop_first();
        assert forall|i: int| 0 <= i < tail.len() implies rtcp_roundtrips(#[trigger] tail[i]) by {
            assert(tail[i] == ms[i + 1]);
        }
        lemma_rtcp_compound_roundtrip(tail);
        assert(rtcp_roundtrips(ms[0]));
        lemma_rtcp_packet_roundtrip(ms[0], rtcp_compound_bytes(tail));
        assert(ms.map_values(|m: RtcpModel| rtcp_on_wire(m)) =~= seq![rtcp_on_wire(ms[0])]
            + tail.map_values(|m: RtcpModel| rtcp_on_wire(m)));
    }
}

/// Seconds between the NTP epoch (1900) and the Unix epoch (1970).
pub const NTP_UNIX_EPOCH_DIFF: u64 = 2_208_988_800;

/// The 32-bit NTP seconds and fraction for a Unix time of `secs` seconds and `nanos` nanoseconds.
pub open spec fn ntp_of_unix(secs: u64, nanos: u32) -> (u32, u32) {
    (
        ((secs as int + NTP_UNIX_EPOCH_DIFF as int) % 0x1_0000_0000) as u32,
        ((nanos as int * 0x1_0000_0000) / 1_000_000_000) as u32,
    )
}

/// Current time since the Unix epoch as whole seconds and sub-second nanoseconds
/// (`SystemTime::now().duration_since(UNIX_EPOCH)`, zero if the clock is before the epoch).
/// Trusted: the nanoseconds are below one second, as `Duration::subsec_nanos` documents; the
/// time itself is not stated.
#[verifier::external_body]
fn unix_time_now() -> (r: (u64, u32))
    ensures
        r.1 < 1_000_000_000,
{
    let d = std::time::SystemTime::now().duration_since(std::time::UNIX_EPOCH).unwrap_or(
        std::time::Duration::from_secs(0),
    );
    (d.as_secs(), d.subsec_nanos())
}

/// Converts a Unix time to a 64-bit NTP timestamp (seconds, fraction), keeping the low 32 bits
/// of the seconds.
pub fn ntp_from_unix(secs: u64, nanos: u32) -> (r: (u32, u32))
    requires
        nanos < 1_000_000_000,
    ensures
        r == ntp_of_unix(secs, nanos),
{
    let s = secs.wrapping_add(NTP_UNIX_EPOCH_DIFF);
    let frac = ((nanos as u64) << 32u64) / 1_000_000_000u64;
    assert((nanos as u64) << 32u64 == nanos as int * 0x1_0000_0000) by (bit_vector)
        requires
            nanos < 1_000_000_000,
    ;
    assert(s as u32 == (secs as int + NTP_UNIX_EPOCH_DIFF as int) % 0x1_0000_0000) by (bit_vector)
        requires
            s == secs.wrapping_add(2_208_988_800u64),
    ;
    (s as u32, frac as u32)
}

/// The current time as a 64-bit NTP timestamp (seconds, fraction).
pub fn now_ntp64() -> (r: (u32, u32))
    ensures
        exists|secs: u64, nanos: u32| nanos < 1_000_000_000 && r == ntp_of_unix(secs, nanos),
{
    let (secs, nanos) = unix_time_now();
    ntp_from_unix(secs, nanos)
}

/// The middle 32 bits of a 64-bit NTP timestamp (the "LSR" value of a report block).
pub fn middle_ntp32(secs: u32, frac: u32) -> (r: u32)
    ensures
        r == ((secs & 0xFFFFu32) << 16u32) | ((frac >> 16u32) & 0xFFFFu32),
{
    ((secs & 0xFFFFu32) << 16u32) | ((frac >> 16u32) & 0xFFFFu32)
}

/// Encoding packets one after the other: the compound packet of `a` followed by `c` is
/// the compound packet of `a` followed by that of `c`.
pub proof fn lemma_compound_append(a: Seq<RtcpModel>, c: Seq<RtcpModel>)
    ensures
        rtcp_compound_bytes(a + c) == rtcp_compound_bytes(a) + rtcp_compound_bytes(c),
    decreases c.len(),
{
    if c.len() == 0 {
        assert(a + c =~= a);
        assert(rtcp_compound_bytes(a) + rtcp_compound_bytes(c) =~= rtcp_compound_bytes(a));
    } else {
        lemma_compound_append(a, c.drop_last());
        assert((a + c).drop_last() =~= a + c.drop_last());
        assert((a + c).last() == c.last());
        assert(rtcp_compound_bytes(a + c) =~= rtcp_compound_bytes(a) + rtcp_compound_bytes(c));
    }
}

/// Every packet's encoding is a whole number of 32-bit words.
pub proof fn lemma_packet_words(m: RtcpModel)
    ensures
        rtcp_model_bytes(m).len() % 4 == 0,
{
    match m {
        RtcpModel::SR { reports, .. } => {
            lemma_report_blocks_len(reports);
        },
        RtcpModel::RR { reports, .. } => {
            lemma_report_blocks_len(reports);
        },
        RtcpModel::SDES { chunks } => {
            lemma_sdes_chunks_len(chunks);
        },
        RtcpModel::BYE { ssrcs, reason } => {
            lemma_ssrcs_len(ssrcs);
            match reason {
                Some(r) => {
                    let rb = encode_utf8(r);
                    let len = if rb.len() < 255 {
                        rb.len() as int
                    } else {
                        255
                    };
                    let unpadded = ssrcs_bytes(ssrcs) + seq![len as u8] + rb.subrange(0, len);
                    lemma_pad4(unpadded.len() as int);
                },
                None => {},
            }
        },
        RtcpModel::PLI { .. } => {},
    }
}

/// Every compound packet is a whole number of 32-bit words (a BYE built by `build_bye`
/// among them).
pub proof fn lemma_compound_words(ms: Seq<RtcpModel>)
    ensures
        rtcp_compound_bytes(ms).len() % 4 == 0,
    decreases ms.len(),
{
    if ms.len() > 0 {
        lemma_compound_words(ms.drop_last());
        lemma_packet_words(ms.last());
    }
}

proof fn lemma_compound_single(m: RtcpModel)
    ensures
        rtcp_compound_bytes(seq![m]) == rtcp_model_bytes(m),
{
    assert(seq![m].drop_last() =~= Seq::<RtcpModel>::empty());
    assert(rtcp_compound_bytes(Seq::<RtcpModel>::empty()) =~= Seq::<u8>::empty());
    assert(seq![m].last() == m);
}

proof fn lemma_compound_pair(m0: RtcpModel, m1: RtcpModel)
    ensures
        rtcp_compound_bytes(seq![m0, m1]) == rtcp_model_bytes(m0) + rtcp_model_bytes(m1),
{
    assert(seq![m0, m1].drop_last() =~= seq![m0]);
    lemma_compound_single(m0);
}

/// The SR + SDES(CNAME) compound packet for a sender at NTP time (`ntp_secs`, `ntp_frac`).
pub open spec fn sr_sdes_models(
    ssrc: u32,
    rtp_ts: u32,
    packets: u32,
    bytes: u32,
    cname: Seq<char>,
    ntp_secs: u32,
    ntp_frac: u32,
) -> Seq<RtcpModel> {
    seq![
        RtcpModel::SR {
            ssrc,
            ntp_secs,
            ntp_frac,
            rtp_ts,
            packet_count: packets,
            byte_count: bytes,
            reports: seq![],
        },
        RtcpModel::SDES { chunks: seq![(ssrc, seq![(SDES_CNAME, cname)])] },
    ]
}

/// The bytes of the sender report with its CNAME: a 28-byte SR packet (version 2, no report
/// blocks, type 200) for `ssrc` carrying the NTP time, RTP time and counts, then an SDES
/// packet (version 2, one chunk, type 202) whose chunk names `ssrc` and holds one item of
/// type 1 (CNAME) with the length and the UTF-8 bytes of `cname`, then the end marker 0.
pub proof fn lemma_sr_sdes_bytes(
    ssrc: u32,
    rtp_ts: u32,
    packets: u32,
    bytes: u32,
    cname: Seq<char>,
    ntp_secs: u32,
    ntp_frac: u32,
)
    ensures
        ({
            let b = rtcp_compound_bytes(sr_sdes_models(ssrc, rtp_ts, packets, bytes, cname, ntp_secs, ntp_frac));
            let t = encode_utf8(cname);
            let n = t.len() as int;
            &&& b.len() >= 39 + n
            &&& b[0] == 0x80 && b[1] == 200
            &&& b.subrange(4, 8) == be32(ssrc)
            &&& b.subrange(8, 12) == be32(ntp_secs)
            &&& b.subrange(12, 16) == be32(ntp_frac)
            &&& b.subrange(16, 20) == be32(rtp_ts)
            &&& b.subrange(20, 24) == be32(packets)
            &&& b.subrange(24, 28) == be32(bytes)
            &&& b[28] == 0x81 && b[29] == 202
            &&& b.subrange(32, 36) == be32(ssrc)
            &&& b[36] == 1
            &&& b[37] == n as u8
            &&& b.subrange(38, 38 + n) == t
            &&& b[38 + n] == 0
        }),
{
    let ms = sr_sdes_models(ssrc, rtp_ts, packets, bytes, cname, ntp_secs, ntp_frac);
    let m0 = ms[0];
    let m1 = ms[1];
    assert(ms =~= seq![m0, m1]);
    lemma_compound_pair(m0, m1);
    let b = rtcp_compound_bytes(ms);
    let x0 = rtcp_model_bytes(m0);
    let x1 = rtcp_model_bytes(m1);
    assert(report_blocks_bytes(Seq::<ReportBlock>::empty()) =~= Seq::<u8>::empty());
    let h0 = rtcp_header_bytes(RTCP_VERSION, false, 0u8, PT_SR, length_words(24));
    assert(x0 =~= h0 + be32(ssrc) + be32(ntp_secs) + be32(ntp_frac) + be32(rtp_ts) + be32(packets)
        + be32(bytes));
    assert(x0.len() == 28);
    assert(b == x0 + x1);
    let item = (SDES_CNAME, cname);
    let chunk = (ssrc, seq![item]);
    let tx = encode_utf8(cname);
    let n = tx.len() as int;
    assert(seq![item].drop_last() =~= Seq::<(u8, Seq<char>)>::empty());
    assert(sdes_items_bytes(Seq::<(u8, Seq<char>)>::empty()) =~= Seq::<u8>::empty());
    assert(sdes_items_bytes(seq![item]) =~= sdes_item_bytes(item));
    assert(seq![chunk].drop_last() =~= Seq::<(u32, Seq<(u8, Seq<char>)>)>::empty());
    assert(sdes_chunks_bytes(Seq::<(u32, Seq<(u8, Seq<char>)>)>::empty()) =~= Seq::<u8>::empty());
    assert(sdes_chunks_bytes(seq![chunk]) =~= sdes_chunk_bytes(chunk));
    let unpadded = be32(ssrc) + (seq![1u8, n as u8] + tx) + seq![0u8];
    let body = unpadded + zeros(pad4(unpadded.len() as int));
    assert(sdes_chunk_bytes(chunk) =~= body);
    let h1 = rtcp_header_bytes(RTCP_VERSION, false, 1u8, PT_SDES, length_words(body.len() as int));
    assert(x1 =~= h1 + body);
    assert(b[0] == h0[0] && b[1] == h0[1]);
    assert(((2u8 << 6u8) | (0u8 << 5u8) | (0u8 & 0x1Fu8)) as u8 == 0x80u8) by (bit_vector);
    assert(bit(false) == 0u8);
    assert(b.subrange(4, 8) =~= be32(ssrc));
    assert(b.subrange(8, 12) =~= be32(ntp_secs));
    assert(b.subrange(12, 16) =~= be32(ntp_frac));
    assert(b.subrange(16, 20) =~= be32(rtp_ts));
    assert(b.subrange(20, 24) =~= be32(packets));
    assert(b.subrange(24, 28) =~= be32(bytes));
    assert(b[28] == h1[0] && b[29] == h1[1]);
    assert(((2u8 << 6u8) | (0u8 << 5u8) | (1u8 & 0x1Fu8)) as u8 == 0x81u8) by (bit_vector);
    assert(b.subrange(32, 36) =~= be32(ssrc));
    assert(b[36] == body[4]);
    assert(b[37] == body[5]);
    assert(b.subrange(38, 38 + n) =~= tx);
    assert(b[38 + n] == body[6 + n]);
}

/// Builds the SR + SDES(CNAME) compound packet for a given NTP time.
pub fn build_sr_sdes_at(
    ssrc: u32,
    rtp_ts: u32,
    packets: u32,
    bytes: u32,
    cname: &str,
    ntp_secs: u32,
    ntp_frac: u32,
) -> (out: Vec<u8>)
    requires
        encode_utf8(cname@).len() + 64 <= usize::MAX,
    ensures
        out@ == rtcp_compound_bytes(
            sr_sdes_models(ssrc, rtp_ts, packets, bytes, cname@, ntp_secs, ntp_frac),
        ),
{
    let sr = SenderReport {
        ssrc,
        ntp_secs,
        ntp_frac,
        rtp_ts,
        packet_count: packets,
        byte_count: bytes,
        reports: Vec::new(),
    };
    let mut items = Vec::new();
    items.push(SdesItem { typ: SDES_CNAME, text: String::from_str(cname) });
    let sdes = SdesChunk { ssrc, items };
    let mut chunks = Vec::new();
    chunks.push(sdes);
    let mut packets_v = Vec::new();
    packets_v.push(RtcpPacket::SR(sr));
    packets_v.push(RtcpPacket::SDES(chunks));
    let ghost ms = sr_sdes_models(ssrc, rtp_ts, packets, bytes, cname@, ntp_secs, ntp_frac);
    assert(rtcp_models(packets_v@) =~= ms) by {
        assert(sdes_items_view(packets_v@[1]->SDES_0@[0].items@) =~= seq![(SDES_CNAME, cname@)]);
        assert(sdes_chunks_view(packets_v@[1]->SDES_0@) =~= seq![
            (ssrc, seq![(SDES_CNAME, cname@)]),
        ]);
    }
    proof {
        let item = (SDES_CNAME, cname@);
        let chunk = (ssrc, seq![item]);
        assert(seq![item].drop_last() =~= Seq::<(u8, Seq<char>)>::empty());
        assert(sdes_items_bytes(Seq::<(u8, Seq<char>)>::empty()) =~= Seq::<u8>::empty());
        assert(sdes_items_bytes(seq![item]) =~= sdes_item_bytes(item));
        assert(seq![chunk].drop_last() =~= Seq::<(u32, Seq<(u8, Seq<char>)>)>::empty());
        assert(sdes_chunks_bytes(Seq::<(u32, Seq<(u8, Seq<char>)>)>::empty()) =~= Seq::<u8>::empty());
        assert(sdes_chunks_bytes(seq![chunk]) =~= sdes_chunk_bytes(chunk));
        let unpadded = be32(ssrc) + sdes_items_bytes(seq![item]) + seq![SDES_END];
        lemma_pad4(unpadded.len() as int);
        lemma_compound_pair(ms[0], ms[1]);
        assert(ms =~= seq![ms[0], ms[1]]);
        lemma_report_blocks_len(Seq::<ReportBlock>::empty());
    }
    encode_compound(packets_v.as_slice())
}

/// Builds the SR + SDES(CNAME) compound packet stamped with the current time.
pub fn build_sr_sdes(ssrc: u32, rtp_ts: u32, packets: u32, bytes: u32, cname: &str) -> (out: Vec<u8>)
    requires
        encode_utf8(cname@).len() + 64 <= usize::MAX,
    ensures
        exists|ntp_secs: u32, ntp_frac: u32|
            out@ == rtcp_compound_bytes(
                sr_sdes_models(ssrc, rtp_ts, packets, bytes, cname@, ntp_secs, ntp_frac),
            ),
{
    let (ntp_s, ntp_f) = now_ntp64();
    build_sr_sdes_at(ssrc, rtp_ts, packets, bytes, cname, ntp_s, ntp_f)
}

/// Builds a BYE packet for one SSRC with an optional reason.
pub fn build_bye(ssrc: u32, reason: Option<&str>) -> (out: Vec<u8>)
    ensures
        out@ == rtcp_compound_bytes(
            seq![
                RtcpModel::BYE {
                    ssrcs: seq![ssrc],
                    reason: match reason {
                        Some(r) => Some(r@),
                        None => None,
                    },
                },
            ],
        ),
{
    let mut ssrcs = Vec::new();
    ssrcs.push(ssrc);
    let r = match reason {
        Some(r) => Some(String::from_str(r)),
        None => None,
    };
    let bye = Bye { ssrcs, reason: r };
    let mut packets_v = Vec::new();
    packets_v.push(RtcpPacket::BYE(bye));
    let ghost m = packets_v@[0].model();
    proof {
        assert(rtcp_models(packets_v@) =~= seq![m]);
        lemma_compound_single(m);
        assert(seq![ssrc].drop_last() =~= Seq::<u32>::empty());
        assert(ssrcs_bytes(Seq::<u32>::empty()) =~= Seq::<u8>::empty());
        assert(ssrcs_bytes(seq![ssrc]) =~= be32(ssrc));
        match m {
            RtcpModel::BYE { ssrcs, reason } => {
                match reason {
                    Some(r) => {
                        let rb = encode_utf8(r);
                        let len = if rb.len() < 255 {
                            rb.len() as int
                        } else {
                            255
                        };
                        let unpadded = ssrcs_bytes(ssrcs) + seq![len as u8] + rb.subrange(0, len);
                        lemma_pad4(unpadded.len() as int);
                    },
                    None => {},
                }
            },
            _ => {},
        }
    }
    encode_compound(packets_v.as_slice())
}

/// Builds a Picture Loss Indication packet.
pub fn build_pli(sender_ssrc: u32, media_ssrc: u32) -> (out: Vec<u8>)
    ensures
        out@ == rtcp_model_bytes(RtcpModel::PLI { sender_ssrc, media_ssrc }),
{
    let pli = PictureLossIndication { sender_ssrc, media_ssrc };
    let mut packets_v = Vec::new();
    packets_v.push(RtcpPacket::PLI(pli));
    let ghost m = packets_v@[0].model();
    proof {
        assert(rtcp_models(packets_v@) =~= seq![m]);
        lemma_compound_single(m);
    }
    encode_compound(packets_v.as_slice())
}

/// Builds a Receiver Report from `reporter_ssrc` carrying one report block.
pub fn build_rr(reporter_ssrc: u32, block: ReportBlock) -> (out: Vec<u8>)
    ensures
        out@ == rtcp_model_bytes(RtcpModel::RR { ssrc: reporter_ssrc, reports: seq![block] }),
{
    let mut reports = Vec::new();
    reports.push(block);
    let rr = ReceiverReport { ssrc: reporter_ssrc, reports };
    let mut packets_v = Vec::new();
    packets_v.push(RtcpPacket::RR(rr));
    let ghost m = packets_v@[0].model();
    proof {
        assert(rtcp_models(packets_v@) =~= seq![m]);
        lemma_compound_single(m);
        assert(seq![block].drop_last() =~= Seq::<ReportBlock>::empty());
        assert(seq![block].last() == block);
        assert(report_blocks_bytes(Seq::<ReportBlock>::empty()).len() == 0);
        assert(report_block_bytes(block).len() == 24);
        assert(report_blocks_bytes(seq![block]) == report_blocks_bytes(Seq::<ReportBlock>::empty())
            + report_block_bytes(block));
    }
    encode_compound(packets_v.as_slice())
}

} // verus!
