//! What a call's media receiver does with the RTP and RTCP packets of the peer: which
//! stream an RTP packet belongs to, and the reception statistics kept per source, from
//! which it answers sender reports and sends its periodic receiver reports. The jitter
//! estimate and the clock readings (floating point, time) are the caller's.
use crate::protocols::h264_rtp::{depack_step, payload_in_bounds, DepackState, H264RtpDepacketizer};
use crate::protocols::jitter_buffer::{held_back, is_late, lemma_holds_finitely_many, seq_after, taken_key, JitterBuffer, JitterView};
use crate::protocols::rtcp::{ReportBlock, SenderReport};
use crate::protocols::rtcp_receiver::{after_report, counted, fresh_state, report_block, wrap_add, RtcpRecvState};
use crate::protocols::rtp_packet::{rtp_header_from_seq, RtpHeader};
use std::collections::HashMap;
use vstd::prelude::*;

verus! {

broadcast use vstd::std_specs::hash::group_hash_axioms;

/// Where an RTP packet of the peer goes.
pub enum RtpRoute {
    /// Shorter than a header, not version 2, or of neither stream: dropped.
    Drop,
    /// A packet of the video stream, with its header.
    Video(RtpHeader),
    /// A packet of the audio stream, with its header.
    Audio(RtpHeader),
}

/// The route of the packet `b`: by the payload type of its header (version 2 only), the
/// video type taking precedence.
pub open spec fn rtp_route(b: Seq<u8>, video_pt: u8, audio_pt: u8) -> Option<(bool, RtpHeader)> {
    if b.len() < 12 {
        None
    } else {
        let h = rtp_header_from_seq(b);
        if h.version != 2 {
            None
        } else if h.payload_type == video_pt {
            Some((true, h))
        } else if h.payload_type == audio_pt {
            Some((false, h))
        } else {
            None
        }
    }
}

/// Routes a packet of the peer to the video or the audio stream (see `rtp_route`).
pub fn route_rtp(buf: &[u8], video_pt: u8, audio_pt: u8) -> (r: RtpRoute)
    ensures
        match rtp_route(buf@, video_pt, audio_pt) {
            Some((true, h)) => r == RtpRoute::Video(h),
            Some((false, h)) => r == RtpRoute::Audio(h),
            None => r == RtpRoute::Drop,
        },
{
    if buf.len() < 12 {
        return RtpRoute::Drop;
    }
    let header = match RtpHeader::from_bytes(buf) {
        Ok(h) => h,
        Err(_) => return RtpRoute::Drop,
    };
    if header.version != 2 {
        RtpRoute::Drop
    } else if header.payload_type == video_pt {
        RtpRoute::Video(header)
    } else if header.payload_type == audio_pt {
        RtpRoute::Audio(header)
    } else {
        RtpRoute::Drop
    }
}

/// The middle 32 bits of an NTP timestamp.
pub open spec fn middle_ntp(secs: u32, frac: u32) -> u32 {
    ((secs & 0xFFFFu32) << 16u32) | ((frac >> 16u32) & 0xFFFFu32)
}

/// The reception statistics of each source of the peer, by SSRC.
pub struct RtcpStates {
    pub states: HashMap<u32, RtcpRecvState>,
}

impl RtcpStates {
    /// Every state is well formed.
    pub open spec fn wf(&self) -> bool {
        forall|k: u32| self.states@.contains_key(k) ==> (#[trigger] self.states@[k]).wf()
    }

    /// The state of source `ssrc`, or a fresh one from `first_seq`.
    pub open spec fn state_or(&self, ssrc: u32, first_seq: u16) -> RtcpRecvState {
        if self.states@.contains_key(ssrc) {
            self.states@[ssrc]
        } else {
            fresh_state(first_seq)
        }
    }

    /// No source seen yet.
    pub fn new() -> (s: Self)
        ensures
            s.states@ == Map::<u32, RtcpRecvState>::empty(),
            s.wf(),
    {
        RtcpStates { states: HashMap::new() }
    }

    /// Takes out the state of `ssrc`, or a fresh one from `first_seq`.
    fn take_state(&mut self, ssrc: u32, first_seq: u16) -> (s: RtcpRecvState)
        requires
            old(self).wf(),
        ensures
            s == old(self).state_or(ssrc, first_seq),
            s.wf(),
            final(self).states@ == old(self).states@.remove(ssrc),
            final(self).wf(),
    {
        match self.states.remove(&ssrc) {
            Some(s) => s,
            None => RtcpRecvState::new(first_seq),
        }
    }

    /// Counts a packet of the peer in its source's statistics, which start at its sequence
    /// number on the source's first packet. Returns the step of its timestamp from the
    /// source's previous packet, if any, for the caller's jitter estimate.
    pub fn update_rtcp_state(&mut self, header: &RtpHeader) -> (delta: Option<u32>)
        requires
            old(self).wf(),
        ensures
            final(self).wf(),
            ({
                let s0 = old(self).state_or(header.ssrc, header.seq);
                &&& final(self).states@ == old(self).states@.insert(header.ssrc, counted(s0, *header))
                &&& delta == match s0.prev_rtp_ts {
                    Some(p) => Some(wrap_add(header.timestamp, -(p as int))),
                    None => None::<u32>,
                }
            }),
    {
        let mut st = self.take_state(header.ssrc, header.seq);
        let delta = st.on_rtp(header);
        self.states.insert(header.ssrc, st);
        delta
    }

    /// A sender report of the peer: its source's statistics (fresh from 0 if the source is
    /// new) note the middle of its NTP time. When packets of that source were received, the
    /// result is the report block that answers it, for that source, built with the given
    /// jitter and delay; the reported counts become the prior ones.
    pub fn process_sr(&mut self, sr: &SenderReport, jitter: u32, dlsr: u32) -> (r: Option<ReportBlock>)
        requires
            old(self).wf(),
        ensures
            final(self).wf(),
            ({
                let s1 = RtcpRecvState {
                    last_sr_mid: Some(middle_ntp(sr.ntp_secs, sr.ntp_frac)),
                    ..old(self).state_or(sr.ssrc, 0)
                };
                if s1.received > 0 {
                    &&& r == Some(ReportBlock { ssrc: sr.ssrc, ..report_block(s1, jitter, dlsr) })
                    &&& final(self).states@ == old(self).states@.insert(sr.ssrc, after_report(s1))
                } else {
                    &&& r is None
                    &&& final(self).states@ == old(self).states@.insert(sr.ssrc, s1)
                }
            }),
    {
        let mut st = self.take_state(sr.ssrc, 0);
        st.last_sr_mid = Some(crate::protocols::rtcp::middle_ntp32(sr.ntp_secs, sr.ntp_frac));
        let r = if st.received > 0 {
            let mut block = st.build_rr_block(jitter, dlsr);
            block.ssrc = sr.ssrc;
            Some(block)
        } else {
            None
        };
        self.states.insert(sr.ssrc, st);
        r
    }

    /// The periodic report on source `ssrc`, when it is known: its report block, built
    /// with the given jitter and delay; the reported counts become the prior ones.
    pub fn periodic_report(&mut self, ssrc: u32, jitter: u32, dlsr: u32) -> (r: Option<ReportBlock>)
        requires
            old(self).wf(),
        ensures
            final(self).wf(),
            old(self).states@.contains_key(ssrc) ==> {
                let s = old(self).states@[ssrc];
                &&& r == Some(ReportBlock { ssrc, ..report_block(s, jitter, dlsr) })
                &&& final(self).states@ == old(self).states@.insert(ssrc, after_report(s))
            },
            !old(self).states@.contains_key(ssrc) ==> r is None && final(self).states@
                == old(self).states@,
    {
        match self.states.remove(&ssrc) {
            Some(mut st) => {
                let mut block = st.build_rr_block(jitter, dlsr);
                block.ssrc = ssrc;
                self.states.insert(ssrc, st);
                Some(block)
            },
            None => {
                assert(self.states@ =~= old(self).states@);
                None
            },
        }
    }
}

/// Whether every packet a buffer holds has a payload the depacketizer can take.
pub open spec fn buffered_in_bounds(v: JitterView) -> bool {
    forall|k: u16| v.packets.contains_key(k) ==> payload_in_bounds((#[trigger] v.packets[k]).1@)
}

/// A buffer after a pop (see `JitterBuffer::pop`).
pub open spec fn after_pop(v: JitterView) -> JitterView {
    let buffering = held_back(v) || v.packets.len() == 0;
    match taken_key(v) {
        Some(k) => JitterView {
            packets: v.packets.remove(k),
            next_seq: Some(seq_after(k)),
            is_buffering: buffering,
            ..v
        },
        None => JitterView { is_buffering: buffering, ..v },
    }
}

/// A buffer after a push of `header` and `payload` (see `JitterBuffer::push`).
pub open spec fn after_push(v: JitterView, header: RtpHeader, payload: Vec<u8>) -> JitterView {
    let n = match v.next_seq {
        Some(n) => n,
        None => header.seq,
    };
    JitterView {
        next_seq: Some(n),
        packets: if is_late(header.seq, n) || (!v.packets.contains_key(header.seq) && v.packets.len()
            >= v.max_capacity) {
            v.packets
        } else {
            v.packets.insert(header.seq, (header, payload))
        },
        ..v
    }
}

/// Pops the buffer `v` until it hands nothing out (at most `n` packets), giving each
/// packet to the depacketizer in state `d`: the buffer and depacketizer afterwards, the
/// access units completed, and the source of each packet taken.
pub open spec fn video_drain(v: JitterView, d: DepackState, n: nat) -> (
    JitterView,
    DepackState,
    Seq<Seq<u8>>,
    Seq<u32>,
)
    decreases n,
{
    match taken_key(v) {
        None => (after_pop(v), d, Seq::empty(), Seq::empty()),
        Some(k) => if n == 0 {
            (v, d, Seq::empty(), Seq::empty())
        } else {
            let h = v.packets[k].0;
            let st = depack_step(d, h, v.packets[k].1@);
            let rest = video_drain(after_pop(v), st.0, (n - 1) as nat);
            (
                rest.0,
                rest.1,
                match st.1 {
                    Some(au) => seq![au] + rest.2,
                    None => rest.2,
                },
                seq![h.ssrc] + rest.3,
            )
        },
    }
}

/// The video stream's reception: the jitter buffer that puts packets back in order and
/// the depacketizer that rebuilds access units from them.
pub struct VideoReceiver {
    pub jitter_buffer: JitterBuffer,
    pub depacketizer: H264RtpDepacketizer,
}

impl VideoReceiver {
    /// Nothing received yet; the buffer skips ahead past `max_capacity` packets and waits
    /// for `min_buffering` before it starts.
    pub fn new(max_capacity: usize, min_buffering: usize) -> (r: Self)
        ensures
            r.jitter_buffer@.packets.is_empty(),
            r.jitter_buffer@.next_seq is None,
            r.jitter_buffer@.max_capacity == max_capacity,
            r.jitter_buffer@.min_buffering == min_buffering,
            r.jitter_buffer@.is_buffering,
            r.depacketizer.state() == H264RtpDepacketizer::initial_state(),
            r.depacketizer.wf(),
            buffered_in_bounds(r.jitter_buffer@),
    {
        VideoReceiver { jitter_buffer: JitterBuffer::new(max_capacity, min_buffering), depacketizer: H264RtpDepacketizer::new() }
    }

    /// A video packet (its payload already opened): it goes into the jitter buffer, and
    /// whatever the buffer then hands out, in order, goes to the depacketizer. Returns the
    /// access units completed and the source of each packet handed out (for its periodic
    /// report).
    pub fn handle_video_rtp(&mut self, header: RtpHeader, payload: Vec<u8>) -> (r: (Vec<Vec<u8>>, Vec<u32>))
        requires
            old(self).depacketizer.wf(),
            buffered_in_bounds(old(self).jitter_buffer@),
            payload_in_bounds(payload@),
        ensures
            ({
                let v1 = after_push(old(self).jitter_buffer@, header, payload);
                let f = video_drain(v1, old(self).depacketizer.state(), v1.packets.len());
                &&& final(self).jitter_buffer@ == f.0
                &&& final(self).depacketizer.state() == f.1
                &&& r.0@.map_values(|a: Vec<u8>| a@) == f.2
                &&& r.1@ == f.3
            }),
            final(self).depacketizer.wf(),
            buffered_in_bounds(final(self).jitter_buffer@),
    {
        let ghost pl = payload;
        self.jitter_buffer.push(header, payload);
        let ghost v1 = after_push(old(self).jitter_buffer@, header, pl);
        assert(self.jitter_buffer@ == v1);
        let ghost total = video_drain(v1, old(self).depacketizer.state(), v1.packets.len());
        let mut aus: Vec<Vec<u8>> = Vec::new();
        let mut ssrcs: Vec<u32> = Vec::new();
        proof {
            lemma_holds_finitely_many(&self.jitter_buffer);
        }
        loop
            invariant_except_break
                self.depacketizer.wf(),
                buffered_in_bounds(self.jitter_buffer@),
                self.jitter_buffer@.packets.dom().finite(),
                ({
                    let f = video_drain(
                        self.jitter_buffer@,
                        self.depacketizer.state(),
                        self.jitter_buffer@.packets.len(),
                    );
                    &&& f.0 == total.0
                    &&& f.1 == total.1
                    &&& aus@.map_values(|a: Vec<u8>| a@) + f.2 == total.2
                    &&& ssrcs@ + f.3 == total.3
                }),
            ensures
                self.depacketizer.wf(),
                buffered_in_bounds(self.jitter_buffer@),
                self.jitter_buffer@ == total.0,
                self.depacketizer.state() == total.1,
                aus@.map_values(|a: Vec<u8>| a@) == total.2,
                ssrcs@ == total.3,
            decreases self.jitter_buffer@.packets.len(),
        {
            let ghost v = self.jitter_buffer@;
            let ghost d = self.depacketizer.state();
            let ghost ev = aus@.map_values(|a: Vec<u8>| a@);
            match self.jitter_buffer.pop() {
                None => {
                    assert(self.jitter_buffer@ == after_pop(v));
                    assert(ev + Seq::<Seq<u8>>::empty() =~= ev);
                    assert(ssrcs@ + Seq::<u32>::empty() =~= ssrcs@);
                    break;
                },
                Some((h, p)) => {
                    let ghost k = taken_key(v)->0;
                    assert(v.packets.contains_key(k));
                    assert(payload_in_bounds(p@));
                    assert(self.jitter_buffer@ == after_pop(v));
                    proof {
                        lemma_holds_finitely_many(&self.jitter_buffer);
                    }
                    let au = self.depacketizer.push_rtp(&h, p.as_slice());
                    let ghost rest = video_drain(after_pop(v), depack_step(d, h, p@).0, (v.packets.len() - 1) as nat);
                    match au {
                        Some(a) => {
                            aus.push(a);
                            assert(aus@.map_values(|a: Vec<u8>| a@) =~= ev.push(depack_step(d, h, p@).1->0));
                        },
                        None => {},
                    }
                    ssrcs.push(h.ssrc);
                    assert(buffered_in_bounds(self.jitter_buffer@)) by {
                        assert forall|j: u16| self.jitter_buffer@.packets.contains_key(j) implies payload_in_bounds(
                            (#[trigger] self.jitter_buffer@.packets[j]).1@,
                        ) by {
                            assert(v.packets.contains_key(j));
                        }
                    }
                },
            }
        }
        (aus, ssrcs)
    }
}

} // verus!
