//! Reception statistics kept per remote SSRC for RTCP receiver reports: sequence number
//! cycles, packets expected and received, and losses since the previous report.
use crate::protocols::rtcp::ReportBlock;
use crate::protocols::rtp_packet::RtpHeader;
use vstd::prelude::*;

verus! {

/// `a + b`, or `u32::MAX` when that does not fit.
pub open spec fn sat_add(a: u32, b: u32) -> u32 {
    if a + b > u32::MAX {
        u32::MAX
    } else {
        (a + b) as u32
    }
}

/// `a - b`, or 0 when that is negative.
pub open spec fn sat_sub(a: u32, b: u32) -> u32 {
    if a < b {
        0
    } else {
        (a - b) as u32
    }
}

/// `a * b`, or `u32::MAX` when that does not fit.
pub open spec fn sat_mul(a: u32, b: u32) -> u32 {
    if a * b > u32::MAX {
        u32::MAX
    } else {
        (a * b) as u32
    }
}

/// `a + b` modulo 2^32.
pub open spec fn wrap_add(a: u32, b: int) -> u32 {
    ((a + b) % 0x1_0000_0000) as u32
}

/// The reception state for one remote SSRC. The interarrival jitter, which is computed in
/// floating point from arrival times, is kept by the caller beside it.
#[derive(Debug, Clone)]
pub struct RtcpRecvState {
    pub base_seq: u16,
    pub cycles: u32,
    pub highest_seq: u16,
    pub highest_ext_seq: u32,
    pub received: u32,
    pub expected_prior: u32,
    pub received_prior: u32,
    pub prev_rtp_ts: Option<u32>,
    pub last_sr_mid: Option<u32>,
}

/// The state of a stream whose first packet is numbered `first_seq`.
pub open spec fn fresh_state(first_seq: u16) -> RtcpRecvState {
    RtcpRecvState {
        base_seq: first_seq,
        cycles: 0,
        highest_seq: first_seq,
        highest_ext_seq: first_seq as u32,
        received: 0,
        expected_prior: 0,
        received_prior: 0,
        prev_rtp_ts: None,
        last_sr_mid: None,
    }
}

/// A state after counting the packet with header `hdr` (see `on_rtp`).
pub open spec fn counted(s: RtcpRecvState, hdr: RtpHeader) -> RtcpRecvState {
    let cycles = if hdr.seq < s.highest_seq && s.highest_seq - hdr.seq > 30000 {
        wrap_add(s.cycles, 0x1_0000)
    } else {
        s.cycles
    };
    let highest = if hdr.seq >= s.highest_seq {
        hdr.seq
    } else {
        s.highest_seq
    };
    RtcpRecvState {
        cycles,
        highest_seq: highest,
        highest_ext_seq: (cycles + highest) as u32,
        received: sat_add(s.received, 1),
        prev_rtp_ts: Some(hdr.timestamp),
        ..s
    }
}

/// The report block of a state, given the rounded jitter and the delay since the last
/// sender report (see `build_rr_block`).
pub open spec fn report_block(s: RtcpRecvState, jitter: u32, dlsr: u32) -> ReportBlock {
    let expected = wrap_add(s.highest_ext_seq, 1 - s.base_seq);
    let expected_interval = sat_sub(expected, s.expected_prior);
    let received_interval = sat_sub(s.received, s.received_prior);
    let lost_interval = sat_sub(expected_interval, received_interval);
    ReportBlock {
        ssrc: 0,
        fraction_lost: (if expected_interval == 0 {
            0
        } else if sat_mul(lost_interval, 256) / expected_interval > 255 {
            255
        } else {
            sat_mul(lost_interval, 256) / expected_interval
        }) as u8,
        cumulative_lost: sat_sub(expected, s.received),
        ext_highest_seq: s.highest_ext_seq,
        jitter,
        lsr: match s.last_sr_mid {
            Some(m) => m,
            None => 0,
        },
        dlsr,
    }
}

/// A state after a report: the counts it reported become the prior ones.
pub open spec fn after_report(s: RtcpRecvState) -> RtcpRecvState {
    RtcpRecvState {
        expected_prior: wrap_add(s.highest_ext_seq, 1 - s.base_seq),
        received_prior: s.received,
        ..s
    }
}

impl RtcpRecvState {
    /// The cycle count is a whole number of 2^16 wraps, and the extended highest sequence
    /// number is the cycle count plus the highest sequence number.
    pub open spec fn wf(&self) -> bool {
        &&& self.cycles % 0x1_0000 == 0
        &&& self.highest_ext_seq == self.cycles + self.highest_seq
    }

    /// A state for a stream whose first packet is numbered `first_seq`.
    pub fn new(first_seq: u16) -> (s: Self)
        ensures
            s.wf(),
            s.base_seq == first_seq,
            s.cycles == 0,
            s.highest_seq == first_seq,
            s.highest_ext_seq == first_seq as u32,
            s.received == 0,
            s.expected_prior == 0,
            s.received_prior == 0,
            s.prev_rtp_ts is None,
            s.last_sr_mid is None,
    {
        RtcpRecvState {
            base_seq: first_seq,
            cycles: 0,
            highest_seq: first_seq,
            highest_ext_seq: first_seq as u32,
            received: 0,
            expected_prior: 0,
            received_prior: 0,
            prev_rtp_ts: None,
            last_sr_mid: None,
        }
    }

    /// Counts a received RTP packet: a sequence number more than 30000 below the highest
    /// starts a new cycle, a number at or above the highest becomes the highest. Returns
    /// the difference, modulo 2^32, of its timestamp from the previous packet's, if there
    /// was one, from which the caller updates the jitter.
    pub fn on_rtp(&mut self, hdr: &RtpHeader) -> (delta: Option<u32>)
        requires
            old(self).wf(),
        ensures
            final(self).wf(),
            final(self).received == sat_add(old(self).received, 1),
            final(self).cycles == (if hdr.seq < old(self).highest_seq && old(self).highest_seq
                - hdr.seq > 30000 {
                wrap_add(old(self).cycles, 0x1_0000)
            } else {
                old(self).cycles
            }),
            final(self).highest_seq == (if hdr.seq >= old(self).highest_seq {
                hdr.seq
            } else {
                old(self).highest_seq
            }),
            final(self).prev_rtp_ts == Some(hdr.timestamp),
            final(self).base_seq == old(self).base_seq,
            final(self).expected_prior == old(self).expected_prior,
            final(self).received_prior == old(self).received_prior,
            final(self).last_sr_mid == old(self).last_sr_mid,
            *final(self) == counted(*old(self), *hdr),
            delta == (match old(self).prev_rtp_ts {
                Some(p) => Some(wrap_add(hdr.timestamp, -(p as int))),
                None => None::<u32>,
            }),
    {
        self.received = self.received.saturating_add(1);
        if hdr.seq < self.highest_seq && (self.highest_seq as u32).wrapping_sub(hdr.seq as u32)
            > 30000 {
            let c0 = self.cycles;
            self.cycles = c0.wrapping_add(0x1_0000);
            assert(self.cycles == wrap_add(c0, 0x1_0000));
            assert(self.cycles % 0x1_0000 == 0);
        }
        if hdr.seq >= self.highest_seq {
            self.highest_seq = hdr.seq;
        }
        let c = self.cycles;
        let h = self.highest_seq;
        assert(c % 0x1_0000 == 0 ==> (c | (h as u32)) == c + h) by (bit_vector)
            requires
                h < 0x1_0000,
        ;
        self.highest_ext_seq = self.cycles | (self.highest_seq as u32);
        let delta = match self.prev_rtp_ts {
            Some(p) => Some(hdr.timestamp.wrapping_sub(p)),
            None => None,
        };
        self.prev_rtp_ts = Some(hdr.timestamp);
        delta
    }

    /// The report block for this stream, given the rounded jitter and the delay since the
    /// last sender report: packets expected and lost overall and since the previous
    /// report, whose counts it then keeps for the next one.
    pub fn build_rr_block(&mut self, jitter: u32, dlsr: u32) -> (rb: ReportBlock)
        ensures
            ({
                let expected = wrap_add(old(self).highest_ext_seq, 1 - old(self).base_seq);
                let expected_interval = sat_sub(expected, old(self).expected_prior);
                let received_interval = sat_sub(old(self).received, old(self).received_prior);
                let lost_interval = sat_sub(expected_interval, received_interval);
                &&& rb.ssrc == 0
                &&& rb.fraction_lost == (if expected_interval == 0 {
                    0
                } else if sat_mul(lost_interval, 256) / expected_interval > 255 {
                    255
                } else {
                    sat_mul(lost_interval, 256) / expected_interval
                })
                &&& rb.cumulative_lost == sat_sub(expected, old(self).received)
                &&& rb.ext_highest_seq == old(self).highest_ext_seq
                &&& rb.jitter == jitter
                &&& rb.lsr == (match old(self).last_sr_mid {
                    Some(m) => m,
                    None => 0,
                })
                &&& rb.dlsr == dlsr
                &&& final(self).expected_prior == expected
                &&& final(self).received_prior == old(self).received
            }),
            final(self).base_seq == old(self).base_seq,
            final(self).cycles == old(self).cycles,
            final(self).highest_seq == old(self).highest_seq,
            final(self).highest_ext_seq == old(self).highest_ext_seq,
            final(self).received == old(self).received,
            final(self).prev_rtp_ts == old(self).prev_rtp_ts,
            final(self).last_sr_mid == old(self).last_sr_mid,
            rb == report_block(*old(self), jitter, dlsr),
            *final(self) == after_report(*old(self)),
    {
        let expected = self.highest_ext_seq.wrapping_sub(self.base_seq as u32).wrapping_add(1);
        let expected_interval = expected.saturating_sub(self.expected_prior);
        let received_interval = self.received.saturating_sub(self.received_prior);
        self.expected_prior = expected;
        self.received_prior = self.received;
        let lost_interval = expected_interval.saturating_sub(received_interval);
        let fraction_lost: u8 = if expected_interval > 0 {
            let scaled: u32 = if lost_interval > u32::MAX / 256 {
                u32::MAX
            } else {
                lost_interval * 256
            };
            let q = scaled / expected_interval;
            if q > 255 {
                255
            } else {
                q as u8
            }
        } else {
            0
        };
        let cumulative_lost = expected.saturating_sub(self.received);
        let lsr = match self.last_sr_mid {
            Some(m) => m,
            None => 0,
        };
        ReportBlock {
            ssrc: 0,
            fraction_lost,
            cumulative_lost,
            ext_highest_seq: self.highest_ext_seq,
            jitter,
            lsr,
            dlsr,
        }
    }
}

} // verus!
