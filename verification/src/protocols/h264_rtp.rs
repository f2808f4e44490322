//! RTP packetization of H.264 (RFC 6184): an Annex B byte stream is split at its start
//! codes into NAL units; a unit that fits the MTU travels in one packet, a larger one in
//! FU-A fragments. The depacketizer reassembles access units from single-unit, STAP-A and
//! FU-A payloads.
use crate::protocols::rtp_packet::{bit, bit_exec, lemma_rtp_header_roundtrip, rtp_header_bytes, rtp_header_fits, rtp_header_from_seq, RtpHeader, RtpParams};
use crate::wire::{get_be16, next_seq, push_all, read_be16, seq_next};
use vstd::prelude::*;

verus! {

/// The length of the start code at `d[i..]`: 4 for 00 00 00 01, 3 for 00 00 01, else 0.
pub open spec fn start_code_len(d: Seq<u8>, i: int) -> int {
    if 0 <= i && i + 4 <= d.len() && d[i] == 0 && d[i + 1] == 0 && d[i + 2] == 0 && d[i + 3]
        == 1 {
        4
    } else if 0 <= i && i + 3 <= d.len() && d[i] == 0 && d[i + 1] == 0 && d[i + 2] == 1 {
        3
    } else {
        0
    }
}

/// The NAL unit ranges found by scanning `d` from `i` on, where `start` is where the unit
/// being read began (after its start code). Start codes are looked for at every position
/// `i` with `i + 3 < d.len()`; a unit ends where the next start code begins and is kept only
/// when it is not empty; the last unit runs to the end of `d`.
pub open spec fn nalu_scan(d: Seq<u8>, i: int, start: Option<int>) -> Seq<(int, int)>
    decreases d.len() - i,
{
    if 0 <= i && i + 3 < d.len() {
        let sc = start_code_len(d, i);
        if sc > 0 {
            let here = match start {
                Some(s) => if i > s {
                    seq![(s, i)]
                } else {
                    Seq::empty()
                },
                None => Seq::empty(),
            };
            here + nalu_scan(d, i + sc, Some(i + sc))
        } else {
            nalu_scan(d, i + 1, start)
        }
    } else {
        match start {
            Some(s) => if s < d.len() {
                seq![(s, d.len() as int)]
            } else {
                Seq::empty()
            },
            None => Seq::empty(),
        }
    }
}

/// The ranges of the NAL units of the Annex B stream `d`.
pub open spec fn nalu_ranges(d: Seq<u8>) -> Seq<(int, int)> {
    nalu_scan(d, 0, None)
}

/// The NAL units of the Annex B stream `d`.
pub open spec fn nalu_texts(d: Seq<u8>) -> Seq<Seq<u8>> {
    nalu_ranges(d).map_values(|r: (int, int)| d.subrange(r.0, r.1))
}

/// Every range found from a well-placed scan state lies inside `d` and is not empty.
pub proof fn lemma_nalu_scan_wf(d: Seq<u8>, i: int, start: Option<int>)
    requires
        0 <= i,
        start matches Some(s) ==> 0 <= s <= i,
    ensures
        forall|k: int|
            0 <= k < nalu_scan(d, i, start).len() ==> {
                let r = #[trigger] nalu_scan(d, i, start)[k];
                0 <= r.0 < r.1 <= d.len()
            },
    decreases d.len() - i,
{
    if 0 <= i && i + 3 < d.len() {
        let sc = start_code_len(d, i);
        if sc > 0 {
            lemma_nalu_scan_wf(d, i + sc, Some(i + sc));
            let here = match start {
                Some(s) => if i > s {
                    seq![(s, i)]
                } else {
                    Seq::empty()
                },
                None => Seq::empty(),
            };
            let rest = nalu_scan(d, i + sc, Some(i + sc));
            assert forall|k: int| 0 <= k < nalu_scan(d, i, start).len() implies {
                let r = #[trigger] nalu_scan(d, i, start)[k];
                0 <= r.0 < r.1 <= d.len()
            } by {
                if k >= here.len() {
                    assert(nalu_scan(d, i, start)[k] == rest[k - here.len()]);
                }
            }
        } else {
            lemma_nalu_scan_wf(d, i + 1, start);
            assert(nalu_scan(d, i, start) == nalu_scan(d, i + 1, start));
        }
    } else {
        match start {
            Some(s) => {
                if s < d.len() {
                    assert(nalu_scan(d, i, start) == seq![(s, d.len() as int)]);
                } else {
                    assert(nalu_scan(d, i, start).len() == 0);
                }
            },
            None => {
                assert(nalu_scan(d, i, start).len() == 0);
            },
        }
    }
}

/// Whether `sc` is a start code: 00 00 01 or 00 00 00 01.
pub open spec fn is_start_code(sc: Seq<u8>) -> bool {
    sc == seq![0u8, 0u8, 1u8] || sc == seq![0u8, 0u8, 0u8, 1u8]
}

/// Whether the unit `n` can stand after a start code and be told apart from the next one:
/// it is not empty, its last byte is not zero, and 00 00 01 does not occur in it.
pub open spec fn separable_unit(n: Seq<u8>) -> bool {
    &&& n.len() > 0
    &&& n.last() != 0
    &&& forall|p: int|
        0 <= p && p + 3 <= n.len() ==> !(#[trigger] n[p] == 0 && n[p + 1] == 0 && n[p + 2] == 1)
}

/// The byte stream of each start code `scs[i]` followed by the unit `ns[i]`.
pub open spec fn annexb_stream(scs: Seq<Seq<u8>>, ns: Seq<Seq<u8>>) -> Seq<u8>
    decreases ns.len(),
{
    if ns.len() == 0 || scs.len() == 0 {
        Seq::empty()
    } else {
        scs[0] + ns[0] + annexb_stream(scs.drop_first(), ns.drop_first())
    }
}

/// The ranges a scan finds past a prefix are those it finds in the rest, moved by the
/// prefix's length.
proof fn lemma_scan_shift(p: Seq<u8>, q: Seq<u8>, i: int, s: int)
    requires
        0 <= s <= i,
    ensures
        nalu_scan(p + q, p.len() + i, Some(p.len() + s)) == nalu_scan(q, i, Some(s)).map_values(
            |r: (int, int)| (r.0 + p.len(), r.1 + p.len()),
        ),
    decreases q.len() - i,
{
    let d = p + q;
    let k = p.len() as int;
    let f = |r: (int, int)| (r.0 + k, r.1 + k);
    if i + 3 < q.len() {
        assert(d[k + i] == q[i] && d[k + i + 1] == q[i + 1] && d[k + i + 2] == q[i + 2]);
        if i + 4 <= q.len() {
            assert(d[k + i + 3] == q[i + 3]);
        }
        assert(start_code_len(d, k + i) == start_code_len(q, i));
        let sc = start_code_len(q, i);
        if sc > 0 {
            lemma_scan_shift(p, q, i + sc, i + sc);
            let here = if i > s {
                seq![(s, i)]
            } else {
                Seq::<(int, int)>::empty()
            };
            let rest = nalu_scan(q, i + sc, Some(i + sc));
            assert((here + rest).map_values(f) =~= here.map_values(f) + rest.map_values(f));
            if i > s {
                assert(here.map_values(f) =~= seq![(k + s, k + i)]);
            } else {
                assert(here.map_values(f) =~= Seq::<(int, int)>::empty());
            }
        } else {
            lemma_scan_shift(p, q, i + 1, s);
        }
    } else {
        if s < q.len() {
            assert(seq![(s, q.len() as int)].map_values(f) =~= seq![(k + s, d.len() as int)]);
        } else {
            assert(Seq::<(int, int)>::empty().map_values(f) =~= Seq::<(int, int)>::empty());
        }
    }
}

/// A scan passes over positions where no start code begins.
proof fn lemma_scan_skip(d: Seq<u8>, i: int, e: int, s: int)
    requires
        0 <= i <= e,
        forall|x: int| i <= x < e ==> #[trigger] start_code_len(d, x) == 0,
    ensures
        nalu_scan(d, i, Some(s)) == nalu_scan(d, e, Some(s)),
    decreases e - i,
{
    if i < e {
        lemma_scan_skip(d, i + 1, e, s);
        assert(start_code_len(d, i) == 0);
    }
}

/// No start code begins inside a separable unit `n` standing at `c` in `d`.
proof fn lemma_no_code_inside(d: Seq<u8>, n: Seq<u8>, c: int)
    requires
        separable_unit(n),
        0 <= c,
        c + n.len() <= d.len(),
        d.subrange(c, c + n.len()) == n,
    ensures
        forall|x: int| c <= x < c + n.len() ==> #[trigger] start_code_len(d, x) == 0,
{
    let e = c + n.len();
    assert forall|x: int| c <= x < e implies #[trigger] start_code_len(d, x) == 0 by {
        assert(d[e - 1] == n[n.len() - 1]);
        if start_code_len(d, x) == 4 {
            if x + 3 < e {
                assert(n[x + 1 - c] == d[x + 1] && n[x + 2 - c] == d[x + 2] && n[x + 3 - c]
                    == d[x + 3]);
                assert(!(n[x + 1 - c] == 0 && n[x + 2 - c] == 0 && n[x + 3 - c] == 1));
            }
        } else if start_code_len(d, x) == 3 {
            if x + 2 < e {
                assert(n[x - c] == d[x] && n[x + 1 - c] == d[x + 1] && n[x + 2 - c] == d[x + 2]);
                assert(!(n[x - c] == 0 && n[x + 1 - c] == 0 && n[x + 2 - c] == 1));
            }
        }
    }
}

/// Scanning a stream of start codes and separable units finds exactly the units.
proof fn lemma_scan_stream(scs: Seq<Seq<u8>>, ns: Seq<Seq<u8>>)
    requires
        scs.len() == ns.len(),
        forall|i: int| 0 <= i < ns.len() ==> is_start_code(#[trigger] scs[i]) && separable_unit(ns[i]),
    ensures
        ({
            let d = annexb_stream(scs, ns);
            nalu_scan(d, 0, None).map_values(|r: (int, int)| d.subrange(r.0, r.1)) == ns
        }),
    decreases ns.len(),
{
    let d = annexb_stream(scs, ns);
    let g = |r: (int, int)| d.subrange(r.0, r.1);
    if ns.len() == 0 {
        assert(nalu_scan(d, 0, None).map_values(g) =~= ns);
    } else {
        let sc0 = scs[0];
        let n0 = ns[0];
        assert(is_start_code(sc0) && separable_unit(n0));
        let tail_s = scs.drop_first();
        let tail_n = ns.drop_first();
        let rest = annexb_stream(tail_s, tail_n);
        let head = sc0 + n0;
        assert(d == head + rest);
        let c = sc0.len() as int;
        let e = c + n0.len();
        assert(d[0] == sc0[0] && d[1] == sc0[1] && d[2] == sc0[2]);
        if c == 4 {
            assert(d[3] == sc0[3]);
        }
        assert(start_code_len(d, 0) == c);
        assert(nalu_scan(d, 0, None) == nalu_scan(d, c, Some(c)));
        assert(d.subrange(c, e) =~= n0);
        lemma_no_code_inside(d, n0, c);
        lemma_scan_skip(d, c, e, c);
        if tail_n.len() == 0 {
            assert(rest.len() == 0);
            assert(nalu_scan(d, e, Some(c)) == seq![(c, e)]);
            assert(nalu_scan(d, 0, None).map_values(g) =~= seq![n0]);
            assert(ns =~= seq![n0]);
        } else {
            assert forall|i: int| 0 <= i < tail_n.len() implies is_start_code(#[trigger] tail_s[i])
                && separable_unit(tail_n[i]) by {
                assert(tail_s[i] == scs[i + 1] && tail_n[i] == ns[i + 1]);
            }
            lemma_scan_stream(tail_s, tail_n);
            let sc1 = tail_s[0];
            assert(is_start_code(sc1) && separable_unit(tail_n[0]));
            let c1 = sc1.len() as int;
            assert(rest == sc1 + tail_n[0] + annexb_stream(tail_s.drop_first(), tail_n.drop_first()));
            assert(rest[0] == sc1[0] && rest[1] == sc1[1] && rest[2] == sc1[2]);
            if c1 == 4 {
                assert(rest[3] == sc1[3]);
            }
            assert(rest.len() > c1);
            assert(head.len() == e);
            assert(d[e] == rest[0] && d[e + 1] == rest[1] && d[e + 2] == rest[2]);
            if c1 == 4 {
                assert(d[e + 3] == rest[3]);
            }
            assert(start_code_len(d, e) == c1);
            assert(start_code_len(rest, 0) == c1);
            let inner = nalu_scan(rest, c1, Some(c1));
            assert(nalu_scan(rest, 0, None) == inner);
            lemma_scan_shift(head, rest, c1, c1);
            let f = |r: (int, int)| (r.0 + e, r.1 + e);
            assert(nalu_scan(d, e, Some(c)) == seq![(c, e)] + inner.map_values(f));
            lemma_nalu_scan_wf(rest, c1, Some(c1));
            let h = |r: (int, int)| rest.subrange(r.0, r.1);
            assert(inner.map_values(h) == tail_n);
            assert forall|k: int| 0 <= k < inner.len() implies #[trigger] inner.map_values(f).map_values(
                g,
            )[k] == inner.map_values(h)[k] by {
                let r = inner[k];
                assert(0 <= r.0 < r.1 <= rest.len());
                assert(d.subrange(r.0 + e, r.1 + e) =~= rest.subrange(r.0, r.1));
            }
            assert(inner.map_values(f).map_values(g) =~= tail_n);
            assert((seq![(c, e)] + inner.map_values(f)).map_values(g) =~= seq![n0]
                + inner.map_values(f).map_values(g));
            assert(ns =~= seq![n0] + tail_n);
        }
    }
}

/// An Annex B stream made of start codes, each followed by a unit that is not empty, does
/// not end in a zero byte and holds no 00 00 01, splits into exactly those units, in order.
pub proof fn lemma_split_stream(scs: Seq<Seq<u8>>, ns: Seq<Seq<u8>>)
    requires
        scs.len() == ns.len(),
        forall|i: int| 0 <= i < ns.len() ==> is_start_code(#[trigger] scs[i]) && separable_unit(ns[i]),
    ensures
        nalu_texts(annexb_stream(scs, ns)) == ns,
{
    lemma_scan_stream(scs, ns);
}

/// The NAL units of an Annex B stream, split at its 3- and 4-byte start codes.
pub fn split_nalus(data: &[u8]) -> (nalus: Vec<&[u8]>)
    ensures
        nalus@.len() == nalu_ranges(data@).len(),
        forall|k: int|
            0 <= k < nalus@.len() ==> (#[trigger] nalus@[k])@ == nalu_texts(data@)[k],
        forall|k: int| 0 <= k < nalus@.len() ==> (#[trigger] nalus@[k])@.len() > 0,
{
    let ghost d = data@;
    let mut nalus: Vec<&[u8]> = Vec::new();
    let ghost mut ranges: Seq<(int, int)> = Seq::empty();
    let n = data.len();
    let mut i: usize = 0;
    let mut nal_start: Option<usize> = None;
    proof {
        lemma_nalu_scan_wf(d, 0, None);
    }
    while n > 3 && i < n - 3
        invariant
            n == d.len(),
            d == data@,
            nal_start matches Some(s) ==> s <= i,
            ranges + nalu_scan(d, i as int, match nal_start {
                Some(s) => Some(s as int),
                None => None,
            }) == nalu_ranges(d),
            nalus@.len() == ranges.len(),
            forall|k: int|
                0 <= k < ranges.len() ==> (#[trigger] nalus@[k])@ == d.subrange(
                    ranges[k].0,
                    ranges[k].1,
                ),
        decreases n - i,
    {
        let ghost st = match nal_start {
            Some(s) => Some(s as int),
            None => None,
        };
        let sc_len: usize = if data[i] == 0 && data[i + 1] == 0 && data[i + 2] == 0 && data[i
            + 3] == 1 {
            4
        } else if data[i] == 0 && data[i + 1] == 0 && data[i + 2] == 1 {
            3
        } else {
            0
        };
        assert(sc_len == start_code_len(d, i as int));
        if sc_len > 0 {
            let ghost here = match st {
                Some(s) => if i > s {
                    seq![(s, i as int)]
                } else {
                    Seq::empty()
                },
                None => Seq::empty(),
            };
            match nal_start {
                Some(start) => {
                    if i > start {
                        nalus.push(&data[start..i]);
                    }
                },
                None => {},
            }
            proof {
                assert(ranges + nalu_scan(d, i as int, st) == ranges + (here + nalu_scan(
                    d,
                    i + sc_len,
                    Some(i + sc_len),
                )));
                assert(ranges + (here + nalu_scan(d, i + sc_len, Some(i + sc_len))) =~= (ranges
                    + here) + nalu_scan(d, i + sc_len, Some(i + sc_len)));
                ranges = ranges + here;
            }
            nal_start = Some(i + sc_len);
            i += sc_len;
        } else {
            i += 1;
        }
    }
    let ghost st = match nal_start {
        Some(s) => Some(s as int),
        None => None,
    };
    match nal_start {
        Some(start) => {
            if start < n {
                nalus.push(&data[start..n]);
                proof {
                    ranges = ranges.push((start as int, n as int));
                }
            }
        },
        None => {},
    }
    proof {
        assert(ranges =~= nalu_ranges(d));
        assert forall|k: int| 0 <= k < nalus@.len() implies (#[trigger] nalus@[k])@.len() > 0 by {
            let r = nalu_scan(d, 0, None)[k];
            assert(0 <= r.0 < r.1 <= d.len());
        }
    }
    nalus
}

/// The header of an H.264 RTP packet: version 2, no padding, extension or CSRCs.
pub open spec fn h264_header(payload_type: u8, marker: bool, seq: u16, timestamp: u32, ssrc: u32) -> RtpHeader {
    RtpHeader {
        version: 2,
        padding: false,
        extension: false,
        csrc_count: 0,
        marker,
        payload_type,
        seq,
        timestamp,
        ssrc,
    }
}

/// The sequence number `n` packets after `s`, wrapping at 65536.
pub open spec fn seq_add(s: u16, n: nat) -> u16 {
    ((s + n) % 65536) as u16
}

/// The FU-A fragments of `nal` from byte `offset` on, each carrying at most `max_frag` bytes
/// after the FU indicator (the unit's F and NRI bits, type 28) and the FU header (start bit,
/// end bit, the unit's type). The marker is set on the last fragment of the last unit of
/// the access unit.
pub open spec fn fu_fragments(
    nal: Seq<u8>,
    offset: int,
    first: bool,
    last_nal: bool,
    payload_type: u8,
    seq: u16,
    timestamp: u32,
    ssrc: u32,
    max_frag: int,
) -> Seq<Seq<u8>>
    decreases nal.len() - offset,
{
    if 0 < max_frag && 0 < offset < nal.len() {
        let remaining = nal.len() - offset;
        let frag = if remaining < max_frag {
            remaining
        } else {
            max_frag
        };
        let last = offset + frag >= nal.len();
        let fu_indicator = ((nal[0] & 0xE0u8) | 28u8) as u8;
        let fu_header = ((bit(first) << 7u8) | (bit(last) << 6u8) | (nal[0] & 0x1Fu8)) as u8;
        let pkt = rtp_header_bytes(h264_header(payload_type, last && last_nal, seq, timestamp, ssrc))
            + seq![fu_indicator, fu_header] + nal.subrange(offset, offset + frag);
        seq![pkt] + fu_fragments(
            nal,
            offset + frag,
            false,
            last_nal,
            payload_type,
            next_seq(seq),
            timestamp,
            ssrc,
            max_frag,
        )
    } else {
        Seq::empty()
    }
}

/// The packets of one NAL unit: one packet when header and unit fit the MTU, else FU-A
/// fragments of at most `mtu - 14` bytes each, none when that is zero.
pub open spec fn nal_packets(
    nal: Seq<u8>,
    last_nal: bool,
    payload_type: u8,
    seq: u16,
    timestamp: u32,
    ssrc: u32,
    mtu: int,
) -> Seq<Seq<u8>> {
    if nal.len() == 0 {
        Seq::empty()
    } else if 12 + nal.len() <= mtu {
        seq![rtp_header_bytes(h264_header(payload_type, last_nal, seq, timestamp, ssrc)) + nal]
    } else {
        let max_frag = if mtu >= 14 {
            mtu - 14
        } else {
            0
        };
        fu_fragments(nal, 1, true, last_nal, payload_type, seq, timestamp, ssrc, max_frag)
    }
}

/// The packets of the NAL units `nalus[k..]` of one access unit, numbered from `seq`.
pub open spec fn frame_packets(
    nalus: Seq<Seq<u8>>,
    k: int,
    payload_type: u8,
    seq: u16,
    timestamp: u32,
    ssrc: u32,
    mtu: int,
) -> Seq<Seq<u8>>
    decreases nalus.len() - k,
{
    if 0 <= k < nalus.len() {
        let p = nal_packets(nalus[k], k == nalus.len() - 1, payload_type, seq, timestamp, ssrc, mtu);
        p + frame_packets(nalus, k + 1, payload_type, seq_add(seq, p.len()), timestamp, ssrc, mtu)
    } else {
        Seq::empty()
    }
}

/// The byte contents of a list of packets.
pub open spec fn byte_seqs(v: Seq<Vec<u8>>) -> Seq<Seq<u8>> {
    v.map_values(|p: Vec<u8>| p@)
}

pub(crate) proof fn lemma_seq_add_next(s: u16, n: nat)
    ensures
        next_seq(seq_add(s, n)) == seq_add(s, n + 1),
        seq_add(s, 0) == s,
{
    assert(((s + n) % 65536) + 1 == 65536 ==> (s + n + 1) % 65536 == 0);
    assert(((s + n) % 65536) + 1 < 65536 ==> (s + n + 1) % 65536 == (s + n) % 65536 + 1);
}

proof fn lemma_seq_add_add(s: u16, a: nat, b: nat)
    ensures
        seq_add(seq_add(s, a), b) == seq_add(s, a + b),
{
    let x = s + a;
    assert((x % 65536 + b) % 65536 == (x + b) % 65536) by {
        vstd::arithmetic::div_mod::lemma_add_mod_noop(x, b as int, 65536);
        vstd::arithmetic::div_mod::lemma_mod_twice(b as int, 65536);
        vstd::arithmetic::div_mod::lemma_add_mod_noop(x % 65536, b as int, 65536);
    }
}

/// Packetizer of H.264 access units.
pub struct H264RtpPacketizer {
    pub mtu: usize,
    pub payload_type: u8,
    pub seq: u16,
    pub ssrc: u32,
}

impl H264RtpPacketizer {
    /// A packetizer that starts numbering packets at `initial_seq`.
    pub fn new(mtu: usize, payload_type: u8, initial_seq: u16, ssrc: u32) -> (p: Self)
        ensures
            p.mtu == mtu,
            p.payload_type == payload_type,
            p.seq == initial_seq,
            p.ssrc == ssrc,
    {
        Self { mtu, payload_type, seq: initial_seq, ssrc }
    }

    /// One packet per FU-A fragment of `nal`, appended to `packets`.
    fn push_fragments(
        &mut self,
        packets: &mut Vec<Vec<u8>>,
        nal: &[u8],
        last_nal: bool,
        timestamp: u32,
        max_frag: usize,
    )
        requires
            max_frag > 0,
            nal@.len() > 0,
        ensures
            byte_seqs(final(packets)@) == byte_seqs(old(packets)@) + fu_fragments(
                nal@,
                1,
                true,
                last_nal,
                old(self).payload_type,
                old(self).seq,
                timestamp,
                old(self).ssrc,
                max_frag as int,
            ),
            final(self).seq == seq_add(
                old(self).seq,
                (final(packets)@.len() - old(packets)@.len()) as nat,
            ),
            final(self).mtu == old(self).mtu,
            final(self).payload_type == old(self).payload_type,
            final(self).ssrc == old(self).ssrc,
    {
        let nal_len = nal.len();
        let nal_hdr = nal[0];
        let f_nri = nal_hdr & 0xE0;
        let nal_type = nal_hdr & 0x1F;
        let fu_indicator = f_nri | 28;
        let mut offset: usize = 1;
        let mut first = true;
        let ghost seq0 = self.seq;
        let ghost start_len = packets@.len();
        proof {
            lemma_seq_add_next(seq0, 0);
            assert(byte_seqs(packets@) + fu_fragments(nal@, 1, true, last_nal, self.payload_type, seq0, timestamp, self.ssrc, max_frag as int) =~= byte_seqs(old(packets)@) + fu_fragments(nal@, 1, true, last_nal, self.payload_type, seq0, timestamp, self.ssrc, max_frag as int));
        }
        while offset < nal_len
            invariant
                nal_len == nal@.len(),
                nal_hdr == nal@[0],
                f_nri == nal_hdr & 0xE0,
                nal_type == nal_hdr & 0x1F,
                fu_indicator == f_nri | 28,
                0 < offset <= nal_len,
                max_frag > 0,
                first == (offset == 1),
                start_len == old(packets)@.len(),
                packets@.len() >= start_len,
                self.seq == seq_add(seq0, (packets@.len() - start_len) as nat),
                self.mtu == old(self).mtu,
                self.payload_type == old(self).payload_type,
                self.ssrc == old(self).ssrc,
                seq0 == old(self).seq,
                byte_seqs(packets@) + fu_fragments(
                    nal@,
                    offset as int,
                    first,
                    last_nal,
                    self.payload_type,
                    self.seq,
                    timestamp,
                    self.ssrc,
                    max_frag as int,
                ) == byte_seqs(old(packets)@) + fu_fragments(
                    nal@,
                    1,
                    true,
                    last_nal,
                    self.payload_type,
                    seq0,
                    timestamp,
                    self.ssrc,
                    max_frag as int,
                ),
            decreases nal_len - offset,
        {
            let remaining = nal_len - offset;
            let frag_size = if remaining < max_frag {
                remaining
            } else {
                max_frag
            };
            let last = offset + frag_size >= nal_len;
            let fu_header = (bit_exec(first) << 7u8) | (bit_exec(last) << 6u8) | nal_type;
            let marker = last && last_nal;
            let params = RtpParams { version: 2, padding: false, extension: false, csrc_count: 0 };
            let header = RtpHeader::new(params, marker, self.payload_type, self.seq, timestamp, self.ssrc);
            let ghost seq_before = self.seq;
            self.seq = seq_next(self.seq);
            let mut pkt: Vec<u8> = Vec::new();
            let hb = header.to_bytes();
            push_all(&mut pkt, &hb);
            pkt.push(fu_indicator);
            pkt.push(fu_header);
            push_all(&mut pkt, &nal[offset..offset + frag_size]);
            let ghost before = packets@;
            packets.push(pkt);
            proof {
                let frag_spec = fu_fragments(nal@, offset as int, first, last_nal, self.payload_type, seq_before, timestamp, self.ssrc, max_frag as int);
                assert(header == h264_header(self.payload_type, marker, seq_before, timestamp, self.ssrc));
                assert(pkt@ =~= rtp_header_bytes(h264_header(self.payload_type, last && last_nal, seq_before, timestamp, self.ssrc)) + seq![((nal@[0] & 0xE0u8) | 28u8) as u8, ((bit(first) << 7u8) | (bit(last) << 6u8) | (nal@[0] & 0x1Fu8)) as u8] + nal@.subrange(offset as int, offset + frag_size));
                assert(frag_spec == seq![pkt@] + fu_fragments(nal@, offset + frag_size, false, last_nal, self.payload_type, next_seq(seq_before), timestamp, self.ssrc, max_frag as int));
                assert(byte_seqs(packets@) =~= byte_seqs(before).push(pkt@));
                assert(byte_seqs(before) + frag_spec =~= byte_seqs(packets@) + fu_fragments(nal@, offset + frag_size, false, last_nal, self.payload_type, next_seq(seq_before), timestamp, self.ssrc, max_frag as int));
                lemma_seq_add_next(seq0, (before.len() - start_len) as nat);
            }
            offset += frag_size;
            first = false;
        }
        proof {
            assert(byte_seqs(packets@) =~= byte_seqs(packets@) + fu_fragments(nal@, offset as int, first, last_nal, self.payload_type, self.seq, timestamp, self.ssrc, max_frag as int));
        }
    }

    /// The RTP packets of one access unit given as an Annex B stream; every packet carries
    /// `timestamp`, the marker is set on the last packet of the last NAL unit, and the
    /// sequence number advances by one per packet.
    pub fn packetize_frame(&mut self, bitstream: &[u8], timestamp: u32) -> (packets: Vec<Vec<u8>>)
        ensures
            byte_seqs(packets@) == frame_packets(
                nalu_texts(bitstream@),
                0,
                old(self).payload_type,
                old(self).seq,
                timestamp,
                old(self).ssrc,
                old(self).mtu as int,
            ),
            final(self).seq == seq_add(old(self).seq, packets@.len()),
            final(self).mtu == old(self).mtu,
            final(self).payload_type == old(self).payload_type,
            final(self).ssrc == old(self).ssrc,
    {
        let nalus = split_nalus(bitstream);
        let ghost texts = nalu_texts(bitstream@);
        let mut packets: Vec<Vec<u8>> = Vec::new();
        let ghost seq0 = self.seq;
        proof {
            lemma_seq_add_next(seq0, 0);
        }
        if nalus.len() == 0 {
            return packets;
        }
        let count = nalus.len();
        let mut k: usize = 0;
        while k < count
            invariant
                count == nalus@.len() == texts.len(),
                forall|j: int| 0 <= j < count ==> (#[trigger] nalus@[j])@ == texts[j],
                k <= count,
                self.seq == seq_add(seq0, packets@.len()),
                self.mtu == old(self).mtu,
                self.payload_type == old(self).payload_type,
                self.ssrc == old(self).ssrc,
                seq0 == old(self).seq,
                byte_seqs(packets@) + frame_packets(texts, k as int, self.payload_type, self.seq, timestamp, self.ssrc, self.mtu as int)
                    == frame_packets(texts, 0, self.payload_type, seq0, timestamp, self.ssrc, self.mtu as int),
            decreases count - k,
        {
            let nal = nalus[k];
            let last_nal_of_au = k == count - 1;
            let nal_len = nal.len();
            let ghost before = packets@;
            let ghost seq_before = self.seq;
            let ghost p = nal_packets(texts[k as int], last_nal_of_au, self.payload_type, seq_before, timestamp, self.ssrc, self.mtu as int);
            if nal_len == 0 {
            } else if self.mtu >= 12 && nal_len <= self.mtu - 12 {
                let params = RtpParams { version: 2, padding: false, extension: false, csrc_count: 0 };
                let header = RtpHeader::new(params, last_nal_of_au, self.payload_type, self.seq, timestamp, self.ssrc);
                self.seq = seq_next(self.seq);
                let mut pkt: Vec<u8> = Vec::new();
                let hb = header.to_bytes();
                push_all(&mut pkt, &hb);
                push_all(&mut pkt, nal);
                packets.push(pkt);
                proof {
                    assert(header == h264_header(self.payload_type, last_nal_of_au, seq_before, timestamp, self.ssrc));
                    assert(p == seq![pkt@]);
                    assert(byte_seqs(packets@) =~= byte_seqs(before) + p);
                    lemma_seq_add_next(seq0, before.len());
                }
            } else {
                let max_frag: usize = if self.mtu >= 14 {
                    self.mtu - 14
                } else {
                    0
                };
                if max_frag > 0 {
                    self.push_fragments(&mut packets, nal, last_nal_of_au, timestamp, max_frag);
                    proof {
                        assert(byte_seqs(packets@) =~= byte_seqs(before) + p);
                        lemma_seq_add_add(seq0, before.len(), (packets@.len() - before.len()) as nat);
                    }
                } else {
                    proof {
                        assert(p =~= Seq::<Seq<u8>>::empty());
                        assert(byte_seqs(packets@) =~= byte_seqs(before) + p);
                    }
                }
            }
            proof {
                assert(byte_seqs(packets@) =~= byte_seqs(before) + p);
                assert(p.len() == packets@.len() - before.len());
                assert(self.seq == seq_add(seq_before, p.len()));
                assert(frame_packets(texts, k as int, self.payload_type, seq_before, timestamp, self.ssrc, self.mtu as int)
                    == p + frame_packets(texts, k + 1, self.payload_type, seq_add(seq_before, p.len()), timestamp, self.ssrc, self.mtu as int));
                assert(byte_seqs(before) + (p + frame_packets(texts, k + 1, self.payload_type, self.seq, timestamp, self.ssrc, self.mtu as int))
                    =~= byte_seqs(packets@) + frame_packets(texts, k + 1, self.payload_type, self.seq, timestamp, self.ssrc, self.mtu as int));
            }
            k += 1;
        }
        proof {
            assert(byte_seqs(packets@) =~= byte_seqs(packets@) + frame_packets(texts, k as int, self.payload_type, self.seq, timestamp, self.ssrc, self.mtu as int));
        }
        packets
    }
}

/// A FU-A unit being reassembled: the bytes gathered so far and the sequence number of the
/// last fragment.
struct FuState {
    ssrc: u32,
    timestamp: u32,
    buf: Vec<u8>,
    last_seq: u16,
}

/// Every reassembly holds at least the reconstructed NAL header.
spec fn entries_wf(e: Seq<FuState>) -> bool {
    forall|i: int| 0 <= i < e.len() ==> (#[trigger] e[i]).buf@.len() > 0
}

/// The key of a reassembly: synchronization source and timestamp.
spec fn fu_key(e: FuState) -> (u32, u32) {
    (e.ssrc, e.timestamp)
}

/// What a reassembly holds: the bytes gathered so far and the last sequence number.
spec fn fu_val(e: FuState) -> (Seq<u8>, u16) {
    (e.buf@, e.last_seq)
}

/// The reassemblies a list of entries describes; a later entry for a key overrides an
/// earlier one.
spec fn fu_map(e: Seq<FuState>) -> Map<(u32, u32), (Seq<u8>, u16)>
    decreases e.len(),
{
    if e.len() == 0 {
        Map::empty()
    } else {
        fu_map(e.drop_last()).insert(fu_key(e.last()), fu_val(e.last()))
    }
}

/// Whether the reassembly with key `k` is dropped when reassemblies of timestamp `ts` (and,
/// when `ssrc` is given, of that source only) are discarded.
pub open spec fn fu_drops(k: (u32, u32), ts: u32, ssrc: Option<u32>) -> bool {
    k.1 == ts && match ssrc {
        Some(s) => k.0 == s,
        None => true,
    }
}

/// The reassemblies of `m` that are not dropped.
pub open spec fn fu_keep(m: Map<(u32, u32), (Seq<u8>, u16)>, ts: u32, ssrc: Option<u32>) -> Map<
    (u32, u32),
    (Seq<u8>, u16),
> {
    Map::new(|k: (u32, u32)| m.dom().contains(k) && !fu_drops(k, ts, ssrc), |k: (u32, u32)| m[k])
}

/// The reassemblies of `m` whose timestamp is not `ts`.
pub open spec fn fu_without_ts(m: Map<(u32, u32), (Seq<u8>, u16)>, ts: u32) -> Map<
    (u32, u32),
    (Seq<u8>, u16),
> {
    fu_keep(m, ts, None)
}

proof fn lemma_fu_map_finite(e: Seq<FuState>)
    ensures
        fu_map(e).dom().finite(),
    decreases e.len(),
{
    if e.len() > 0 {
        lemma_fu_map_finite(e.drop_last());
    }
}

/// The value of a key in `fu_map(e)` is that of its last entry, and a key with no entry is
/// absent.
proof fn lemma_fu_map_lookup(e: Seq<FuState>, k: (u32, u32))
    ensures
        (forall|j: int| 0 <= j < e.len() ==> fu_key(#[trigger] e[j]) != k) ==> !fu_map(
            e,
        ).dom().contains(k),
        forall|i: int|
            0 <= i < e.len() && fu_key(#[trigger] e[i]) == k && (forall|j: int|
                i < j < e.len() ==> fu_key(#[trigger] e[j]) != k) ==> fu_map(e).dom().contains(k)
                && fu_map(e)[k] == fu_val(e[i]),
    decreases e.len(),
{
    if e.len() > 0 {
        let p = e.drop_last();
        lemma_fu_map_lookup(p, k);
        assert forall|i: int|
            0 <= i < e.len() && fu_key(#[trigger] e[i]) == k && (forall|j: int|
                i < j < e.len() ==> fu_key(#[trigger] e[j]) != k) implies fu_map(e).dom().contains(k)
            && fu_map(e)[k] == fu_val(e[i]) by {
            if i < e.len() - 1 {
                assert(fu_key(e[e.len() - 1]) != k);
                assert(p[i] == e[i]);
                assert forall|j: int| i < j < p.len() implies fu_key(#[trigger] p[j]) != k by {
                    assert(p[j] == e[j]);
                }
            }
        }
        if forall|j: int| 0 <= j < e.len() ==> fu_key(#[trigger] e[j]) != k {
            assert forall|j: int| 0 <= j < p.len() implies fu_key(#[trigger] p[j]) != k by {
                assert(p[j] == e[j]);
            }
            assert(fu_key(e[e.len() - 1]) != k);
        }
    }
}

/// The 4-byte Annex B start code followed by each unit of `au`, in order.
pub open spec fn annexb(au: Seq<Seq<u8>>) -> Seq<u8>
    decreases au.len(),
{
    if au.len() == 0 {
        Seq::empty()
    } else {
        annexb(au.drop_last()) + seq![0u8, 0u8, 0u8, 1u8] + au.last()
    }
}

/// Whether a NAL unit type is a coded slice (non-IDR or IDR).
pub open spec fn is_vcl(t: u8) -> bool {
    t == 1 || t == 5
}

/// The units of a STAP-A payload read from `off` on, and whether a coded slice was seen:
/// each unit is a 16-bit size and that many bytes; reading stops at a size that overruns
/// the payload. The type tested is that of the byte just after the size field.
pub open spec fn stap_scan(p: Seq<u8>, off: int) -> (Seq<Seq<u8>>, bool)
    decreases p.len() - off,
{
    if 0 <= off && off + 2 <= p.len() {
        let size = get_be16(p, off) as int;
        let o = off + 2;
        if o + size > p.len() {
            (Seq::empty(), false)
        } else {
            let rest = stap_scan(p, o + size);
            (seq![p.subrange(o, o + size)] + rest.0, is_vcl(p[o] & 0x1Fu8) || rest.1)
        }
    } else {
        (Seq::empty(), false)
    }
}

/// Whether reading a STAP-A payload from `off` on stays inside it: a unit of size zero at
/// the very end would have its type byte read past the end.
pub open spec fn stap_in_bounds(p: Seq<u8>, off: int) -> bool
    decreases p.len() - off,
{
    if 0 <= off && off + 2 <= p.len() {
        let size = get_be16(p, off) as int;
        let o = off + 2;
        if o + size > p.len() {
            true
        } else {
            o < p.len() && stap_in_bounds(p, o + size)
        }
    } else {
        true
    }
}

/// Whether the depacketizer can take `payload` without reading past its end.
pub open spec fn payload_in_bounds(payload: Seq<u8>) -> bool {
    payload.len() > 0 && payload[0] & 0x1Fu8 == 24 ==> stap_in_bounds(payload, 1)
}

/// Whether the depacketizer can take `payload` (see `payload_in_bounds`).
pub fn payload_fits(payload: &[u8]) -> (b: bool)
    ensures
        b == payload_in_bounds(payload@),
{
    if payload.len() == 0 || payload[0] & 0x1Fu8 != 24 {
        return true;
    }
    let mut off: usize = 1;
    loop
        invariant
            1 <= off,
            payload@.len() > 0 && payload@[0] & 0x1Fu8 == 24,
            payload_in_bounds(payload@) == stap_in_bounds(payload@, off as int),
        decreases payload@.len() + 2 - off,
    {
        if payload.len() < off || payload.len() - off < 2 {
            return true;
        }
        let size = read_be16(payload, off) as usize;
        let o = off + 2;
        if size > payload.len() - o {
            return true;
        }
        if o >= payload.len() {
            return false;
        }
        off = o + size;
    }
}

/// The state of a depacketizer: the timestamp of the access unit being gathered, its NAL
/// units so far, the FU-A reassemblies in progress, and whether a coded slice was seen.
pub struct DepackState {
    pub timestamp: Option<u32>,
    pub au: Seq<Seq<u8>>,
    pub fu: Map<(u32, u32), (Seq<u8>, u16)>,
    pub have_vcl: bool,
}

/// A packet with a new timestamp starts a new access unit, discarding the reassemblies of
/// the previous one.
pub open spec fn depack_begin(s: DepackState, ts: u32) -> DepackState {
    if s.timestamp == Some(ts) {
        s
    } else {
        DepackState {
            timestamp: Some(ts),
            au: Seq::empty(),
            fu: match s.timestamp {
                Some(p) => fu_without_ts(s.fu, p),
                None => s.fu,
            },
            have_vcl: false,
        }
    }
}

/// The effect of a FU-A payload (of at least two bytes): a start fragment opens a
/// reassembly; a continuation is appended when its sequence number follows the last one,
/// and otherwise the reassembly is dropped; the end fragment completes the unit.
pub open spec fn fu_step(s: DepackState, hdr: RtpHeader, payload: Seq<u8>) -> DepackState {
    let key = (hdr.ssrc, hdr.timestamp);
    let start = payload[1] & 0x80u8 != 0;
    let end = payload[1] & 0x40u8 != 0;
    let rh = ((payload[0] & 0xE0u8) | (payload[1] & 0x1Fu8)) as u8;
    let frag = payload.subrange(2, payload.len() as int);
    if start {
        DepackState { fu: s.fu.insert(key, (seq![rh] + frag, hdr.seq)), ..s }
    } else if s.fu.dom().contains(key) {
        let (b, ls) = s.fu[key];
        if hdr.seq == next_seq(ls) {
            let nb = b + frag;
            if end {
                DepackState {
                    fu: s.fu.remove(key),
                    au: s.au.push(nb),
                    have_vcl: s.have_vcl || is_vcl(nb[0] & 0x1Fu8),
                    ..s
                }
            } else {
                DepackState { fu: s.fu.insert(key, (nb, hdr.seq)), ..s }
            }
        } else {
            DepackState { fu: s.fu.remove(key), ..s }
        }
    } else {
        s
    }
}

/// What the depacketizer does with one packet: the next state, and the access unit in
/// Annex B form when the packet has the marker, a coded slice was seen, and the unit is not
/// empty. A marker packet also discards the reassemblies of its timestamp.
pub open spec fn depack_step(s: DepackState, hdr: RtpHeader, payload: Seq<u8>) -> (
    DepackState,
    Option<Seq<u8>>,
) {
    if payload.len() == 0 {
        (s, None)
    } else {
        let s1 = depack_begin(s, hdr.timestamp);
        let t = payload[0] & 0x1Fu8;
        if t == 28 && payload.len() < 2 {
            (s1, None)
        } else {
            let s2 = if 1 <= t <= 23 {
                DepackState { au: s1.au.push(payload), have_vcl: s1.have_vcl || is_vcl(t), ..s1 }
            } else if t == 24 {
                let (units, v) = stap_scan(payload, 1);
                DepackState { au: s1.au + units, have_vcl: s1.have_vcl || v, ..s1 }
            } else if t == 28 {
                fu_step(s1, hdr, payload)
            } else {
                s1
            };
            if hdr.marker {
                let out = if s2.have_vcl {
                    annexb(s2.au)
                } else {
                    Seq::empty()
                };
                let s3 = DepackState {
                    au: if s2.have_vcl {
                        Seq::empty()
                    } else {
                        s2.au
                    },
                    fu: fu_without_ts(s2.fu, hdr.timestamp),
                    ..s2
                };
                (s3, if out.len() > 0 {
                    Some(out)
                } else {
                    None
                })
            } else {
                (s2, None)
            }
        }
    }
}

/// Reassembler of H.264 access units from RTP payloads.
pub struct H264RtpDepacketizer {
    current_timestamp: Option<u32>,
    au_nalus: Vec<Vec<u8>>,
    fu_state: Vec<FuState>,
    have_vcl: bool,
}

impl Default for H264RtpDepacketizer {
    fn default() -> (d: Self)
        ensures
            d.state() == H264RtpDepacketizer::initial_state(),
            d.wf(),
    {
        Self::new()
    }
}

impl H264RtpDepacketizer {
    /// The state of this depacketizer.
    pub closed spec fn state(self) -> DepackState {
        DepackState {
            timestamp: self.current_timestamp,
            au: byte_seqs(self.au_nalus@),
            fu: fu_map(self.fu_state@),
            have_vcl: self.have_vcl,
        }
    }

    /// Every reassembly in progress holds at least its NAL header.
    pub closed spec fn wf(self) -> bool {
        entries_wf(self.fu_state@)
    }

    /// The state of a new depacketizer: nothing gathered.
    pub open spec fn initial_state() -> DepackState {
        DepackState { timestamp: None, au: Seq::empty(), fu: Map::empty(), have_vcl: false }
    }

    /// A depacketizer with nothing gathered.
    pub fn new() -> (d: Self)
        ensures
            d.state() == Self::initial_state(),
            d.wf(),
    {
        let d = Self { current_timestamp: None, au_nalus: Vec::new(), fu_state: Vec::new(), have_vcl: false };
        assert(byte_seqs(d.au_nalus@) =~= Seq::<Seq<u8>>::empty());
        assert(fu_map(d.fu_state@) =~= Map::<(u32, u32), (Seq<u8>, u16)>::empty());
        d
    }

    /// Drops the reassemblies of timestamp `ts` (of source `ssrc` only, when given).
    fn fu_drop(&mut self, ts: u32, ssrc: Option<u32>)
        ensures
            fu_map(final(self).fu_state@) == fu_keep(fu_map(old(self).fu_state@), ts, ssrc),
            entries_wf(old(self).fu_state@) ==> entries_wf(final(self).fu_state@),
            final(self).current_timestamp == old(self).current_timestamp,
            final(self).au_nalus@ == old(self).au_nalus@,
            final(self).have_vcl == old(self).have_vcl,
    {
        let ghost orig = self.fu_state@;
        let mut i: usize = 0;
        let ghost mut j: int = 0;
        proof {
            assert(self.fu_state@.take(0) =~= Seq::<FuState>::empty());
            assert(orig.take(0) =~= Seq::<FuState>::empty());
            assert(fu_keep(Map::empty(), ts, ssrc) =~= Map::<(u32, u32), (Seq<u8>, u16)>::empty());
        }
        while i < self.fu_state.len()
            invariant
                0 <= j <= orig.len(),
                i <= self.fu_state@.len(),
                self.fu_state@.subrange(i as int, self.fu_state@.len() as int) == orig.subrange(j, orig.len() as int),
                fu_map(self.fu_state@.take(i as int)) == fu_keep(fu_map(orig.take(j)), ts, ssrc),
                self.current_timestamp == old(self).current_timestamp,
                self.au_nalus@ == old(self).au_nalus@,
                self.have_vcl == old(self).have_vcl,
                orig == old(self).fu_state@,
                entries_wf(orig) ==> entries_wf(self.fu_state@),
            decreases self.fu_state@.len() - i,
        {
            let ghost e = self.fu_state@[i as int];
            let ghost before = self.fu_state@;
            proof {
                assert(before.subrange(i as int, before.len() as int).len() == orig.subrange(j, orig.len() as int).len());
                assert(j < orig.len());
                assert(e == orig[j]) by {
                    assert(before.subrange(i as int, before.len() as int)[0] == orig.subrange(j, orig.len() as int)[0]);
                }
                assert(orig.take(j + 1).drop_last() =~= orig.take(j));
                assert(orig.take(j + 1).last() == e);
            }
            let drops = self.fu_state[i].timestamp == ts && match ssrc {
                Some(s) => self.fu_state[i].ssrc == s,
                None => true,
            };
            if drops {
                self.fu_state.remove(i);
                proof {
                    assert(self.fu_state@.take(i as int) =~= before.take(i as int));
                    assert(self.fu_state@.subrange(i as int, self.fu_state@.len() as int) =~= orig.subrange(j + 1, orig.len() as int)) by {
                        assert(before.subrange(i as int, before.len() as int) == orig.subrange(j, orig.len() as int));
                        assert forall|x: int| 0 <= x < self.fu_state@.len() - i implies #[trigger] self.fu_state@.subrange(i as int, self.fu_state@.len() as int)[x] == orig.subrange(j + 1, orig.len() as int)[x] by {
                            assert(self.fu_state@[i + x] == before[i + x + 1]);
                            assert(before.subrange(i as int, before.len() as int)[x + 1] == orig.subrange(j, orig.len() as int)[x + 1]);
                        }
                    }
                    assert(fu_keep(fu_map(orig.take(j + 1)), ts, ssrc) =~= fu_keep(fu_map(orig.take(j)), ts, ssrc));
                    j = j + 1;
                }
            } else {
                proof {
                    assert(self.fu_state@.take(i + 1).drop_last() =~= self.fu_state@.take(i as int));
                    assert(self.fu_state@.take(i + 1).last() == e);
                    assert(fu_keep(fu_map(orig.take(j + 1)), ts, ssrc) =~= fu_keep(fu_map(orig.take(j)), ts, ssrc).insert(fu_key(e), fu_val(e)));
                    assert(self.fu_state@.subrange(i + 1, self.fu_state@.len() as int) =~= orig.subrange(j + 1, orig.len() as int)) by {
                        assert forall|x: int| 0 <= x < self.fu_state@.len() - i - 1 implies #[trigger] self.fu_state@.subrange(i + 1, self.fu_state@.len() as int)[x] == orig.subrange(j + 1, orig.len() as int)[x] by {
                            assert(self.fu_state@.subrange(i as int, self.fu_state@.len() as int)[x + 1] == orig.subrange(j, orig.len() as int)[x + 1]);
                        }
                    }
                    j = j + 1;
                }
                i += 1;
            }
        }
        proof {
            assert(self.fu_state@.take(i as int) =~= self.fu_state@);
            assert(orig.subrange(j, orig.len() as int).len() == 0);
            assert(orig.take(j) =~= orig);
        }
    }

    /// The index of the last entry for key (`ssrc`, `ts`), if any.
    fn fu_find(&self, ssrc: u32, ts: u32) -> (r: Option<usize>)
        ensures
            r is None ==> !fu_map(self.fu_state@).dom().contains((ssrc, ts)),
            r matches Some(i) ==> i < self.fu_state@.len() && fu_map(self.fu_state@).dom().contains((ssrc, ts))
                && fu_map(self.fu_state@)[(ssrc, ts)] == fu_val(self.fu_state@[i as int])
                && fu_key(self.fu_state@[i as int]) == (ssrc, ts),
    {
        let ghost e = self.fu_state@;
        let mut i = self.fu_state.len();
        proof {
            lemma_fu_map_lookup(e, (ssrc, ts));
        }
        while i > 0
            invariant
                e == self.fu_state@,
                i <= e.len(),
                forall|j: int| i <= j < e.len() ==> fu_key(#[trigger] e[j]) != (ssrc, ts),
            decreases i,
        {
            i -= 1;
            if self.fu_state[i].ssrc == ssrc && self.fu_state[i].timestamp == ts {
                proof {
                    lemma_fu_map_lookup(e, (ssrc, ts));
                    assert(fu_key(e[i as int]) == (ssrc, ts));
                }
                return Some(i);
            }
        }
        None
    }

    /// Adds a reassembly, replacing any other with the same key.
    fn fu_put(&mut self, entry: FuState)
        requires
            entry.buf@.len() > 0,
        ensures
            entries_wf(old(self).fu_state@) ==> entries_wf(final(self).fu_state@),
            fu_map(final(self).fu_state@) == fu_map(old(self).fu_state@).insert(fu_key(entry), fu_val(entry)),
            final(self).current_timestamp == old(self).current_timestamp,
            final(self).au_nalus@ == old(self).au_nalus@,
            final(self).have_vcl == old(self).have_vcl,
    {
        self.fu_drop(entry.timestamp, Some(entry.ssrc));
        let ghost before = self.fu_state@;
        self.fu_state.push(entry);
        proof {
            assert(self.fu_state@.drop_last() =~= before);
            assert(fu_map(self.fu_state@) =~= fu_map(old(self).fu_state@).insert(fu_key(entry), fu_val(entry)));
        }
    }

    /// Appends a NAL unit to the access unit being gathered.
    fn push_unit(&mut self, payload: &[u8], from: usize, to: usize)
        requires
            from <= to <= payload@.len(),
        ensures
            byte_seqs(final(self).au_nalus@) == byte_seqs(old(self).au_nalus@).push(payload@.subrange(from as int, to as int)),
            final(self).current_timestamp == old(self).current_timestamp,
            final(self).fu_state@ == old(self).fu_state@,
            final(self).have_vcl == old(self).have_vcl,
    {
        let mut nal: Vec<u8> = Vec::new();
        push_all(&mut nal, &payload[from..to]);
        self.au_nalus.push(nal);
        assert(byte_seqs(self.au_nalus@) =~= byte_seqs(old(self).au_nalus@).push(payload@.subrange(from as int, to as int)));
    }

    /// Takes one RTP packet; returns the access unit in Annex B form (4-byte start codes)
    /// when the packet completes it.
    pub fn push_rtp(&mut self, hdr: &RtpHeader, payload: &[u8]) -> (r: Option<Vec<u8>>)
        requires
            old(self).wf(),
            payload_in_bounds(payload@),
        ensures
            final(self).wf(),
            final(self).state() == depack_step(old(self).state(), *hdr, payload@).0,
            (match r {
                Some(v) => Some(v@),
                None => None,
            }) == depack_step(old(self).state(), *hdr, payload@).1,
    {
        let plen = payload.len();
        if plen == 0 {
            return None;
        }
        let ghost s0 = self.state();
        let same = match self.current_timestamp {
            Some(t) => t == hdr.timestamp,
            None => false,
        };
        if !same {
            match self.current_timestamp {
                Some(prev) => self.fu_drop(prev, None),
                None => {},
            }
            self.current_timestamp = Some(hdr.timestamp);
            self.au_nalus.clear();
            self.have_vcl = false;
        }
        let ghost s1 = depack_begin(s0, hdr.timestamp);
        assert(self.state() =~~= s1) by {
            assert(byte_seqs(self.au_nalus@) =~= s1.au);
        }
        let nal_header = payload[0];
        let nal_type = nal_header & 0x1F;
        if 1 <= nal_type && nal_type <= 23 {
            if nal_type == 1 || nal_type == 5 {
                self.have_vcl = true;
            }
            self.push_unit(payload, 0, plen);
            assert(payload@.subrange(0, plen as int) =~= payload@);
        } else if nal_type == 24 {
            self.read_stap(payload);
        } else if nal_type == 28 {
            if plen < 2 {
                return None;
            }
            self.read_fu(hdr, payload);
        }
        let ghost s2 = self.state();
        if hdr.marker {
            let mut out: Vec<u8> = Vec::new();
            if self.have_vcl {
                let mut k: usize = 0;
                proof {
                    assert(byte_seqs(self.au_nalus@).take(0) =~= Seq::<Seq<u8>>::empty());
                }
                while k < self.au_nalus.len()
                    invariant
                        k <= self.au_nalus@.len(),
                        self.state() == s2,
                        out@ == annexb(byte_seqs(self.au_nalus@).take(k as int)),
                    decreases self.au_nalus@.len() - k,
                {
                    out.push(0);
                    out.push(0);
                    out.push(0);
                    out.push(1);
                    push_all(&mut out, self.au_nalus[k].as_slice());
                    proof {
                        let au = byte_seqs(self.au_nalus@);
                        assert(au.take(k + 1).drop_last() =~= au.take(k as int));
                        assert(au.take(k + 1).last() == self.au_nalus@[k as int]@);
                    }
                    k += 1;
                    assert(out@ =~= annexb(byte_seqs(self.au_nalus@).take(k as int)));
                }
                assert(byte_seqs(self.au_nalus@).take(k as int) =~= byte_seqs(self.au_nalus@));
                self.au_nalus.clear();
            }
            self.fu_drop(hdr.timestamp, None);
            proof {
                assert(byte_seqs(self.au_nalus@) =~= (if s2.have_vcl {
                    Seq::<Seq<u8>>::empty()
                } else {
                    s2.au
                }));
                if !s2.have_vcl {
                    assert(out@ =~= Seq::<u8>::empty());
                }
            }
            if out.len() > 0 {
                return Some(out);
            }
        }
        None
    }

    /// Appends the units of a STAP-A payload.
    fn read_stap(&mut self, payload: &[u8])
        requires
            payload@.len() > 0,
            stap_in_bounds(payload@, 1),
        ensures
            final(self).fu_state@ == old(self).fu_state@,
            final(self).state() == (DepackState {
                au: old(self).state().au + stap_scan(payload@, 1).0,
                have_vcl: old(self).state().have_vcl || stap_scan(payload@, 1).1,
                ..old(self).state()
            }),
    {
        let plen = payload.len();
        let mut off: usize = 1;
        let ghost s0 = self.state();
        proof {
            assert(s0.au =~= s0.au + Seq::<Seq<u8>>::empty());
        }
        let ghost mut got: Seq<Seq<u8>> = Seq::empty();
        let ghost mut seen: bool = false;
        loop
            invariant
                plen == payload@.len(),
                1 <= off <= plen,
                stap_in_bounds(payload@, off as int),
                got + stap_scan(payload@, off as int).0 == stap_scan(payload@, 1).0,
                (seen || stap_scan(payload@, off as int).1) == stap_scan(payload@, 1).1,
                self.state() == (DepackState { au: s0.au + got, have_vcl: s0.have_vcl || seen, ..s0 }),
                self.fu_state@ == old(self).fu_state@,
            ensures
                self.fu_state@ == old(self).fu_state@,
                got == stap_scan(payload@, 1).0,
                seen == stap_scan(payload@, 1).1,
                self.state() == (DepackState { au: s0.au + got, have_vcl: s0.have_vcl || seen, ..s0 }),
            decreases plen - off,
        {
            if plen < 2 || off > plen - 2 {
                proof {
                    assert(got + Seq::<Seq<u8>>::empty() =~= got);
                }
                break;
            }
            let size = read_be16(payload, off) as usize;
            let o = off + 2;
            if size > plen - o {
                proof {
                    assert(got + Seq::<Seq<u8>>::empty() =~= got);
                }
                break;
            }
            let t = payload[o] & 0x1F;
            if t == 1 || t == 5 {
                self.have_vcl = true;
            }
            self.push_unit(payload, o, o + size);
            proof {
                let unit = payload@.subrange(o as int, o + size);
                let rest = stap_scan(payload@, o + size);
                assert(stap_scan(payload@, off as int) == (seq![unit] + rest.0, is_vcl(payload@[o as int] & 0x1Fu8) || rest.1));
                assert(got + (seq![unit] + rest.0) =~= got.push(unit) + rest.0);
                assert(s0.au + got.push(unit) =~= (s0.au + got).push(unit));
                got = got.push(unit);
                seen = seen || is_vcl(t);
            }
            off = o + size;
        }
    }

    /// Applies a FU-A payload of at least two bytes.
    fn read_fu(&mut self, hdr: &RtpHeader, payload: &[u8])
        requires
            payload@.len() >= 2,
            old(self).wf(),
        ensures
            final(self).wf(),
            final(self).state() == fu_step(old(self).state(), *hdr, payload@),
    {
        let plen = payload.len();
        let fu_indicator = payload[0];
        let fu_header = payload[1];
        let start = (fu_header & 0x80) != 0;
        let end = (fu_header & 0x40) != 0;
        let orig_type = fu_header & 0x1F;
        let f_nri = fu_indicator & 0xE0;
        let reconstructed_hdr = f_nri | orig_type;
        let ghost s0 = self.state();
        let ghost key = (hdr.ssrc, hdr.timestamp);
        let ghost frag = payload@.subrange(2, plen as int);
        if start {
            let mut buf: Vec<u8> = Vec::new();
            buf.push(reconstructed_hdr);
            push_all(&mut buf, &payload[2..plen]);
            let st = FuState { ssrc: hdr.ssrc, timestamp: hdr.timestamp, buf, last_seq: hdr.seq };
            assert(buf@ =~= seq![reconstructed_hdr] + frag);
            self.fu_put(st);
            assert(self.state() =~~= fu_step(s0, *hdr, payload@));
        } else {
            match self.fu_find(hdr.ssrc, hdr.timestamp) {
                None => {},
                Some(i) => {
                    let last_seq = self.fu_state[i].last_seq;
                    if hdr.seq == seq_next(last_seq) {
                        let mut nb: Vec<u8> = Vec::new();
                        push_all(&mut nb, self.fu_state[i].buf.as_slice());
                        push_all(&mut nb, &payload[2..plen]);
                        if end {
                            self.fu_drop(hdr.timestamp, Some(hdr.ssrc));
                            let t = nb[0] & 0x1F;
                            if t == 1 || t == 5 {
                                self.have_vcl = true;
                            }
                            let ghost before = self.au_nalus@;
                            let ghost nbv = nb@;
                            self.au_nalus.push(nb);
                            proof {
                                assert(byte_seqs(self.au_nalus@) =~= byte_seqs(before).push(nbv));
                                assert(fu_map(self.fu_state@) =~= s0.fu.remove(key));
                            }
                            assert(self.state() =~~= fu_step(s0, *hdr, payload@));
                        } else {
                            let st = FuState { ssrc: hdr.ssrc, timestamp: hdr.timestamp, buf: nb, last_seq: hdr.seq };
                            self.fu_put(st);
                            assert(self.state() =~~= fu_step(s0, *hdr, payload@));
                        }
                    } else {
                        self.fu_drop(hdr.timestamp, Some(hdr.ssrc));
                        assert(fu_map(self.fu_state@) =~= s0.fu.remove(key));
                        assert(self.state() =~~= fu_step(s0, *hdr, payload@));
                    }
                },
            }
        }
    }
}

/// What a depacketizer in state `s` makes of the packets `pkts`, each read as its 12-byte
/// header and the payload after it: the state after the last one, and what each one gave.
pub open spec fn feed(s: DepackState, pkts: Seq<Seq<u8>>) -> (DepackState, Seq<Option<Seq<u8>>>)
    decreases pkts.len(),
{
    if pkts.len() == 0 {
        (s, Seq::empty())
    } else {
        let (s1, outs) = feed(s, pkts.drop_last());
        let p = pkts.last();
        let (s2, o) = depack_step(s1, rtp_header_from_seq(p), p.subrange(12, p.len() as int));
        (s2, outs.push(o))
    }
}

/// Feeding two runs of packets is feeding the first, then the second.
proof fn lemma_feed_append(s: DepackState, a: Seq<Seq<u8>>, b: Seq<Seq<u8>>)
    ensures
        feed(s, a + b).0 == feed(feed(s, a).0, b).0,
        feed(s, a + b).1 == feed(s, a).1 + feed(feed(s, a).0, b).1,
    decreases b.len(),
{
    if b.len() == 0 {
        assert(a + b =~= a);
        assert(feed(s, a).1 + Seq::<Option<Seq<u8>>>::empty() =~= feed(s, a).1);
    } else {
        lemma_feed_append(s, a, b.drop_last());
        assert((a + b).drop_last() =~= a + b.drop_last());
        assert((a + b).last() == b.last());
        let m = feed(s, a);
        assert(feed(s, a).1 + feed(m.0, b).1 =~= (feed(s, a).1 + feed(m.0, b.drop_last()).1).push(
            feed(m.0, b).1.last(),
        ));
    }
}

/// A packet built from a header that fits its bits and a body is read back as that header
/// and that body.
proof fn lemma_packet_read(h: RtpHeader, body: Seq<u8>)
    requires
        rtp_header_fits(h),
    ensures
        rtp_header_from_seq(rtp_header_bytes(h) + body) == h,
        (rtp_header_bytes(h) + body).subrange(12, (rtp_header_bytes(h) + body).len() as int)
            == body,
{
    let x = rtp_header_bytes(h);
    let p = x + body;
    lemma_rtp_header_roundtrip(h);
    assert(x.len() == 12);
    assert forall|i: int| 0 <= i < 12 implies p[i] == x[i] by {}
    assert(rtp_header_from_seq(p) == rtp_header_from_seq(x));
    assert(p.subrange(12, p.len() as int) =~= body);
}

/// Feeding one packet.
proof fn lemma_feed_one(s: DepackState, p: Seq<u8>)
    ensures
        feed(s, seq![p]).0 == depack_step(s, rtp_header_from_seq(p), p.subrange(12, p.len() as int)).0,
        feed(s, seq![p]).1 == seq![depack_step(s, rtp_header_from_seq(p), p.subrange(12, p.len() as int)).1],
{
    assert(seq![p].drop_last() =~= Seq::<Seq<u8>>::empty());
    assert(feed(s, Seq::<Seq<u8>>::empty()) == (s, Seq::<Option<Seq<u8>>>::empty()));
    assert(Seq::<Option<Seq<u8>>>::empty().push(
        depack_step(s, rtp_header_from_seq(p), p.subrange(12, p.len() as int)).1,
    ) =~= seq![depack_step(s, rtp_header_from_seq(p), p.subrange(12, p.len() as int)).1]);
}

/// Whether a depacketizer is gathering the access unit of timestamp `ts`, with the units
/// `au` so far and `v` telling whether a coded slice was among them.
pub open spec fn gathering(s: DepackState, ts: u32, au: Seq<Seq<u8>>, v: bool) -> bool {
    &&& s.timestamp == Some(ts)
    &&& s.au == au
    &&& s.have_vcl == v
}

/// Whether some unit of `au` is a coded slice.
pub open spec fn any_vcl(au: Seq<Seq<u8>>) -> bool {
    exists|i: int| 0 <= i < au.len() && is_vcl(#[trigger] au[i][0] & 0x1Fu8)
}

/// Whether nothing came out.
pub open spec fn all_none(outs: Seq<Option<Seq<u8>>>) -> bool {
    forall|i: int| 0 <= i < outs.len() ==> outs[i] is None
}

/// The bits of the FU indicator and FU header of a fragment of a unit whose first byte
/// is `b`.
proof fn lemma_fu_bits(b: u8, first: bool, last: bool)
    ensures
        ({
            let ind = ((b & 0xE0u8) | 28u8) as u8;
            let hdr = ((bit(first) << 7u8) | (bit(last) << 6u8) | (b & 0x1Fu8)) as u8;
            &&& ind & 0x1Fu8 == 28
            &&& (hdr & 0x80u8 != 0) == first
            &&& (hdr & 0x40u8 != 0) == last
            &&& ((ind & 0xE0u8) | (hdr & 0x1Fu8)) as u8 == b
        }),
{
    let f = bit(first);
    let l = bit(last);
    assert(f < 2 && l < 2);
    assert(f < 2 && l < 2 ==> ({
        let ind = ((b & 0xE0u8) | 28u8) as u8;
        let hdr = ((f << 7u8) | (l << 6u8) | (b & 0x1Fu8)) as u8;
        &&& ind & 0x1Fu8 == 28
        &&& (hdr & 0x80u8 != 0) == (f == 1)
        &&& (hdr & 0x40u8 != 0) == (l == 1)
        &&& ((ind & 0xE0u8) | (hdr & 0x1Fu8)) as u8 == b
    })) by (bit_vector);
}

/// An Annex B stream of at least one unit is not empty.
proof fn lemma_annexb_nonempty(au: Seq<Seq<u8>>)
    requires
        au.len() > 0,
    ensures
        annexb(au).len() > 0,
{
}

/// The effect of the one packet of a unit that fits the MTU.
proof fn lemma_single_unit(
    s: DepackState,
    nal: Seq<u8>,
    last_nal: bool,
    pt: u8,
    seq: u16,
    ts: u32,
    ssrc: u32,
    au: Seq<Seq<u8>>,
    v: bool,
)
    requires
        gathering(depack_begin(s, ts), ts, au, v),
        nal.len() > 0,
        1 <= nal[0] & 0x1Fu8 <= 23,
        pt < 128,
    ensures
        ({
            let r = feed(s, seq![rtp_header_bytes(h264_header(pt, last_nal, seq, ts, ssrc)) + nal]);
            let v2 = v || is_vcl(nal[0] & 0x1Fu8);
            &&& r.1.len() == 1
            &&& !last_nal ==> gathering(r.0, ts, au.push(nal), v2) && r.1[0] is None
            &&& last_nal ==> r.1[0] == (if v2 {
                Some(annexb(au.push(nal)))
            } else {
                None
            })
        }),
{
    let h = h264_header(pt, last_nal, seq, ts, ssrc);
    let pkt = rtp_header_bytes(h) + nal;
    lemma_packet_read(h, nal);
    lemma_feed_one(s, pkt);
    lemma_annexb_nonempty(au.push(nal));
}

/// The effect of the FU-A fragments of a unit from byte `offset` on: nothing comes out
/// until the unit is complete; then it joins the access unit, which comes out if this was
/// the last unit and a coded slice was seen.
#[verifier::spinoff_prover]
#[verifier::rlimit(30)]
proof fn lemma_fu_unit(
    s: DepackState,
    nal: Seq<u8>,
    offset: int,
    first: bool,
    last_nal: bool,
    pt: u8,
    seq: u16,
    prev_seq: u16,
    ts: u32,
    ssrc: u32,
    max_frag: int,
    au: Seq<Seq<u8>>,
    v: bool,
)
    requires
        1 <= offset < nal.len(),
        1 <= max_frag,
        pt < 128,
        first ==> offset == 1 && gathering(depack_begin(s, ts), ts, au, v) && nal.len() - 1
            > max_frag,
        !first ==> {
            &&& gathering(s, ts, au, v)
            &&& s.fu.dom().contains((ssrc, ts))
            &&& s.fu[(ssrc, ts)] == (nal.subrange(0, offset), prev_seq)
            &&& seq == next_seq(prev_seq)
        },
    ensures
        ({
            let r = feed(s, fu_fragments(nal, offset, first, last_nal, pt, seq, ts, ssrc, max_frag));
            let v2 = v || is_vcl(nal[0] & 0x1Fu8);
            &&& r.1.len() >= 1
            &&& all_none(r.1.drop_last())
            &&& !last_nal ==> gathering(r.0, ts, au.push(nal), v2) && r.1.last() is None
            &&& last_nal ==> r.1.last() == (if v2 {
                Some(annexb(au.push(nal)))
            } else {
                None
            })
        }),
    decreases nal.len() - offset,
{
    let remaining = nal.len() - offset;
    let frag = if remaining < max_frag {
        remaining
    } else {
        max_frag
    };
    let last = offset + frag >= nal.len();
    let fu_indicator = ((nal[0] & 0xE0u8) | 28u8) as u8;
    let fu_header = ((bit(first) << 7u8) | (bit(last) << 6u8) | (nal[0] & 0x1Fu8)) as u8;
    let h = h264_header(pt, last && last_nal, seq, ts, ssrc);
    let body = seq![fu_indicator, fu_header] + nal.subrange(offset, offset + frag);
    let pkt = rtp_header_bytes(h) + body;
    let rest = fu_fragments(nal, offset + frag, false, last_nal, pt, next_seq(seq), ts, ssrc, max_frag);
    assert(rtp_header_bytes(h) + seq![fu_indicator, fu_header] + nal.subrange(offset, offset + frag)
        =~= pkt);
    assert(fu_fragments(nal, offset, first, last_nal, pt, seq, ts, ssrc, max_frag) == seq![pkt]
        + rest);
    lemma_packet_read(h, body);
    lemma_fu_bits(nal[0], first, last);
    lemma_feed_one(s, pkt);
    lemma_feed_append(s, seq![pkt], rest);
    let key = (ssrc, ts);
    let s1 = depack_begin(s, ts);
    let step = depack_step(s, h, body);
    assert(body[0] == fu_indicator && body[1] == fu_header);
    assert(body.subrange(2, body.len() as int) =~= nal.subrange(offset, offset + frag));
    if first {
        assert(!last);
        let buf = seq![nal[0]] + nal.subrange(1, 1 + frag);
        assert(buf =~= nal.subrange(0, 1 + frag));
        assert(step.0 == DepackState { fu: s1.fu.insert(key, (buf, seq)), ..s1 });
        assert(step.1 is None);
        lemma_fu_unit(step.0, nal, offset + frag, false, last_nal, pt, next_seq(seq), seq, ts, ssrc, max_frag, au, v);
        let r2 = feed(step.0, rest);
        assert(seq![step.1] + r2.1 =~= seq![step.1] + r2.1);
        assert((seq![step.1] + r2.1).drop_last() =~= seq![step.1] + r2.1.drop_last());
    } else {
        assert(s1 == s);
        let (b, ls) = s.fu[key];
        let nb = b + nal.subrange(offset, offset + frag);
        assert(nb =~= nal.subrange(0, offset + frag));
        if last {
            assert(offset + frag == nal.len());
            assert(nb =~= nal);
            assert(rest.len() == 0);
            assert(seq![pkt] + rest =~= seq![pkt]);
            lemma_annexb_nonempty(au.push(nal));
            assert(seq![step.1].drop_last() =~= Seq::<Option<Seq<u8>>>::empty());
        } else {
            assert(step.0 == DepackState { fu: s.fu.insert(key, (nb, seq)), ..s });
            assert(step.1 is None);
            lemma_fu_unit(step.0, nal, offset + frag, false, last_nal, pt, next_seq(seq), seq, ts, ssrc, max_frag, au, v);
            let r2 = feed(step.0, rest);
            assert((seq![step.1] + r2.1).drop_last() =~= seq![step.1] + r2.1.drop_last());
        }
    }
}

/// The effect of the packets of one unit.
proof fn lemma_unit_packets(
    s: DepackState,
    nal: Seq<u8>,
    last_nal: bool,
    pt: u8,
    seq: u16,
    ts: u32,
    ssrc: u32,
    mtu: int,
    au: Seq<Seq<u8>>,
    v: bool,
)
    requires
        gathering(depack_begin(s, ts), ts, au, v),
        nal.len() > 0,
        1 <= nal[0] & 0x1Fu8 <= 23,
        pt < 128,
        mtu >= 15,
    ensures
        ({
            let r = feed(s, nal_packets(nal, last_nal, pt, seq, ts, ssrc, mtu));
            let v2 = v || is_vcl(nal[0] & 0x1Fu8);
            &&& r.1.len() >= 1
            &&& all_none(r.1.drop_last())
            &&& !last_nal ==> gathering(r.0, ts, au.push(nal), v2) && r.1.last() is None
            &&& last_nal ==> r.1.last() == (if v2 {
                Some(annexb(au.push(nal)))
            } else {
                None
            })
        }),
{
    if 12 + nal.len() <= mtu {
        lemma_single_unit(s, nal, last_nal, pt, seq, ts, ssrc, au, v);
        let r = feed(s, nal_packets(nal, last_nal, pt, seq, ts, ssrc, mtu));
        assert(r.1.drop_last().len() == 0);
    } else {
        lemma_fu_unit(s, nal, 1, true, last_nal, pt, seq, seq, ts, ssrc, mtu - 14, au, v);
    }
}

/// The effect of the packets of the units `nalus[k..]`, the units before `k` gathered.
proof fn lemma_frame_feed(
    s: DepackState,
    nalus: Seq<Seq<u8>>,
    k: int,
    pt: u8,
    seq: u16,
    ts: u32,
    ssrc: u32,
    mtu: int,
)
    requires
        0 <= k < nalus.len(),
        forall|i: int| 0 <= i < nalus.len() ==> (#[trigger] nalus[i]).len() > 0 && 1 <= nalus[i][0]
            & 0x1Fu8 <= 23,
        pt < 128,
        mtu >= 15,
        gathering(depack_begin(s, ts), ts, nalus.take(k), any_vcl(nalus.take(k))),
    ensures
        ({
            let r = feed(s, frame_packets(nalus, k, pt, seq, ts, ssrc, mtu));
            &&& r.1.len() >= 1
            &&& all_none(r.1.drop_last())
            &&& r.1.last() == (if any_vcl(nalus) {
                Some(annexb(nalus))
            } else {
                None
            })
        }),
    decreases nalus.len() - k,
{
    let nal = nalus[k];
    let last_nal = k == nalus.len() - 1;
    let p = nal_packets(nal, last_nal, pt, seq, ts, ssrc, mtu);
    let next = seq_add(seq, p.len());
    let rest = frame_packets(nalus, k + 1, pt, next, ts, ssrc, mtu);
    assert(frame_packets(nalus, k, pt, seq, ts, ssrc, mtu) == p + rest);
    let pre = nalus.take(k);
    lemma_unit_packets(s, nal, last_nal, pt, seq, ts, ssrc, mtu, pre, any_vcl(pre));
    lemma_feed_append(s, p, rest);
    assert(pre.push(nal) =~= nalus.take(k + 1));
    let v2 = any_vcl(pre) || is_vcl(nal[0] & 0x1Fu8);
    assert(v2 == any_vcl(nalus.take(k + 1))) by {
        let t = nalus.take(k + 1);
        if v2 {
            if is_vcl(nal[0] & 0x1Fu8) {
                assert(t[k] == nal);
            } else {
                let i = choose|i: int| 0 <= i < pre.len() && is_vcl(#[trigger] pre[i][0] & 0x1Fu8);
                assert(t[i] == pre[i]);
            }
        }
        if any_vcl(t) {
            let i = choose|i: int| 0 <= i < t.len() && is_vcl(#[trigger] t[i][0] & 0x1Fu8);
            if i < k {
                assert(pre[i] == t[i]);
            }
        }
    }
    let r1 = feed(s, p);
    if last_nal {
        assert(rest.len() == 0);
        assert(p + rest =~= p);
        assert(nalus.take(k + 1) =~= nalus);
    } else {
        lemma_frame_feed(r1.0, nalus, k + 1, pt, next, ts, ssrc, mtu);
        let r2 = feed(r1.0, rest);
        assert((r1.1 + r2.1).drop_last() =~= r1.1 + r2.1.drop_last());
        assert(r1.1 =~= r1.1.drop_last().push(r1.1.last()));
        assert forall|i: int| 0 <= i < (r1.1 + r2.1).drop_last().len() implies (r1.1
            + r2.1).drop_last()[i] is None by {
            if i < r1.1.len() - 1 {
                assert(r1.1.drop_last()[i] is None);
            } else if i >= r1.1.len() {
                assert(r2.1.drop_last()[i - r1.1.len()] is None);
            }
        }
    }
}

/// A header carries only the low seven bits of its payload type on the wire.
proof fn lemma_header_bytes_mask(pt: u8, marker: bool, seq: u16, ts: u32, ssrc: u32)
    ensures
        rtp_header_bytes(h264_header(pt, marker, seq, ts, ssrc)) == rtp_header_bytes(
            h264_header(pt & 0x7Fu8, marker, seq, ts, ssrc),
        ),
{
    assert((pt & 0x7Fu8) & 0x7Fu8 == pt & 0x7Fu8) by (bit_vector);
}

/// The FU-A fragments of a unit are the same bytes for a payload type and for its low
/// seven bits.
proof fn lemma_fu_fragments_mask(
    nal: Seq<u8>,
    offset: int,
    first: bool,
    last_nal: bool,
    pt: u8,
    seq: u16,
    ts: u32,
    ssrc: u32,
    max_frag: int,
)
    ensures
        fu_fragments(nal, offset, first, last_nal, pt, seq, ts, ssrc, max_frag) == fu_fragments(
            nal,
            offset,
            first,
            last_nal,
            pt & 0x7Fu8,
            seq,
            ts,
            ssrc,
            max_frag,
        ),
    decreases nal.len() - offset,
{
    if 0 < max_frag && 0 < offset < nal.len() {
        let remaining = nal.len() - offset;
        let frag = if remaining < max_frag {
            remaining
        } else {
            max_frag
        };
        let last = offset + frag >= nal.len();
        lemma_header_bytes_mask(pt, last && last_nal, seq, ts, ssrc);
        lemma_fu_fragments_mask(nal, offset + frag, false, last_nal, pt, next_seq(seq), ts, ssrc, max_frag);
    }
}

/// The packets of an access unit are the same bytes for a payload type and for its low
/// seven bits.
proof fn lemma_frame_packets_mask(
    nalus: Seq<Seq<u8>>,
    k: int,
    pt: u8,
    seq: u16,
    ts: u32,
    ssrc: u32,
    mtu: int,
)
    ensures
        frame_packets(nalus, k, pt, seq, ts, ssrc, mtu) == frame_packets(
            nalus,
            k,
            pt & 0x7Fu8,
            seq,
            ts,
            ssrc,
            mtu,
        ),
    decreases nalus.len() - k,
{
    if 0 <= k < nalus.len() {
        let last_nal = k == nalus.len() - 1;
        let max_frag = if mtu >= 14 {
            mtu - 14
        } else {
            0
        };
        lemma_header_bytes_mask(pt, last_nal, seq, ts, ssrc);
        lemma_fu_fragments_mask(nalus[k], 1, true, last_nal, pt, seq, ts, ssrc, max_frag);
        let p = nal_packets(nalus[k], last_nal, pt, seq, ts, ssrc, mtu);
        assert(p == nal_packets(nalus[k], last_nal, pt & 0x7Fu8, seq, ts, ssrc, mtu));
        lemma_frame_packets_mask(nalus, k + 1, pt, seq_add(seq, p.len()), ts, ssrc, mtu);
    }
}

/// Packetizing the NAL units of an access unit and feeding the packets, in order, to a
/// depacketizer that is not gathering that timestamp gives the access unit back, in Annex B
/// form with 4-byte start codes, from the last packet and nothing from the ones before;
/// when the MTU leaves room for FU-A fragments, every unit is non-empty with a single-unit
/// type (1 to 23), and one of them is a coded slice.
pub proof fn lemma_packetize_depacketize(
    s: DepackState,
    nalus: Seq<Seq<u8>>,
    pt: u8,
    seq: u16,
    ts: u32,
    ssrc: u32,
    mtu: int,
)
    requires
        s.timestamp != Some(ts),
        nalus.len() > 0,
        forall|i: int| 0 <= i < nalus.len() ==> (#[trigger] nalus[i]).len() > 0 && 1 <= nalus[i][0]
            & 0x1Fu8 <= 23,
        any_vcl(nalus),
        mtu >= 15,
    ensures
        ({
            let r = feed(s, frame_packets(nalus, 0, pt, seq, ts, ssrc, mtu));
            &&& r.1.len() >= 1
            &&& all_none(r.1.drop_last())
            &&& r.1.last() == Some(annexb(nalus))
        }),
{
    assert(nalus.take(0) =~= Seq::<Seq<u8>>::empty());
    assert(!any_vcl(nalus.take(0)));
    lemma_frame_packets_mask(nalus, 0, pt, seq, ts, ssrc, mtu);
    assert(pt & 0x7Fu8 < 128) by (bit_vector);
    lemma_frame_feed(s, nalus, 0, pt & 0x7Fu8, seq, ts, ssrc, mtu);
}

} // verus!
