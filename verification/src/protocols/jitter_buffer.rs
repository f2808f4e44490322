//! Reordering of RTP packets by sequence number before they are played.
use crate::protocols::rtp_packet::RtpHeader;
use std::collections::BTreeMap;
use vstd::prelude::*;

verus! {

/// How far `seq` is ahead of `next`, counting around the 16-bit wrap (0 to 65535).
pub open spec fn distance(seq: u16, next: u16) -> int {
    if seq >= next {
        seq - next
    } else {
        seq - next + 0x1_0000
    }
}

/// Whether `seq` is behind `next`: its 16-bit difference from `next` is negative as a
/// signed number.
pub open spec fn is_late(seq: u16, next: u16) -> bool {
    distance(seq, next) >= 0x8000
}

/// Whether a full buffer may skip ahead from `next` to `seq`: it is ahead by 1 to 32766.
pub open spec fn jumpable(seq: u16, next: u16) -> bool {
    0 < distance(seq, next) < 0x7fff
}

/// Whether `k` is the key of `keys` that is nearest ahead of `next` among those a full
/// buffer may skip to.
pub open spec fn is_nearest(keys: Set<u16>, next: u16, k: u16) -> bool {
    &&& keys.contains(k)
    &&& jumpable(k, next)
    &&& forall|j: u16| #[trigger]
        keys.contains(j) && jumpable(j, next) ==> distance(k, next) <= distance(j, next)
}

/// Whether `k` is the lowest key of `keys`.
pub open spec fn is_lowest(keys: Set<u16>, k: u16) -> bool {
    &&& keys.contains(k)
    &&& forall|j: u16| #[trigger] keys.contains(j) ==> k <= j
}

/// The sequence number after `seq`, wrapping.
pub open spec fn seq_after(seq: u16) -> u16 {
    if seq == 0xffff {
        0
    } else {
        (seq + 1) as u16
    }
}

/// The state of a jitter buffer: the packets held by sequence number, the number expected
/// next, the capacity at which it skips ahead, how many it waits for before it starts
/// handing packets out, and whether it is waiting.
pub struct JitterView {
    pub packets: Map<u16, (RtpHeader, Vec<u8>)>,
    pub next_seq: Option<u16>,
    pub max_capacity: nat,
    pub min_buffering: nat,
    pub is_buffering: bool,
}

/// Whether a pop on `v` is held back because the buffer is still filling.
pub open spec fn held_back(v: JitterView) -> bool {
    v.is_buffering && v.packets.len() < v.min_buffering
}

/// The packet a pop on `v` takes: none while the buffer fills up or is empty; the one
/// expected next if it is there; otherwise, when the buffer is full, the one nearest ahead
/// of it, or failing that the lowest numbered one.
pub open spec fn taken_key(v: JitterView) -> Option<u16> {
    if held_back(v) || v.packets.len() == 0 {
        None
    } else {
        match v.next_seq {
            None => None,
            Some(n) => if v.packets.contains_key(n) {
                Some(n)
            } else if v.packets.len() >= v.max_capacity {
                if exists|k: u16| is_nearest(v.packets.dom(), n, k) {
                    Some(choose|k: u16| is_nearest(v.packets.dom(), n, k))
                } else {
                    Some(choose|k: u16| is_lowest(v.packets.dom(), k))
                }
            } else {
                None
            },
        }
    }
}

/// A buffer that reorders RTP packets and absorbs jitter: packets wait, keyed by
/// sequence number, and leave in order.
pub struct JitterBuffer {
    buffer: BTreeMap<u16, (RtpHeader, Vec<u8>)>,
    next_seq: Option<u16>,
    max_capacity: usize,
    min_buffering: usize,
    is_buffering: bool,
}

impl View for JitterBuffer {
    type V = JitterView;

    closed spec fn view(&self) -> JitterView {
        JitterView {
            packets: self.buffer@,
            next_seq: self.next_seq,
            max_capacity: self.max_capacity as nat,
            min_buffering: self.min_buffering as nat,
            is_buffering: self.is_buffering,
        }
    }
}

/// Distinct keys are at distinct distances from any number.
proof fn lemma_distance_injective(a: u16, b: u16, n: u16)
    requires
        distance(a, n) == distance(b, n),
    ensures
        a == b,
{
}

/// A buffer holds finitely many packets.
pub proof fn lemma_holds_finitely_many(b: &JitterBuffer)
    ensures
        b@.packets.dom().finite(),
{
    broadcast use vstd::std_specs::btree::group_btree_axioms;
}

impl JitterBuffer {
    /// A buffer never holds more than `max_capacity` packets.
    #[verifier::type_invariant]
    spec fn within_capacity(self) -> bool {
        self.buffer@.dom().finite() && self.buffer@.len() <= self.max_capacity
    }

    /// A buffer holding up to `max_capacity` packets before it skips ahead, which hands
    /// none out until it holds `min_buffering`.
    pub fn new(max_capacity: usize, min_buffering: usize) -> (b: Self)
        ensures
            b@.packets == Map::<u16, (RtpHeader, Vec<u8>)>::empty(),
            b@.next_seq is None,
            b@.max_capacity == max_capacity,
            b@.min_buffering == min_buffering,
            b@.is_buffering,
    {
        broadcast use vstd::std_specs::btree::group_btree_axioms;
        assert(Map::<u16, (RtpHeader, Vec<u8>)>::empty().len() == 0);
        JitterBuffer {
            buffer: BTreeMap::new(),
            next_seq: None,
            max_capacity,
            min_buffering,
            is_buffering: true,
        }
    }

    /// Stores a packet under its sequence number, replacing one with the same number. The
    /// first packet fixes the number expected next; a packet behind that number is late
    /// and dropped, and so is a packet with a new number while the buffer already holds
    /// `max_capacity` packets: the buffer never holds more.
    pub fn push(&mut self, header: RtpHeader, payload: Vec<u8>)
        ensures
            ({
                let n = match old(self)@.next_seq {
                    Some(n) => n,
                    None => header.seq,
                };
                &&& final(self)@.next_seq == Some(n)
                &&& final(self)@.packets == if is_late(header.seq, n) || (!old(self)@.packets.contains_key(
                    header.seq,
                ) && old(self)@.packets.len() >= old(self)@.max_capacity) {
                    old(self)@.packets
                } else {
                    old(self)@.packets.insert(header.seq, (header, payload))
                }
            }),
            final(self)@.packets.len() <= final(self)@.max_capacity,
            final(self)@.max_capacity == old(self)@.max_capacity,
            final(self)@.min_buffering == old(self)@.min_buffering,
            final(self)@.is_buffering == old(self)@.is_buffering,
    {
        broadcast use vstd::std_specs::btree::group_btree_axioms;
        proof {
            use_type_invariant(&*self);
        }
        if self.next_seq.is_none() {
            self.next_seq = Some(header.seq);
        }
        let next = match self.next_seq {
            Some(n) => n,
            None => {
                return;
            },
        };
        let diff = header.seq.wrapping_sub(next);
        if diff >= 0x8000 {
            return;
        }
        let seq = header.seq;
        if !self.buffer.contains_key(&seq) && self.buffer.len() >= self.max_capacity {
            return;
        }
        let mut buffer = BTreeMap::new();
        std::mem::swap(&mut buffer, &mut self.buffer);
        buffer.insert(seq, (header, payload));
        std::mem::swap(&mut buffer, &mut self.buffer);
    }

    /// Takes the packet numbered `seq` out of the buffer.
    fn take_packet(&mut self, seq: u16) -> (r: Option<(RtpHeader, Vec<u8>)>)
        ensures
            final(self)@.packets == old(self)@.packets.remove(seq),
            r == (if old(self)@.packets.contains_key(seq) {
                Some(old(self)@.packets[seq])
            } else {
                None
            }),
            final(self).next_seq == old(self).next_seq,
            final(self).max_capacity == old(self).max_capacity,
            final(self).min_buffering == old(self).min_buffering,
            final(self).is_buffering == old(self).is_buffering,
    {
        broadcast use vstd::std_specs::btree::group_btree_axioms;
        proof {
            use_type_invariant(&*self);
        }
        let mut buffer = BTreeMap::new();
        std::mem::swap(&mut buffer, &mut self.buffer);
        let r = buffer.remove(&seq);
        std::mem::swap(&mut buffer, &mut self.buffer);
        r
    }

    /// Hands out the next packet in order, if any (see `taken_key`).
    pub fn pop(&mut self) -> (r: Option<(RtpHeader, Vec<u8>)>)
        ensures
            taken_key(old(self)@) matches Some(k) ==> old(self)@.packets.contains_key(k),
            r == (match taken_key(old(self)@) {
                Some(k) => Some(old(self)@.packets[k]),
                None => None,
            }),
            final(self)@.packets == (match taken_key(old(self)@) {
                Some(k) => old(self)@.packets.remove(k),
                None => old(self)@.packets,
            }),
            final(self)@.next_seq == (match taken_key(old(self)@) {
                Some(k) => Some(seq_after(k)),
                None => old(self)@.next_seq,
            }),
            final(self)@.is_buffering == (held_back(old(self)@) || old(self)@.packets.len() == 0),
            final(self)@.max_capacity == old(self)@.max_capacity,
            final(self)@.min_buffering == old(self)@.min_buffering,
            final(self)@.packets.len() <= final(self)@.max_capacity,
    {
        proof {
            use_type_invariant(&*self);
        }
        if self.is_buffering {
            if self.buffer.len() < self.min_buffering {
                return None;
            } else {
                self.is_buffering = false;
            }
        }
        if self.buffer.is_empty() {
            self.is_buffering = true;
            return None;
        }
        let next = match self.next_seq {
            Some(n) => n,
            None => {
                return None;
            },
        };
        if self.buffer.contains_key(&next) {
            let packet = self.take_packet(next);
            self.next_seq = Some(next.wrapping_add(1));
            return packet;
        }
        if self.buffer.len() >= self.max_capacity {
            let ghost keys = self.buffer@.dom();
            let mut best: Option<u16> = None;
            let mut min_d: u16 = 0x7fff;
            let mut lowest: Option<u16> = None;
            let ks = self.buffer.keys();
            let ghost sq: Seq<u16> = vstd::std_specs::iter::IteratorSpec::remaining(&ks).map_values(
                |r: &u16| *r,
            );
            proof {
                let s = vstd::std_specs::iter::IteratorSpec::remaining(&ks);
                assert(s.unref() =~= sq);
                assert forall|i: int| 0 <= i < sq.len() implies keys.contains(sq[i]) by {
                    assert(sq.to_set().contains(sq[i]));
                }
                assert forall|k: u16| keys.contains(k) implies exists|i: int|
                    0 <= i < sq.len() && sq[i] == k by {
                    assert(sq.to_set().contains(k));
                }
            }
            for seq in it: ks
                invariant
                    keys == self.buffer@.dom(),
                    it.seq().len() == sq.len(),
                    forall|i: int| 0 <= i < sq.len() ==> *it.seq()[i] == sq[i],
                    match best {
                        Some(b) => {
                            &&& exists|i: int| 0 <= i < it.index() && sq[i] == b
                            &&& jumpable(b, next)
                            &&& min_d == distance(b, next)
                            &&& forall|i: int|
                                0 <= i < it.index() && jumpable(#[trigger] sq[i], next) ==> distance(b, next)
                                    <= distance(sq[i], next)
                        },
                        None => {
                            &&& min_d == 0x7fff
                            &&& forall|i: int| 0 <= i < it.index() ==> !jumpable(#[trigger] sq[i], next)
                        },
                    },
                    match lowest {
                        Some(f) => {
                            &&& exists|i: int| 0 <= i < it.index() && sq[i] == f
                            &&& forall|i: int| 0 <= i < it.index() ==> f <= #[trigger] sq[i]
                        },
                        None => it.index() == 0,
                    },
            {
                let s = *seq;
                let ghost i0 = it.index();
                assert(s == sq[i0]);
                let d = s.wrapping_sub(next);
                if d > 0 && d < min_d {
                    min_d = d;
                    best = Some(s);
                }
                match lowest {
                    Some(f) => {
                        if s < f {
                            lowest = Some(s);
                        }
                    },
                    None => {
                        lowest = Some(s);
                    },
                }
            }
            proof {
                assert forall|k: u16| keys.contains(k) implies exists|i: int|
                    0 <= i < sq.len() && sq[i] == k by {}
            }
            match best {
                Some(b) => {
                    proof {
                        assert(is_nearest(keys, next, b)) by {
                            assert forall|j: u16| #[trigger]
                                keys.contains(j) && jumpable(j, next) implies distance(b, next)
                                <= distance(j, next) by {
                                let i = choose|i: int| 0 <= i < sq.len() && sq[i] == j;
                                assert(sq[i] == j);
                            }
                        }
                        let c = choose|k: u16| is_nearest(keys, next, k);
                        assert(is_nearest(keys, next, c));
                        lemma_distance_injective(b, c, next);
                    }
                    let packet = self.take_packet(b);
                    self.next_seq = Some(b.wrapping_add(1));
                    return packet;
                },
                None => match lowest {
                    Some(f) => {
                        proof {
                            assert forall|k: u16| !is_nearest(keys, next, k) by {
                                if keys.contains(k) {
                                    let i = choose|i: int| 0 <= i < sq.len() && sq[i] == k;
                                    assert(sq[i] == k);
                                }
                            }
                            assert(is_lowest(keys, f)) by {
                                assert forall|j: u16| #[trigger] keys.contains(j) implies f <= j by {
                                    let i = choose|i: int| 0 <= i < sq.len() && sq[i] == j;
                                    assert(sq[i] == j);
                                }
                            }
                            let c = choose|k: u16| is_lowest(keys, k);
                            assert(is_lowest(keys, c));
                        }
                        let packet = self.take_packet(f);
                        self.next_seq = Some(f.wrapping_add(1));
                        return packet;
                    },
                    None => {},
                },
            }
        }
        None
    }
}

} // verus!
