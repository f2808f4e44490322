//! Data channels over SCTP: the shape check that recognizes SCTP packets, the channels of an
//! association and their states, and the data they received. The SCTP association itself
//! (handshake, streams, retransmission) is the caller's.
use crate::wire::{get_be16, read_be16};
use std::collections::{HashMap, HashSet};
use vstd::prelude::*;

verus! {

broadcast use vstd::std_specs::hash::group_hash_axioms;

/// Chunk types the SCTP stack accepts: the standard types 0..=15, ASCONF (0xC1) and
/// ASCONF-ACK (0xC0).
pub open spec fn sctp_chunk_type_ok(t: u8) -> bool {
    t <= 0x0F || t == 0xC0 || t == 0xC1
}

/// Shape of an SCTP packet in the first `len` bytes of `b`: at least 16 bytes (common header
/// and one chunk header), not both ports zero, a known chunk type, and a first chunk length
/// of at least 4 that fits after the common header.
pub open spec fn sctp_packet_ok(b: Seq<u8>, len: int) -> bool {
    &&& len >= 16
    &&& !(get_be16(b, 0) == 0 && get_be16(b, 2) == 0)
    &&& sctp_chunk_type_ok(b[12])
    &&& 4 <= get_be16(b, 14) <= len - 12
}

fn is_valid_sctp_chunk_type(chunk_type: u8) -> (r: bool)
    ensures
        r == sctp_chunk_type_ok(chunk_type),
{
    chunk_type <= 0x0F || chunk_type == 0xC0 || chunk_type == 0xC1
}

/// Tells whether the first `len` bytes of `buf` have the shape of an SCTP packet.
pub fn is_valid_sctp_packet(buf: &[u8], len: usize) -> (r: bool)
    requires
        len <= buf@.len(),
    ensures
        r == sctp_packet_ok(buf@, len as int),
{
    if len < 16 {
        return false;
    }
    let src_port = read_be16(buf, 0);
    let dst_port = read_be16(buf, 2);
    if src_port == 0 && dst_port == 0 {
        return false;
    }
    let chunk_type = buf[12];
    if !is_valid_sctp_chunk_type(chunk_type) {
        return false;
    }
    let chunk_length = read_be16(buf, 14) as usize;
    if chunk_length < 4 || chunk_length > (len - 12) {
        return false;
    }
    true
}

/// States of a data channel.
#[derive(Debug, Clone, Copy, PartialEq, Eq, Structural)]
pub enum ChannelState {
    /// SCTP handshake in progress.
    Connecting,
    /// Established and ready to carry data.
    Open,
    /// Closed.
    Closed,
}

/// A data channel over one SCTP stream.
#[derive(Debug, Clone)]
pub struct DataChannel {
    pub stream_id: u16,
    pub label: String,
    pub state: ChannelState,
}

impl DataChannel {
    /// A channel on `stream_id`, still connecting.
    pub fn new(stream_id: u16, label: String) -> (c: Self)
        ensures
            c.stream_id == stream_id,
            c.label == label,
            c.state == ChannelState::Connecting,
    {
        Self { stream_id, label, state: ChannelState::Connecting }
    }
}

/// The label and state of a channel.
pub open spec fn channel_view(c: DataChannel) -> (Seq<char>, ChannelState) {
    (c.label@, c.state)
}

/// The channels of an association (label and state by stream id), the streams opened on
/// it, the data received and not yet taken (stream id and bytes, in arrival order), and
/// the stream id the next channel gets.
#[verifier::ext_equal]
pub struct ChannelTableView {
    pub channels: Map<u16, (Seq<char>, ChannelState)>,
    pub open_streams: Set<u16>,
    pub received: Seq<(u16, Seq<u8>)>,
    pub next_stream_id: u16,
}

/// The channels of an SCTP association and what they received. The side that starts the
/// association numbers its channels with even stream ids, the other with odd ones.
pub struct ChannelTable {
    pub channels: HashMap<u16, DataChannel>,
    pub open_streams: HashSet<u16>,
    pub received_data: Vec<(u16, Vec<u8>)>,
    pub next_stream_id: u16,
    pub is_initiator: bool,
    pub max_outbound_streams: u16,
}

/// The bytes of each received chunk.
pub open spec fn received_view(v: Seq<(u16, Vec<u8>)>) -> Seq<(u16, Seq<u8>)> {
    v.map_values(|c: (u16, Vec<u8>)| (c.0, c.1@))
}

impl View for ChannelTable {
    type V = ChannelTableView;

    open spec fn view(&self) -> ChannelTableView {
        ChannelTableView {
            channels: self.channels@.map_values(|c: DataChannel| channel_view(c)),
            open_streams: self.open_streams@,
            received: received_view(self.received_data@),
            next_stream_id: self.next_stream_id,
        }
    }
}

/// A state after `retag`: `to` for every channel, or for those still connecting only.
pub open spec fn retagged(c: (Seq<char>, ChannelState), only_connecting: bool, to: ChannelState) -> (Seq<char>, ChannelState) {
    if !only_connecting || c.1 == ChannelState::Connecting {
        (c.0, to)
    } else {
        c
    }
}

impl ChannelTable {
    /// No channel yet; stream ids start at 0 for the side that starts the association and
    /// at 1 for the other, up to 65535.
    pub fn new(is_initiator: bool) -> (t: Self)
        ensures
            t@.channels.is_empty(),
            t@.open_streams.is_empty(),
            t@.received.len() == 0,
            t@.next_stream_id == (if is_initiator { 0u16 } else { 1u16 }),
            t.is_initiator == is_initiator,
            t.max_outbound_streams == 65535,
    {
        let t = ChannelTable {
            channels: HashMap::new(),
            open_streams: HashSet::new(),
            received_data: Vec::new(),
            next_stream_id: if is_initiator { 0 } else { 1 },
            is_initiator,
            max_outbound_streams: 65535,
        };
        assert(t@.channels =~= Map::empty());
        t
    }

    /// A new channel labelled `label`, still connecting, on the next stream id, which moves
    /// on by two (or to the limit, past 65535); refused once the ids are used up.
    pub fn create_channel(&mut self, label: String) -> (r: Result<u16, String>)
        ensures
            old(self).next_stream_id >= old(self).max_outbound_streams ==> {
                &&& r matches Err(e) && e@ == "No hay stream IDs disponibles"@
                &&& final(self)@ == old(self)@
            },
            old(self).next_stream_id < old(self).max_outbound_streams ==> {
                let id = old(self).next_stream_id;
                &&& r == Ok::<u16, String>(id)
                &&& final(self)@.channels == old(self)@.channels.insert(id, (label@, ChannelState::Connecting))
                &&& final(self)@.next_stream_id == (if id + 2 <= u16::MAX {
                    (id + 2) as u16
                } else {
                    old(self).max_outbound_streams
                })
                &&& final(self)@.open_streams == old(self)@.open_streams
                &&& final(self)@.received == old(self)@.received
            },
            final(self).is_initiator == old(self).is_initiator,
            final(self).max_outbound_streams == old(self).max_outbound_streams,
    {
        if self.next_stream_id >= self.max_outbound_streams {
            assert(self@ =~= old(self)@);
            return Err(String::from_str("No hay stream IDs disponibles"));
        }
        let stream_id = self.next_stream_id;
        self.next_stream_id = match self.next_stream_id.checked_add(2) {
            Some(next) => next,
            None => self.max_outbound_streams,
        };
        let ghost v = (label@, ChannelState::Connecting);
        let channel = DataChannel::new(stream_id, label);
        self.channels.insert(stream_id, channel);
        assert(self@.channels =~= old(self)@.channels.insert(stream_id, v));
        Ok(stream_id)
    }

    /// The stream ids of the channels, each once, in no particular order.
    fn channel_ids(&self) -> (ids: Vec<u16>)
        ensures
            ids@.to_set() == self.channels@.dom(),
            ids@.no_duplicates(),
    {
        let mut ids: Vec<u16> = Vec::new();
        let ghost keys = vstd::std_specs::iter::IteratorSpec::remaining(
            &vstd::std_specs::hash::spec_keys_iter(&self.channels),
        ).unref();
        proof {
            vstd::std_specs::hash::axiom_spec_keys_iter(&self.channels);
        }
        for k in it: self.channels.keys()
            invariant
                ids@ == it.seq().take(it.index() as int).unref(),
                it.seq().unref() == keys,
        {
            ids.push(*k);
            assert(it.seq().take(it.index() + 1).unref() =~= it.seq().take(it.index() as int).unref().push(*k));
        }
        assert(ids@ =~= keys);
        ids
    }

    /// Sets the state of every channel (or of those still connecting only) to `to`.
    fn retag(&mut self, only_connecting: bool, to: ChannelState)
        ensures
            final(self)@ == (ChannelTableView {
                channels: old(self)@.channels.map_values(
                    |c: (Seq<char>, ChannelState)| retagged(c, only_connecting, to),
                ),
                ..old(self)@
            }),
            final(self).is_initiator == old(self).is_initiator,
            final(self).max_outbound_streams == old(self).max_outbound_streams,
    {
        let ids = self.channel_ids();
        let ghost target = old(self)@.channels.map_values(
            |c: (Seq<char>, ChannelState)| retagged(c, only_connecting, to),
        );
        let mut i: usize = 0;
        while i < ids.len()
            invariant
                i <= ids@.len(),
                ids@.to_set() == old(self).channels@.dom(),
                ids@.no_duplicates(),
                self.channels@.dom() == old(self).channels@.dom(),
                self.open_streams@ == old(self).open_streams@,
                self.received_data@ == old(self).received_data@,
                self.next_stream_id == old(self).next_stream_id,
                self.is_initiator == old(self).is_initiator,
                self.max_outbound_streams == old(self).max_outbound_streams,
                target == old(self)@.channels.map_values(
                    |c: (Seq<char>, ChannelState)| retagged(c, only_connecting, to),
                ),
                forall|k: u16|
                    self.channels@.contains_key(k) ==> channel_view(#[trigger] self.channels@[k]) == if ids@.take(
                        i as int,
                    ).contains(k) {
                        target[k]
                    } else {
                        old(self)@.channels[k]
                    },
            decreases ids@.len() - i,
        {
            let id = ids[i];
            assert(ids@.to_set().contains(id));
            match self.channels.remove(&id) {
                Some(mut c) => {
                    if !only_connecting || c.state == ChannelState::Connecting {
                        c.state = to;
                    }
                    self.channels.insert(id, c);
                },
                None => {},
            }
            assert forall|k: u16| self.channels@.contains_key(k) implies channel_view(
                #[trigger] self.channels@[k],
            ) == if ids@.take(i + 1).contains(k) {
                target[k]
            } else {
                old(self)@.channels[k]
            } by {
                if k != id {
                    assert(ids@.take(i + 1).contains(k) == ids@.take(i as int).contains(k)) by {
                        if ids@.take(i + 1).contains(k) {
                            let j = choose|j: int| 0 <= j < i + 1 && #[trigger] ids@.take(i + 1)[j] == k;
                            assert(j != i);
                            assert(ids@.take(i as int)[j] == k);
                        }
                        if ids@.take(i as int).contains(k) {
                            let j = choose|j: int| 0 <= j < i && #[trigger] ids@.take(i as int)[j] == k;
                            assert(ids@.take(i + 1)[j] == k);
                        }
                    }
                } else {
                    assert(ids@.take(i + 1)[i as int] == id);
                    assert(!ids@.take(i as int).contains(id)) by {
                        if ids@.take(i as int).contains(id) {
                            let j = choose|j: int| 0 <= j < i && #[trigger] ids@.take(i as int)[j] == id;
                            assert(ids@[j] == ids@[i as int]);
                        }
                    }
                }
            }
            i += 1;
        }
        assert forall|k: u16| self.channels@.contains_key(k) implies ids@.take(ids@.len() as int).contains(k) by {
            assert(ids@.to_set().contains(k));
            assert(ids@.take(ids@.len() as int) =~= ids@);
        }
        assert(self@.channels =~= target);
    }

    /// The association is established: channels still connecting are open.
    pub fn on_connected(&mut self)
        ensures
            final(self)@ == (ChannelTableView {
                channels: old(self)@.channels.map_values(
                    |c: (Seq<char>, ChannelState)| retagged(c, true, ChannelState::Open),
                ),
                ..old(self)@
            }),
            final(self).is_initiator == old(self).is_initiator,
            final(self).max_outbound_streams == old(self).max_outbound_streams,
    {
        self.retag(true, ChannelState::Open);
    }

    /// The association was lost: every channel is closed.
    pub fn on_association_lost(&mut self)
        ensures
            final(self)@ == (ChannelTableView {
                channels: old(self)@.channels.map_values(
                    |c: (Seq<char>, ChannelState)| retagged(c, false, ChannelState::Closed),
                ),
                ..old(self)@
            }),
            final(self).is_initiator == old(self).is_initiator,
            final(self).max_outbound_streams == old(self).max_outbound_streams,
    {
        self.retag(false, ChannelState::Closed);
    }

    /// Stream `stream_id` finished or was stopped, or is closed on our side: its channel,
    /// if any, is closed.
    pub fn close_stream(&mut self, stream_id: u16)
        ensures
            old(self)@.channels.contains_key(stream_id) ==> final(self)@ == (ChannelTableView {
                channels: old(self)@.channels.insert(
                    stream_id,
                    (old(self)@.channels[stream_id].0, ChannelState::Closed),
                ),
                ..old(self)@
            }),
            !old(self)@.channels.contains_key(stream_id) ==> final(self)@ == old(self)@,
            final(self).is_initiator == old(self).is_initiator,
            final(self).max_outbound_streams == old(self).max_outbound_streams,
    {
        match self.channels.remove(&stream_id) {
            Some(mut c) => {
                let ghost v = (c.label@, ChannelState::Closed);
                c.state = ChannelState::Closed;
                self.channels.insert(stream_id, c);
                assert(self@.channels =~= old(self)@.channels.insert(stream_id, v));
            },
            None => {
                assert(self@.channels =~= old(self)@.channels);
            },
        }
    }

    /// Closes every channel.
    pub fn close_all_streams(&mut self)
        ensures
            final(self)@ == (ChannelTableView {
                channels: old(self)@.channels.map_values(
                    |c: (Seq<char>, ChannelState)| retagged(c, false, ChannelState::Closed),
                ),
                ..old(self)@
            }),
            final(self).is_initiator == old(self).is_initiator,
            final(self).max_outbound_streams == old(self).max_outbound_streams,
    {
        self.retag(false, ChannelState::Closed);
    }

    /// Forgets every channel and the data not yet taken.
    pub fn shutdown(&mut self)
        ensures
            final(self)@.channels.is_empty(),
            final(self)@.received.len() == 0,
            final(self)@.open_streams == old(self)@.open_streams,
            final(self)@.next_stream_id == old(self)@.next_stream_id,
            final(self).is_initiator == old(self).is_initiator,
            final(self).max_outbound_streams == old(self).max_outbound_streams,
    {
        self.channels.clear();
        self.received_data.clear();
        assert(self@.channels =~= Map::empty());
    }

    /// Stream `stream_id` is open.
    pub fn note_open_stream(&mut self, stream_id: u16)
        ensures
            final(self)@ == (ChannelTableView {
                open_streams: old(self)@.open_streams.insert(stream_id),
                ..old(self)@
            }),
            final(self).is_initiator == old(self).is_initiator,
            final(self).max_outbound_streams == old(self).max_outbound_streams,
    {
        self.open_streams.insert(stream_id);
    }

    /// Data read from stream `stream_id`, kept until taken.
    pub fn on_data(&mut self, stream_id: u16, data: Vec<u8>)
        ensures
            final(self)@ == (ChannelTableView {
                received: old(self)@.received.push((stream_id, data@)),
                ..old(self)@
            }),
            final(self).is_initiator == old(self).is_initiator,
            final(self).max_outbound_streams == old(self).max_outbound_streams,
    {
        let ghost d = data@;
        self.received_data.push((stream_id, data));
        assert(received_view(self.received_data@) =~= old(self)@.received.push((stream_id, d)));
    }

    /// Takes the data received so far, in arrival order.
    pub fn poll_file_data(&mut self) -> (r: Vec<(u16, Vec<u8>)>)
        ensures
            received_view(r@) == old(self)@.received,
            final(self)@ == (ChannelTableView { received: Seq::empty(), ..old(self)@ }),
            final(self).is_initiator == old(self).is_initiator,
            final(self).max_outbound_streams == old(self).max_outbound_streams,
    {
        let mut r: Vec<(u16, Vec<u8>)> = Vec::new();
        std::mem::swap(&mut r, &mut self.received_data);
        assert(received_view(self.received_data@) =~= Seq::<(u16, Seq<u8>)>::empty());
        r
    }

    /// The open streams, each once, in no particular order.
    pub fn get_open_streams(&self) -> (ids: Vec<u16>)
        ensures
            ids@.to_set() == self@.open_streams,
            ids@.no_duplicates(),
    {
        let mut ids: Vec<u16> = Vec::new();
        let ghost keys = vstd::std_specs::iter::IteratorSpec::remaining(
            &vstd::std_specs::hash::spec_hash_keys_iter(&self.open_streams),
        ).unref();
        proof {
            vstd::std_specs::hash::axiom_spec_hash_keys_iter(&self.open_streams);
        }
        for k in it: self.open_streams.iter()
            invariant
                ids@ == it.seq().take(it.index() as int).unref(),
                it.seq().unref() == keys,
        {
            ids.push(*k);
            assert(it.seq().take(it.index() + 1).unref() =~= it.seq().take(it.index() as int).unref().push(*k));
        }
        assert(ids@ =~= keys);
        ids
    }
}

} // verus!
