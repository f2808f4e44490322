//! What the call screen does with each message the signaling server relays during a call.
use crate::protocols::message::{field_value, Message};
use crate::text::{parse_unsigned, parse_unsigned_range, str_chars, str_eq};
use vstd::prelude::*;

verus! {

/// What a message means for the call in progress.
pub enum CallEvent {
    /// A remote description arrived: the caller applies it as the answer; the callee
    /// answers it and sends its own description back.
    RemoteSdp { sdp: String, send_answer: bool },
    /// A description message came without its `sdp` field.
    MissingSdp,
    /// The peer hung up: the call ends and the lobby comes back.
    PeerHungUp,
    /// The peer offers a file.
    FileOffer(Message),
    /// The peer accepted the file sent on this data channel.
    FileAccepted(u16),
    /// The peer rejected the file offered on this data channel.
    FileRejected(u16),
    /// An ACCEPT_FILE (`accepted`) or REJECT_FILE message without a valid `stream_id`.
    MissingStreamId { accepted: bool },
    /// Nothing for the call screen.
    Ignored,
}

/// The meaning of an event, by its texts.
pub enum CallEventView {
    RemoteSdp(Seq<char>, bool),
    MissingSdp,
    PeerHungUp,
    FileOffer,
    FileAccepted(u16),
    FileRejected(u16),
    MissingStreamId(bool),
    Ignored,
}

/// The texts of an event.
pub open spec fn call_event_view(e: CallEvent) -> CallEventView {
    match e {
        CallEvent::RemoteSdp { sdp, send_answer } => CallEventView::RemoteSdp(sdp@, send_answer),
        CallEvent::MissingSdp => CallEventView::MissingSdp,
        CallEvent::PeerHungUp => CallEventView::PeerHungUp,
        CallEvent::FileOffer(_) => CallEventView::FileOffer,
        CallEvent::FileAccepted(id) => CallEventView::FileAccepted(id),
        CallEvent::FileRejected(id) => CallEventView::FileRejected(id),
        CallEvent::MissingStreamId { accepted } => CallEventView::MissingStreamId(accepted),
        CallEvent::Ignored => CallEventView::Ignored,
    }
}

/// The data channel a file answer names, when its `stream_id` field is a 16-bit number.
pub open spec fn answer_stream_id(fv: Seq<(Seq<char>, Seq<char>)>) -> Option<u16> {
    match field_value(fv, "stream_id"@) {
        Some(s) => match parse_unsigned(s, 65535) {
            Some(n) => Some(n as u16),
            None => None,
        },
        None => None,
    }
}

/// What a message of type `t` with fields `fv` means for the call; `is_caller` tells
/// whether this side placed the call.
pub open spec fn call_event_of(t: Seq<char>, fv: Seq<(Seq<char>, Seq<char>)>, is_caller: bool) -> CallEventView {
    if t == "SDP"@ || t == "OFFER"@ || t == "ANSWER"@ {
        match field_value(fv, "sdp"@) {
            Some(sdp) => CallEventView::RemoteSdp(sdp, !is_caller),
            None => CallEventView::MissingSdp,
        }
    } else if t == "CALL_ENDED"@ {
        CallEventView::PeerHungUp
    } else if t == "OFFER_FILE"@ {
        CallEventView::FileOffer
    } else if t == "ACCEPT_FILE"@ {
        match answer_stream_id(fv) {
            Some(id) => CallEventView::FileAccepted(id),
            None => CallEventView::MissingStreamId(true),
        }
    } else if t == "REJECT_FILE"@ {
        match answer_stream_id(fv) {
            Some(id) => CallEventView::FileRejected(id),
            None => CallEventView::MissingStreamId(false),
        }
    } else {
        CallEventView::Ignored
    }
}

/// The data channel of a file answer.
fn stream_id_of(msg: &Message) -> (r: Option<u16>)
    ensures
        r == answer_stream_id(msg.field_view()),
{
    match msg.get("stream_id") {
        Some(s) => {
            let cs = str_chars(s.as_str());
            assert(cs@.subrange(0, cs@.len() as int) =~= s@);
            match parse_unsigned_range(&cs, 0, cs.len(), 65535) {
                Some(n) => Some(n as u16),
                None => None,
            }
        },
        None => None,
    }
}

/// What a relayed message means for the call in progress (see `call_event_of`); a file
/// offer is handed on whole.
pub fn call_event(msg: Message, is_caller: bool) -> (e: CallEvent)
    ensures
        call_event_view(e) == call_event_of(msg.msg_type@, msg.field_view(), is_caller),
        e matches CallEvent::FileOffer(m) ==> m.msg_type@ == msg.msg_type@ && m.field_view()
            == msg.field_view(),
{
    let t = msg.msg_type.as_str();
    if str_eq(t, "SDP") || str_eq(t, "OFFER") || str_eq(t, "ANSWER") {
        match msg.get("sdp") {
            Some(s) => CallEvent::RemoteSdp { sdp: s.clone(), send_answer: !is_caller },
            None => CallEvent::MissingSdp,
        }
    } else if str_eq(t, "CALL_ENDED") {
        CallEvent::PeerHungUp
    } else if str_eq(t, "OFFER_FILE") {
        CallEvent::FileOffer(msg)
    } else if str_eq(t, "ACCEPT_FILE") {
        match stream_id_of(&msg) {
            Some(id) => CallEvent::FileAccepted(id),
            None => CallEvent::MissingStreamId { accepted: true },
        }
    } else if str_eq(t, "REJECT_FILE") {
        match stream_id_of(&msg) {
            Some(id) => CallEvent::FileRejected(id),
            None => CallEvent::MissingStreamId { accepted: false },
        }
    } else {
        CallEvent::Ignored
    }
}

} // verus!
