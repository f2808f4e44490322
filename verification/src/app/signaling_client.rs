//! The client side of the signaling protocol. Messages to the server wait in an outgoing
//! queue, which the connection drains and writes; messages from the server are delivered to
//! an incoming queue, from which the application takes them in order.
use crate::app::file_transfer::FileMetadata;
use crate::encoding::{hex_encode, hex_lower};
use crate::protocols::message::{field_texts, field_value, line_fields, line_type, parse_message, Message};
use crate::text::{decimal, str_eq, u64_to_decimal};
use vstd::prelude::*;

verus! {

/// The type and field texts of a message.
pub open spec fn message_view(m: Message) -> (Seq<char>, Seq<(Seq<char>, Seq<char>)>) {
    (m.msg_type@, field_texts(m.fields@))
}

/// The views of a list of messages.
pub open spec fn message_views(v: Seq<Message>) -> Seq<(Seq<char>, Seq<(Seq<char>, Seq<char>)>)> {
    v.map_values(|m: Message| message_view(m))
}

/// A message of type `typ` with the given fields, in order.
fn message_with(typ: &str, fields: Vec<(String, String)>) -> (m: Message)
    ensures
        m.msg_type@ == typ@,
        m.fields@ == fields@,
{
    Message { msg_type: String::from_str(typ), fields }
}

/// The field `(k, v)`.
fn field(k: &str, v: &str) -> (f: (String, String))
    ensures
        f.0@ == k@,
        f.1@ == v@,
{
    (String::from_str(k), String::from_str(v))
}

/// The client's queues of signaling messages.
pub struct SignalingClient {
    outgoing: Vec<Message>,
    incoming: Vec<Message>,
}

impl SignalingClient {
    /// The messages waiting to be written to the server, oldest first.
    pub closed spec fn outgoing(self) -> Seq<(Seq<char>, Seq<(Seq<char>, Seq<char>)>)> {
        message_views(self.outgoing@)
    }

    /// The messages received and not yet taken, oldest first.
    pub closed spec fn incoming(self) -> Seq<(Seq<char>, Seq<(Seq<char>, Seq<char>)>)> {
        message_views(self.incoming@)
    }

    /// A client with both queues empty.
    pub fn new() -> (c: Self)
        ensures
            c.outgoing() == Seq::<(Seq<char>, Seq<(Seq<char>, Seq<char>)>)>::empty(),
            c.incoming() == Seq::<(Seq<char>, Seq<(Seq<char>, Seq<char>)>)>::empty(),
    {
        let c = SignalingClient { outgoing: Vec::new(), incoming: Vec::new() };
        assert(c.outgoing() =~= Seq::<(Seq<char>, Seq<(Seq<char>, Seq<char>)>)>::empty());
        assert(c.incoming() =~= Seq::<(Seq<char>, Seq<(Seq<char>, Seq<char>)>)>::empty());
        c
    }

    /// Queues a message for the server.
    pub fn send(&mut self, msg: Message)
        ensures
            final(self).outgoing() == old(self).outgoing().push(message_view(msg)),
            final(self).incoming() == old(self).incoming(),
    {
        let ghost m = msg;
        self.outgoing.push(msg);
        assert(self.outgoing() =~= old(self).outgoing().push(message_view(m)));
    }

    /// Takes every queued message, oldest first, leaving the queue empty.
    pub fn take_outgoing(&mut self) -> (v: Vec<Message>)
        ensures
            message_views(v@) == old(self).outgoing(),
            final(self).outgoing() == Seq::<(Seq<char>, Seq<(Seq<char>, Seq<char>)>)>::empty(),
            final(self).incoming() == old(self).incoming(),
    {
        let mut v: Vec<Message> = Vec::new();
        std::mem::swap(&mut v, &mut self.outgoing);
        assert(self.outgoing() =~= Seq::<(Seq<char>, Seq<(Seq<char>, Seq<char>)>)>::empty());
        v
    }

    /// Hands a message received from the server to the client.
    pub fn deliver(&mut self, msg: Message)
        ensures
            final(self).incoming() == old(self).incoming().push(message_view(msg)),
            final(self).outgoing() == old(self).outgoing(),
    {
        let ghost m = msg;
        self.incoming.push(msg);
        assert(self.incoming() =~= old(self).incoming().push(message_view(m)));
    }

    /// The oldest received message not yet taken, if any.
    pub fn try_recv(&mut self) -> (r: Option<Message>)
        ensures
            old(self).incoming().len() == 0 ==> r is None && final(self).incoming() == old(
                self,
            ).incoming(),
            old(self).incoming().len() > 0 ==> (r matches Some(m) && message_view(m) == old(
                self,
            ).incoming()[0] && final(self).incoming() == old(self).incoming().drop_first()),
            final(self).outgoing() == old(self).outgoing(),
    {
        if self.incoming.len() == 0 {
            return None;
        }
        let m = self.incoming.remove(0);
        assert(self.incoming() =~= old(self).incoming().drop_first());
        Some(m)
    }

    /// Logs in as `user` with password `pass`.
    pub fn login(&mut self, user: &str, pass: &str)
        ensures
            final(self).outgoing() == old(self).outgoing().push(
                ("LOGIN"@, seq![("username"@, user@), ("password"@, pass@)]),
            ),
            final(self).incoming() == old(self).incoming(),
    {
        let m = message_with("LOGIN", vec![field("username", user), field("password", pass)]);
        assert(field_texts(m.fields@) =~= seq![("username"@, user@), ("password"@, pass@)]);
        self.send(m);
    }

    /// Registers a new user `user` with password `pass`.
    pub fn register(&mut self, user: &str, pass: &str)
        ensures
            final(self).outgoing() == old(self).outgoing().push(
                ("REGISTER"@, seq![("username"@, user@), ("password"@, pass@)]),
            ),
            final(self).incoming() == old(self).incoming(),
    {
        let m = message_with("REGISTER", vec![field("username", user), field("password", pass)]);
        assert(field_texts(m.fields@) =~= seq![("username"@, user@), ("password"@, pass@)]);
        self.send(m);
    }

    /// Asks for the list of users.
    pub fn list_users(&mut self)
        ensures
            final(self).outgoing() == old(self).outgoing().push(("LIST_USERS"@, seq![])),
            final(self).incoming() == old(self).incoming(),
    {
        let m = message_with("LIST_USERS", Vec::new());
        assert(field_texts(m.fields@) =~= seq![]);
        self.send(m);
    }

    /// Queues a message with one field.
    fn send1(&mut self, typ: &str, k: &str, v: &str)
        ensures
            final(self).outgoing() == old(self).outgoing().push((typ@, seq![(k@, v@)])),
            final(self).incoming() == old(self).incoming(),
    {
        let m = message_with(typ, vec![field(k, v)]);
        assert(field_texts(m.fields@) =~= seq![(k@, v@)]);
        self.send(m);
    }

    /// Queues a message with the fields `to` and `sdp`.
    fn send_sdp(&mut self, typ: &str, to: &str, sdp: &str)
        ensures
            final(self).outgoing() == old(self).outgoing().push(
                (typ@, seq![("to"@, to@), ("sdp"@, sdp@)]),
            ),
            final(self).incoming() == old(self).incoming(),
    {
        let m = message_with(typ, vec![field("to", to), field("sdp", sdp)]);
        assert(field_texts(m.fields@) =~= seq![("to"@, to@), ("sdp"@, sdp@)]);
        self.send(m);
    }

    /// Invites user `to` to a call.
    pub fn invite(&mut self, to: &str)
        ensures
            final(self).outgoing() == old(self).outgoing().push(("INVITE"@, seq![("to"@, to@)])),
            final(self).incoming() == old(self).incoming(),
    {
        self.send1("INVITE", "to", to);
    }

    /// Accepts the call from `from`.
    pub fn accept_call(&mut self, from: &str)
        ensures
            final(self).outgoing() == old(self).outgoing().push(
                ("ACCEPT_CALL"@, seq![("from"@, from@)]),
            ),
            final(self).incoming() == old(self).incoming(),
    {
        self.send1("ACCEPT_CALL", "from", from);
    }

    /// Rejects the call from `from`.
    pub fn reject_call(&mut self, from: &str)
        ensures
            final(self).outgoing() == old(self).outgoing().push(
                ("REJECT_CALL"@, seq![("from"@, from@)]),
            ),
            final(self).incoming() == old(self).incoming(),
    {
        self.send1("REJECT_CALL", "from", from);
    }

    /// Sends an SDP offer to `to`.
    pub fn send_offer(&mut self, to: &str, sdp: &str)
        ensures
            final(self).outgoing() == old(self).outgoing().push(
                ("OFFER"@, seq![("to"@, to@), ("sdp"@, sdp@)]),
            ),
            final(self).incoming() == old(self).incoming(),
    {
        self.send_sdp("OFFER", to, sdp);
    }

    /// Sends an SDP answer to `to`.
    pub fn send_answer(&mut self, to: &str, sdp: &str)
        ensures
            final(self).outgoing() == old(self).outgoing().push(
                ("ANSWER"@, seq![("to"@, to@), ("sdp"@, sdp@)]),
            ),
            final(self).incoming() == old(self).incoming(),
    {
        self.send_sdp("ANSWER", to, sdp);
    }

    /// Sends the local SDP to `to`.
    pub fn send_local_sdp(&mut self, to: &str, sdp: &str)
        ensures
            final(self).outgoing() == old(self).outgoing().push(
                ("SDP"@, seq![("to"@, to@), ("sdp"@, sdp@)]),
            ),
            final(self).incoming() == old(self).incoming(),
    {
        self.send_sdp("SDP", to, sdp);
    }

    /// Ends the call with `with`.
    pub fn end_call(&mut self, with: &str)
        ensures
            final(self).outgoing() == old(self).outgoing().push(("END_CALL"@, seq![("with"@, with@)])),
            final(self).incoming() == old(self).incoming(),
    {
        self.send1("END_CALL", "with", with);
    }

    /// Logs out.
    pub fn logout(&mut self)
        ensures
            final(self).outgoing() == old(self).outgoing().push(("LOGOUT"@, seq![])),
            final(self).incoming() == old(self).incoming(),
    {
        let m = message_with("LOGOUT", Vec::new());
        assert(field_texts(m.fields@) =~= seq![]);
        self.send(m);
    }

    /// Offers the file described by `file_metadata` to `to` on data channel `stream_id`:
    /// its name, its size in decimal and its SHA-256 in lowercase hexadecimal.
    pub fn send_offer_file(&mut self, to: &str, stream_id: u16, file_metadata: &FileMetadata)
        ensures
            final(self).outgoing() == old(self).outgoing().push(
                (
                    "OFFER_FILE"@,
                    seq![
                        ("to"@, to@),
                        ("stream_id"@, decimal(stream_id as nat)),
                        ("file_name"@, file_metadata.name@),
                        ("file_size"@, decimal(file_metadata.size as nat)),
                        ("file_sha256"@, hex_lower(file_metadata.sha256@)),
                    ],
                ),
            ),
            final(self).incoming() == old(self).incoming(),
    {
        let m = message_with(
            "OFFER_FILE",
            vec![
                field("to", to),
                (String::from_str("stream_id"), u64_to_decimal(stream_id as u64)),
                (String::from_str("file_name"), file_metadata.name.clone()),
                (String::from_str("file_size"), u64_to_decimal(file_metadata.size)),
                (String::from_str("file_sha256"), hex_encode(&file_metadata.sha256)),
            ],
        );
        assert(field_texts(m.fields@) =~= seq![
            ("to"@, to@),
            ("stream_id"@, decimal(stream_id as nat)),
            ("file_name"@, file_metadata.name@),
            ("file_size"@, decimal(file_metadata.size as nat)),
            ("file_sha256"@, hex_lower(file_metadata.sha256@)),
        ]);
        self.send(m);
    }

    /// Accepts the file offered on `stream_id` by `to`.
    pub fn send_accept_file(&mut self, to: &str, stream_id: u16)
        ensures
            final(self).outgoing() == old(self).outgoing().push(
                ("ACCEPT_FILE"@, seq![("to"@, to@), ("stream_id"@, decimal(stream_id as nat))]),
            ),
            final(self).incoming() == old(self).incoming(),
    {
        let m = message_with(
            "ACCEPT_FILE",
            vec![field("to", to), (String::from_str("stream_id"), u64_to_decimal(stream_id as u64))],
        );
        assert(field_texts(m.fields@) =~= seq![("to"@, to@), ("stream_id"@, decimal(stream_id as nat))]);
        self.send(m);
    }

    /// Refuses the file offered on `stream_id` by `to`, giving `reason`.
    pub fn send_reject_file(&mut self, to: &str, stream_id: u16, reason: &str)
        ensures
            final(self).outgoing() == old(self).outgoing().push(
                (
                    "REJECT_FILE"@,
                    seq![
                        ("to"@, to@),
                        ("stream_id"@, decimal(stream_id as nat)),
                        ("reason"@, reason@),
                    ],
                ),
            ),
            final(self).incoming() == old(self).incoming(),
    {
        let m = message_with(
            "REJECT_FILE",
            vec![
                field("to", to),
                (String::from_str("stream_id"), u64_to_decimal(stream_id as u64)),
                field("reason", reason),
            ],
        );
        assert(field_texts(m.fields@) =~= seq![
            ("to"@, to@),
            ("stream_id"@, decimal(stream_id as nat)),
            ("reason"@, reason@),
        ]);
        self.send(m);
    }
}

/// What the server's answer `reply` to a registration means: registered on `OK` with
/// message "Registrado"; the message of an `ERROR` (or "Error desconocido" without one);
/// otherwise an unexpected answer.
pub open spec fn register_reply(reply: Seq<char>) -> Result<(), Seq<char>> {
    let t = line_type(reply);
    let m = field_value(line_fields(reply), "msg"@);
    if t == "OK"@ && m == Some("Registrado"@) {
        Ok(())
    } else if t == "ERROR"@ {
        match m {
            Some(e) => Err(e),
            None => Err("Error desconocido"@),
        }
    } else {
        Err("Respuesta inesperada del servidor"@)
    }
}

/// Reads the server's answer to a registration (see `register_reply`).
pub fn register_outcome(reply: &str) -> (r: Result<(), String>)
    ensures
        match register_reply(reply@) {
            Ok(()) => r is Ok,
            Err(e) => r matches Err(s) && s@ == e,
        },
{
    let msg = match parse_message(reply) {
        Some(m) => m,
        None => {
            return Err(String::from_str("Mensaje inválido del servidor"));
        },
    };
    let t = msg.msg_type.as_str();
    let field = msg.get("msg");
    if str_eq(t, "OK") {
        if let Some(v) = field {
            if str_eq(v.as_str(), "Registrado") {
                return Ok(());
            }
        }
    }
    if str_eq(t, "ERROR") {
        return match field {
            Some(v) => Err(v.clone()),
            None => Err(String::from_str("Error desconocido")),
        };
    }
    Err(String::from_str("Respuesta inesperada del servidor"))
}

} // verus!
