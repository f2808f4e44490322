//! The lobby's state: logging in, the list of users, and the progress of calls, driven by
//! the messages the signaling server sends.
use crate::app::signaling_client::SignalingClient;
use crate::protocols::message::{field_value, Message};
use crate::text::{find_char, split_on, split_ranges, first_index_of, str_chars, str_eq, string_from_range};
use vstd::prelude::*;

verus! {

/// The screens of the application.
#[derive(Clone, Debug)]
pub enum AppScreen {
    Lobby,
    Call { peer: String },
}

/// A message: its type and fields.
pub type MsgView = (Seq<char>, Seq<(Seq<char>, Seq<char>)>);

/// A screen, with the peer's name for a call.
pub enum ScreenView {
    Lobby,
    Call(Seq<char>),
}

/// The view of a screen.
pub open spec fn screen_view(s: AppScreen) -> ScreenView {
    match s {
        AppScreen::Lobby => ScreenView::Lobby,
        AppScreen::Call { peer } => ScreenView::Call(peer@),
    }
}

/// The queues of a signaling client.
pub struct ClientView {
    pub outgoing: Seq<MsgView>,
    pub incoming: Seq<MsgView>,
}

/// The view of a signaling client.
pub open spec fn client_view(c: SignalingClient) -> ClientView {
    ClientView { outgoing: c.outgoing(), incoming: c.incoming() }
}

/// The views of an optional client.
pub open spec fn opt_client(c: Option<SignalingClient>) -> Option<ClientView> {
    match c {
        Some(c) => Some(client_view(c)),
        None => None,
    }
}

/// An optional text.
pub open spec fn opt_text(o: Option<String>) -> Option<Seq<char>> {
    match o {
        Some(s) => Some(s@),
        None => None,
    }
}

/// What the lobby shows and remembers.
pub struct LobbyView {
    pub client: Option<ClientView>,
    pub pending: Option<ClientView>,
    pub users: Seq<(Seq<char>, Seq<char>)>,
    pub incoming_call: Option<Seq<char>>,
    pub login_error: Option<Seq<char>>,
    pub call_error: Option<Seq<char>>,
    pub register_success: Option<Seq<char>>,
    pub current_peer: Option<Seq<char>>,
    pub next_screen: Option<ScreenView>,
    pub is_caller: bool,
}

/// A message to the client still logging in: "OK" with "Login exitoso" makes it the
/// logged-in client and clears the login messages; "ERROR" shows its message (or
/// "Error desconocido") and drops the client.
pub open spec fn pending_msg(v: LobbyView, m: MsgView) -> LobbyView {
    if m.0 == "OK"@ {
        if field_value(m.1, "msg"@) == Some("Login exitoso"@) {
            LobbyView { client: v.pending, pending: None, login_error: None, register_success: None, ..v }
        } else {
            v
        }
    } else if m.0 == "ERROR"@ {
        LobbyView {
            login_error: Some(
                match field_value(m.1, "msg"@) {
                    Some(e) => e,
                    None => "Error desconocido"@,
                },
            ),
            pending: None,
            ..v
        }
    } else {
        v
    }
}

/// The messages to the client logging in, one after the other.
pub open spec fn pending_msgs(v: LobbyView, ms: Seq<MsgView>) -> LobbyView
    decreases ms.len(),
{
    if ms.len() == 0 {
        v
    } else {
        pending_msg(pending_msgs(v, ms.drop_last()), ms.last())
    }
}

/// The users of a USER_LIST text: its ';'-separated entries that hold a ':', split at
/// the first one into name and state.
pub open spec fn list_entries(pieces: Seq<Seq<char>>) -> Seq<(Seq<char>, Seq<char>)>
    decreases pieces.len(),
{
    if pieces.len() == 0 {
        Seq::empty()
    } else {
        let prev = list_entries(pieces.drop_last());
        let e = pieces.last();
        match first_index_of(e, ':') {
            Some(i) => prev.push((e.subrange(0, i), e.subrange(i + 1, e.len() as int))),
            None => prev,
        }
    }
}

/// The state of the first user named `name`, if any.
pub open spec fn state_of(users: Seq<(Seq<char>, Seq<char>)>, name: Seq<char>) -> Option<Seq<char>> {
    if exists|i: int| 0 <= i < users.len() && users[i].0 == name {
        let i = choose|i: int| 0 <= i < users.len() && users[i].0 == name && forall|j: int| 0 <= j < i ==> users[j].0 != name;
        Some(users[i].1)
    } else {
        None
    }
}

/// The lobby with the call forgotten.
pub open spec fn forget_call(v: LobbyView) -> LobbyView {
    LobbyView { current_peer: None, is_caller: false, incoming_call: None, next_screen: None, ..v }
}

/// A message to the logged-in client: a new user list (after which a peer that is now
/// disconnected ends the call), an incoming call, the call accepted (this side called) or
/// established (this side answered), rejected, or ended.
pub open spec fn client_msg(v: LobbyView, m: MsgView) -> LobbyView {
    let (t, f) = m;
    if t == "USER_LIST"@ {
        let v1 = match field_value(f, "list"@) {
            Some(raw) => LobbyView { users: list_entries(split_on(raw, ';')), ..v },
            None => v,
        };
        match v1.current_peer {
            Some(peer) => if state_of(v1.users, peer) == Some("desconectado"@) {
                forget_call(v1)
            } else {
                v1
            },
            None => v1,
        }
    } else if t == "INCOMING_CALL"@ {
        match field_value(f, "from"@) {
            Some(from) => LobbyView { incoming_call: Some(from), ..v },
            None => v,
        }
    } else if t == "CALL_ACCEPTED"@ {
        match field_value(f, "by"@) {
            Some(by) => LobbyView { current_peer: Some(by), is_caller: true, next_screen: Some(ScreenView::Call(by)), ..v },
            None => v,
        }
    } else if t == "CALL_ESTABLISHED"@ {
        match field_value(f, "with"@) {
            Some(w) => LobbyView { current_peer: Some(w), is_caller: false, next_screen: Some(ScreenView::Call(w)), ..v },
            None => v,
        }
    } else if t == "CALL_REJECTED"@ {
        LobbyView {
            call_error: Some("El usuario rechazó la llamada"@),
            incoming_call: None,
            current_peer: None,
            is_caller: false,
            ..v
        }
    } else if t == "CALL_ENDED"@ {
        LobbyView { incoming_call: None, current_peer: None, is_caller: false, ..v }
    } else {
        v
    }
}

/// The messages to the logged-in client, one after the other.
pub open spec fn client_msgs(v: LobbyView, ms: Seq<MsgView>) -> LobbyView
    decreases ms.len(),
{
    if ms.len() == 0 {
        v
    } else {
        client_msg(client_msgs(v, ms.drop_last()), ms.last())
    }
}

/// One poll: every message waiting for the client logging in, then every message waiting
/// for the logged-in client (which may have just become so).
pub open spec fn poll_step(v: LobbyView) -> LobbyView {
    let v1 = match v.pending {
        Some(p) => pending_msgs(LobbyView { pending: Some(ClientView { incoming: Seq::empty(), ..p }), ..v }, p.incoming),
        None => v,
    };
    match v1.client {
        Some(c) => client_msgs(LobbyView { client: Some(ClientView { incoming: Seq::empty(), ..c }), ..v1 }, c.incoming),
        None => v1,
    }
}

/// The lobby screen's state.
pub struct LobbyApp {
    pub client: Option<SignalingClient>,
    pub pending_client: Option<SignalingClient>,
    pub username: String,
    pub password: String,
    pub server_addr: String,
    pub users: Vec<(String, String)>,
    pub incoming_call: Option<String>,
    pub login_error: Option<String>,
    pub call_error: Option<String>,
    pub register_success: Option<String>,
    pub current_peer: Option<String>,
    pub next_screen: Option<AppScreen>,
    pub is_caller: bool,
    pub tls_psk: String,
}

/// The texts of a list of name and state pairs.
pub open spec fn pair_views(v: Seq<(String, String)>) -> Seq<(Seq<char>, Seq<char>)> {
    v.map_values(|p: (String, String)| (p.0@, p.1@))
}

/// The view of an optional screen.
pub open spec fn opt_screen(s: Option<AppScreen>) -> Option<ScreenView> {
    match s {
        Some(s) => Some(screen_view(s)),
        None => None,
    }
}

impl Default for LobbyApp {
    fn default() -> (l: Self)
        ensures
            l.client is None,
            l.pending_client is None,
            l.username@.len() == 0,
            l.password@.len() == 0,
            l.server_addr@.len() == 0,
            l.users@.len() == 0,
            l.incoming_call is None,
            l.login_error is None,
            l.call_error is None,
            l.register_success is None,
            l.current_peer is None,
            l.next_screen is None,
            !l.is_caller,
            l.tls_psk@.len() == 0,
    {
        LobbyApp {
            client: None,
            pending_client: None,
            username: String::new(),
            password: String::new(),
            server_addr: String::new(),
            users: Vec::new(),
            incoming_call: None,
            login_error: None,
            call_error: None,
            register_success: None,
            current_peer: None,
            next_screen: None,
            is_caller: false,
            tls_psk: String::new(),
        }
    }
}

/// Takes every message waiting in a client's incoming queue, oldest first.
fn drain(cli: &mut SignalingClient) -> (msgs: Vec<Message>)
    ensures
        crate::app::signaling_client::message_views(msgs@) == old(cli).incoming(),
        final(cli).incoming() == Seq::<MsgView>::empty(),
        final(cli).outgoing() == old(cli).outgoing(),
{
    let mut msgs: Vec<Message> = Vec::new();
    let ghost all = cli.incoming();
    proof {
        assert(crate::app::signaling_client::message_views(msgs@) =~= Seq::<MsgView>::empty());
        assert(all =~= Seq::<MsgView>::empty() + cli.incoming());
    }
    loop
        invariant
            all == old(cli).incoming(),
            crate::app::signaling_client::message_views(msgs@) + cli.incoming() == all,
            cli.outgoing() == old(cli).outgoing(),
        ensures
            crate::app::signaling_client::message_views(msgs@) == all,
            cli.incoming() == Seq::<MsgView>::empty(),
            cli.outgoing() == old(cli).outgoing(),
        decreases cli.incoming().len(),
    {
        let ghost before = cli.incoming();
        let ghost got = crate::app::signaling_client::message_views(msgs@);
        match cli.try_recv() {
            Some(m) => {
                msgs.push(m);
                assert(crate::app::signaling_client::message_views(msgs@) =~= got.push(before[0]));
                assert(got.push(before[0]) + before.drop_first() =~= got + before);
            },
            None => {
                assert(got + before =~= got);
                break;
            },
        }
    }
    msgs
}

/// The entries of a USER_LIST text.
fn parse_user_list(raw: &String) -> (v: Vec<(String, String)>)
    ensures
        pair_views(v@) == list_entries(split_on(raw@, ';')),
{
    let cs = str_chars(raw.as_str());
    let pieces = split_ranges(&cs, 0, cs.len(), ';');
    let ghost ps = split_on(raw@, ';');
    assert(cs@.subrange(0, cs@.len() as int) =~= raw@);
    let mut v: Vec<(String, String)> = Vec::new();
    let mut k: usize = 0;
    proof {
        assert(ps.take(0) =~= Seq::<Seq<char>>::empty());
        assert(pair_views(v@) =~= Seq::<(Seq<char>, Seq<char>)>::empty());
    }
    while k < pieces.len()
        invariant
            k <= pieces@.len() == ps.len(),
            ps == split_on(raw@, ';'),
            forall|x: int|
                0 <= x < pieces@.len() ==> 0 <= (#[trigger] pieces@[x]).0 <= pieces@[x].1 <= cs@.len()
                    && cs@.subrange(pieces@[x].0 as int, pieces@[x].1 as int) == ps[x],
            pair_views(v@) == list_entries(ps.take(k as int)),
        decreases pieces@.len() - k,
    {
        let (a, b) = pieces[k];
        proof {
            let t = ps.take(k + 1);
            assert(t.drop_last() =~= ps.take(k as int));
            assert(t.last() == ps[k as int]);
        }
        match find_char(&cs, a, b, ':') {
            Some(c) => {
                let name = string_from_range(&cs, a, c);
                let state = string_from_range(&cs, c + 1, b);
                let ghost before = pair_views(v@);
                let ghost e = ps[k as int];
                proof {
                    assert(cs@.subrange(a as int, c as int) =~= e.subrange(0, c - a));
                    assert(cs@.subrange(c + 1, b as int) =~= e.subrange(c - a + 1, e.len() as int));
                }
                v.push((name, state));
                assert(pair_views(v@) =~= before.push((e.subrange(0, c - a), e.subrange(c - a + 1, e.len() as int))));
            },
            None => {},
        }
        k += 1;
    }
    assert(ps.take(k as int) =~= ps);
    v
}

impl LobbyApp {
    /// What this lobby shows and remembers.
    pub open spec fn view(self) -> LobbyView {
        LobbyView {
            client: opt_client(self.client),
            pending: opt_client(self.pending_client),
            users: pair_views(self.users@),
            incoming_call: opt_text(self.incoming_call),
            login_error: opt_text(self.login_error),
            call_error: opt_text(self.call_error),
            register_success: opt_text(self.register_success),
            current_peer: opt_text(self.current_peer),
            next_screen: opt_screen(self.next_screen),
            is_caller: self.is_caller,
        }
    }

    /// Forgets the call in progress: no peer, no incoming call, no call error, no screen
    /// to switch to, and not the caller.
    pub fn reset_call_state(&mut self)
        ensures
            final(self).view() == (LobbyView {
                current_peer: None,
                incoming_call: None,
                call_error: None,
                next_screen: None,
                is_caller: false,
                ..old(self).view()
            }),
            final(self).username@ == old(self).username@,
            final(self).password@ == old(self).password@,
            final(self).server_addr@ == old(self).server_addr@,
            final(self).tls_psk@ == old(self).tls_psk@,
    {
        self.is_caller = false;
        self.current_peer = None;
        self.incoming_call = None;
        self.call_error = None;
        self.next_screen = None;
    }

    /// The state of the first listed user named `name`.
    fn listed_state(&self, name: &String) -> (r: Option<&String>)
        ensures
            match state_of(pair_views(self.users@), name@) {
                Some(s) => r matches Some(t) && t@ == s,
                None => r is None,
            },
    {
        let ghost us = pair_views(self.users@);
        let mut i: usize = 0;
        while i < self.users.len()
            invariant
                us == pair_views(self.users@),
                i <= us.len(),
                forall|j: int| 0 <= j < i ==> us[j].0 != name@,
            decreases us.len() - i,
        {
            if str_eq(self.users[i].0.as_str(), name.as_str()) {
                proof {
                    assert(us[i as int].0 == name@);
                    let w = choose|w: int| 0 <= w < us.len() && us[w].0 == name@ && forall|j: int| 0 <= j < w ==> us[j].0 != name@;
                    assert(0 <= i < us.len() && us[i as int].0 == name@ && forall|j: int| 0 <= j < i ==> us[j].0 != name@);
                    assert(w == i) by {
                        if w < i {
                            assert(us[w].0 != name@);
                        } else if w > i {
                            assert(us[i as int].0 != name@);
                        }
                    }
                }
                return Some(&self.users[i].1);
            }
            i += 1;
        }
        None
    }

    /// One message to the client logging in.
    fn on_pending_message(&mut self, msg: &Message)
        ensures
            final(self).username@ == old(self).username@,
            final(self).password@ == old(self).password@,
            final(self).server_addr@ == old(self).server_addr@,
            final(self).tls_psk@ == old(self).tls_psk@,
            final(self).view() == pending_msg(old(self).view(), (msg.msg_type@, msg.field_view())),
    {
        let t = msg.msg_type.as_str();
        if str_eq(t, "OK") {
            let ok = match msg.get("msg") {
                Some(m) => str_eq(m.as_str(), "Login exitoso"),
                None => false,
            };
            if ok {
                self.client = self.pending_client.take();
                self.login_error = None;
                self.register_success = None;
            }
        } else if str_eq(t, "ERROR") {
            let err = match msg.get("msg") {
                Some(m) => m.clone(),
                None => String::from_str("Error desconocido"),
            };
            self.login_error = Some(err);
            self.pending_client = None;
        }
    }

    /// One message to the logged-in client.
    #[verifier::spinoff_prover]
    #[verifier::rlimit(40)]
    fn on_client_message(&mut self, msg: &Message)
        ensures
            final(self).username@ == old(self).username@,
            final(self).password@ == old(self).password@,
            final(self).server_addr@ == old(self).server_addr@,
            final(self).tls_psk@ == old(self).tls_psk@,
            final(self).view() == client_msg(old(self).view(), (msg.msg_type@, msg.field_view())),
    {
        let t = msg.msg_type.as_str();
        if str_eq(t, "USER_LIST") {
            match msg.get("list") {
                Some(raw) => {
                    self.users = parse_user_list(raw);
                },
                None => {},
            }
            let gone = match &self.current_peer {
                Some(peer) => match self.listed_state(peer) {
                    Some(st) => str_eq(st.as_str(), "desconectado"),
                    None => false,
                },
                None => false,
            };
            if gone {
                self.current_peer = None;
                self.is_caller = false;
                self.incoming_call = None;
                self.next_screen = None;
            }
        } else if str_eq(t, "INCOMING_CALL") {
            match msg.get("from") {
                Some(from) => {
                    self.incoming_call = Some(from.clone());
                },
                None => {},
            }
        } else if str_eq(t, "CALL_ACCEPTED") {
            match msg.get("by") {
                Some(by) => {
                    self.current_peer = Some(by.clone());
                    self.is_caller = true;
                    self.next_screen = Some(AppScreen::Call { peer: by.clone() });
                },
                None => {},
            }
        } else if str_eq(t, "CALL_ESTABLISHED") {
            match msg.get("with") {
                Some(w) => {
                    self.current_peer = Some(w.clone());
                    self.is_caller = false;
                    self.next_screen = Some(AppScreen::Call { peer: w.clone() });
                },
                None => {},
            }
        } else if str_eq(t, "CALL_REJECTED") {
            self.call_error = Some(String::from_str("El usuario rechazó la llamada"));
            self.incoming_call = None;
            self.current_peer = None;
            self.is_caller = false;
        } else if str_eq(t, "CALL_ENDED") {
            self.incoming_call = None;
            self.current_peer = None;
            self.is_caller = false;
        }
    }

    /// Handles every message the signaling server sent: first those for the client that
    /// is logging in, then those for the logged-in client; see `poll_step`.
    pub fn poll_messages(&mut self)
        ensures
            final(self).view() == poll_step(old(self).view()),
            final(self).username@ == old(self).username@,
            final(self).password@ == old(self).password@,
            final(self).server_addr@ == old(self).server_addr@,
            final(self).tls_psk@ == old(self).tls_psk@,
    {
        let ghost v0 = self.view();
        let mut pending_msgs_v: Vec<Message> = Vec::new();
        match &mut self.pending_client {
            Some(cli) => {
                pending_msgs_v = drain(cli);
            },
            None => {},
        }
        let ghost v_start = self.view();
        let mut k: usize = 0;
        proof {
            assert(v_start =~~= match v0.pending {
                Some(p) => LobbyView { pending: Some(ClientView { incoming: Seq::empty(), ..p }), ..v0 },
                None => v0,
            });
            assert(crate::app::signaling_client::message_views(pending_msgs_v@).take(0) =~= Seq::<MsgView>::empty());
        }
        let ghost ms = crate::app::signaling_client::message_views(pending_msgs_v@);
        while k < pending_msgs_v.len()
            invariant
                k <= pending_msgs_v@.len(),
                ms == crate::app::signaling_client::message_views(pending_msgs_v@),
                self.view() == pending_msgs(v_start, ms.take(k as int)),
                self.username@ == old(self).username@,
                self.password@ == old(self).password@,
                self.server_addr@ == old(self).server_addr@,
                self.tls_psk@ == old(self).tls_psk@,
            decreases pending_msgs_v@.len() - k,
        {
            self.on_pending_message(&pending_msgs_v[k]);
            proof {
                let t = ms.take(k + 1);
                assert(t.drop_last() =~= ms.take(k as int));
            }
            k += 1;
        }
        proof {
            assert(ms.take(k as int) =~= ms);
            match v0.pending {
                Some(p) => {
                    assert(ms == p.incoming);
                },
                None => {
                    assert(ms =~= Seq::<MsgView>::empty());
                },
            }
        }
        let ghost v1 = self.view();
        let mut client_msgs_v: Vec<Message> = Vec::new();
        match &mut self.client {
            Some(cli) => {
                client_msgs_v = drain(cli);
            },
            None => {},
        }
        let ghost v_mid = self.view();
        let ghost cm = crate::app::signaling_client::message_views(client_msgs_v@);
        let mut j: usize = 0;
        proof {
            assert(cm.take(0) =~= Seq::<MsgView>::empty());
        }
        while j < client_msgs_v.len()
            invariant
                j <= client_msgs_v@.len(),
                cm == crate::app::signaling_client::message_views(client_msgs_v@),
                self.view() == client_msgs(v_mid, cm.take(j as int)),
                self.username@ == old(self).username@,
                self.password@ == old(self).password@,
                self.server_addr@ == old(self).server_addr@,
                self.tls_psk@ == old(self).tls_psk@,
            decreases client_msgs_v@.len() - j,
        {
            self.on_client_message(&client_msgs_v[j]);
            proof {
                let t = cm.take(j + 1);
                assert(t.drop_last() =~= cm.take(j as int));
            }
            j += 1;
        }
        proof {
            assert(cm.take(j as int) =~= cm);
            match v1.client {
                Some(c) => {
                    assert(cm == c.incoming);
                },
                None => {
                    assert(cm =~= Seq::<MsgView>::empty());
                },
            }
        }
    }
}

} // verus!
