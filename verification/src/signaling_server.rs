//! The signaling server's decisions: what each message from a client changes in the
//! server's state and what is sent to whom. The connection handling (reading, writing,
//! the users file, the sockets of online users) is the caller's.
use crate::protocols::message::{field_texts, field_value, message_text, Message};
use crate::text::{lines_of, line_ranges, push_char, push_str, split_on, split_ranges, str_chars, str_eq, string_from_range, trim_range, trim_ws};
use vstd::prelude::*;

verus! {

/// A registered user and its presence state.
#[derive(Clone)]
pub struct User {
    pub username: String,
    pub password: String,
    pub state: String,
}

/// The users the server knows and who is online.
pub struct ServerState {
    pub users: Vec<User>,
    pub online: Vec<String>,
    pub max_clients: usize,
    pub users_file: String,
}

/// What the connection handling must do after a message.
pub enum ServerAction {
    /// Write the text to the client that sent the message.
    Reply(String),
    /// Write the text to the named user, if online.
    SendTo(String, String),
    /// Write the text to every online user.
    Broadcast(String),
    /// Append the user and password to the users file.
    SaveUser(String, String),
    /// Remember the sending connection as the named user's.
    GoOnline(String),
}

/// How the connection handling goes on after a message.
#[derive(Debug, Clone, Copy, PartialEq, Eq, Structural)]
pub enum Flow {
    /// Read the next message.
    Continue,
    /// Stop serving this client without the closing message.
    Return,
    /// Stop serving this client.
    Break,
}

/// The texts of an action.
pub enum ActionView {
    Reply(Seq<char>),
    SendTo(Seq<char>, Seq<char>),
    Broadcast(Seq<char>),
    SaveUser(Seq<char>, Seq<char>),
    GoOnline(Seq<char>),
}

/// The texts of an action.
pub open spec fn action_view(a: ServerAction) -> ActionView {
    match a {
        ServerAction::Reply(t) => ActionView::Reply(t@),
        ServerAction::SendTo(u, t) => ActionView::SendTo(u@, t@),
        ServerAction::Broadcast(t) => ActionView::Broadcast(t@),
        ServerAction::SaveUser(u, p) => ActionView::SaveUser(u@, p@),
        ServerAction::GoOnline(u) => ActionView::GoOnline(u@),
    }
}

/// The texts of a list of actions.
pub open spec fn action_views(v: Seq<ServerAction>) -> Seq<ActionView> {
    v.map_values(|a: ServerAction| action_view(a))
}

/// Name, password and state of a user.
pub open spec fn user_view(u: User) -> (Seq<char>, Seq<char>, Seq<char>) {
    (u.username@, u.password@, u.state@)
}

/// The views of a list of users.
pub open spec fn user_views(v: Seq<User>) -> Seq<(Seq<char>, Seq<char>, Seq<char>)> {
    v.map_values(|u: User| user_view(u))
}

/// The texts of a list of names.
pub open spec fn name_views(v: Seq<String>) -> Seq<Seq<char>> {
    v.map_values(|s: String| s@)
}

/// What the server knows.
pub struct ServerModel {
    pub users: Seq<(Seq<char>, Seq<char>, Seq<char>)>,
    pub online: Seq<Seq<char>>,
    pub max_clients: nat,
}

/// The position of the first user named `name`, if any.
pub open spec fn user_index(us: Seq<(Seq<char>, Seq<char>, Seq<char>)>, name: Seq<char>) -> Option<int> {
    if exists|i: int| 0 <= i < us.len() && us[i].0 == name {
        Some(choose|i: int| 0 <= i < us.len() && us[i].0 == name && forall|j: int| 0 <= j < i ==> us[j].0 != name)
    } else {
        None
    }
}

/// The users with the state of `name` (if known) set to `st`.
pub open spec fn set_state(us: Seq<(Seq<char>, Seq<char>, Seq<char>)>, name: Seq<char>, st: Seq<char>) -> Seq<
    (Seq<char>, Seq<char>, Seq<char>),
> {
    match user_index(us, name) {
        Some(i) => us.update(i, (us[i].0, us[i].1, st)),
        None => us,
    }
}

/// "name:state" for each user, separated by ';'.
pub open spec fn user_list_text(us: Seq<(Seq<char>, Seq<char>, Seq<char>)>) -> Seq<char>
    decreases us.len(),
{
    if us.len() == 0 {
        Seq::empty()
    } else if us.len() == 1 {
        us[0].0 + seq![':'] + us[0].2
    } else {
        user_list_text(us.drop_last()) + seq![';'] + us.last().0 + seq![':'] + us.last().2
    }
}

/// An ERROR reply with the given message.
pub open spec fn error_reply(m: Seq<char>) -> ActionView {
    ActionView::Reply(message_text("ERROR"@, seq![("msg"@, m)]))
}

/// The USER_LIST message of the users.
pub open spec fn user_list_msg(us: Seq<(Seq<char>, Seq<char>, Seq<char>)>) -> Seq<char> {
    message_text("USER_LIST"@, seq![("list"@, user_list_text(us))])
}

/// The fields of `fv` except those named `k`.
pub open spec fn without_key(fv: Seq<(Seq<char>, Seq<char>)>, k: Seq<char>) -> Seq<(Seq<char>, Seq<char>)>
    decreases fv.len(),
{
    if fv.len() == 0 {
        Seq::empty()
    } else {
        without_key(fv.drop_last(), k) + if fv.last().0 == k {
            Seq::empty()
        } else {
            seq![fv.last()]
        }
    }
}

/// REGISTER: a new user is saved and told "Registrado"; a known name is refused. The
/// client is then let go.
pub open spec fn register_step(s: ServerModel, fv: Seq<(Seq<char>, Seq<char>)>) -> (ServerModel, Seq<ActionView>) {
    match (field_value(fv, "username"@), field_value(fv, "password"@)) {
        (Some(u), Some(p)) => if user_index(s.users, u) is Some {
            (s, seq![error_reply("Ya existe"@)])
        } else {
            (
                ServerModel { users: s.users.push((u, p, "desconectado"@)), ..s },
                seq![
                    ActionView::SaveUser(u, p),
                    ActionView::Reply(message_text("OK"@, seq![("msg"@, "Registrado"@)])),
                ],
            )
        },
        _ => (s, seq![]),
    }
}

/// LOGIN: refused when the server is full, the user is already online, unknown, or the
/// password is wrong; otherwise the user goes online and available, becomes the
/// connection's user, is told "Login exitoso", and everyone gets the new user list.
pub open spec fn login_step(s: ServerModel, cur: Option<Seq<char>>, fv: Seq<(Seq<char>, Seq<char>)>) -> (
    ServerModel,
    Option<Seq<char>>,
    Seq<ActionView>,
) {
    if s.online.len() >= s.max_clients {
        (s, cur, seq![error_reply("Servidor lleno"@)])
    } else {
        match (field_value(fv, "username"@), field_value(fv, "password"@)) {
            (Some(u), Some(p)) => if s.online.contains(u) {
                (s, cur, seq![error_reply("Usuario ya conectado"@)])
            } else {
                match user_index(s.users, u) {
                    Some(i) => if s.users[i].1 == p {
                        let users = set_state(s.users, u, "disponible"@);
                        (
                            ServerModel { users, online: s.online.push(u), ..s },
                            Some(u),
                            seq![
                                ActionView::GoOnline(u),
                                ActionView::Reply(message_text("OK"@, seq![("msg"@, "Login exitoso"@)])),
                                ActionView::Broadcast(user_list_msg(users)),
                            ],
                        )
                    } else {
                        (s, cur, seq![error_reply("Contrasena incorrecta"@)])
                    },
                    None => (s, cur, seq![error_reply("Usuario no existe"@)]),
                }
            },
            _ => (s, cur, seq![]),
        }
    }
}

/// INVITE from the connection's user: refused for an unknown user or oneself; otherwise
/// both become busy, everyone gets the new list and the invited user is told.
pub open spec fn invite_step(s: ServerModel, cur: Option<Seq<char>>, fv: Seq<(Seq<char>, Seq<char>)>) -> (
    ServerModel,
    Seq<ActionView>,
) {
    match (cur, field_value(fv, "to"@)) {
        (Some(from), Some(to)) => if user_index(s.users, to) is None {
            (s, seq![error_reply("Usuario no existe"@)])
        } else if from == to {
            (s, seq![error_reply("No puedes llamarte a ti mismo"@)])
        } else {
            let users = set_state(set_state(s.users, from, "ocupado"@), to, "ocupado"@);
            (
                ServerModel { users, ..s },
                seq![
                    ActionView::Broadcast(user_list_msg(users)),
                    ActionView::SendTo(to, message_text("INCOMING_CALL"@, seq![("from"@, from)])),
                ],
            )
        },
        _ => (s, seq![]),
    }
}

/// ACCEPT_CALL: both sides are told that the call is on; accepting one's own call is
/// refused.
pub open spec fn accept_step(cur: Option<Seq<char>>, fv: Seq<(Seq<char>, Seq<char>)>) -> Seq<ActionView> {
    match (cur, field_value(fv, "from"@)) {
        (Some(accepter), Some(caller)) => if accepter == caller {
            seq![error_reply("No podes aceptar tu propia llamada"@)]
        } else {
            seq![
                ActionView::SendTo(caller, message_text("CALL_ACCEPTED"@, seq![("by"@, accepter)])),
                ActionView::SendTo(accepter, message_text("CALL_ESTABLISHED"@, seq![("with"@, caller)])),
            ]
        },
        _ => seq![],
    }
}

/// REJECT_CALL and END_CALL: the other side is told, both become available and everyone
/// gets the new list.
pub open spec fn hangup_step(
    s: ServerModel,
    cur: Option<Seq<char>>,
    fv: Seq<(Seq<char>, Seq<char>)>,
    key: Seq<char>,
    notice: Seq<char>,
    notice_key: Seq<char>,
) -> (ServerModel, Seq<ActionView>) {
    match (cur, field_value(fv, key)) {
        (Some(me), Some(other)) => {
            let users = set_state(set_state(s.users, me, "disponible"@), other, "disponible"@);
            (
                ServerModel { users, ..s },
                seq![
                    ActionView::SendTo(other, message_text(notice, seq![(notice_key, me)])),
                    ActionView::Broadcast(user_list_msg(users)),
                ],
            )
        },
        _ => (s, seq![]),
    }
}

/// The names in `on` other than `name`, in order.
pub open spec fn others(on: Seq<Seq<char>>, name: Seq<char>) -> Seq<Seq<char>>
    decreases on.len(),
{
    if on.len() == 0 {
        Seq::empty()
    } else {
        others(on.drop_last(), name) + if on.last() == name {
            Seq::empty()
        } else {
            seq![on.last()]
        }
    }
}

/// Whether a message type is forwarded as it is (SDP negotiation).
pub open spec fn is_relayed(t: Seq<char>) -> bool {
    t == "OFFER"@ || t == "ANSWER"@ || t == "SDP"@ || t == "CANDIDATE"@
}

/// Whether a message type is a file transfer message.
pub open spec fn is_file_msg(t: Seq<char>) -> bool {
    t == "OFFER_FILE"@ || t == "ACCEPT_FILE"@ || t == "REJECT_FILE"@
}

/// What the server does with one message from a client whose logged-in user is `cur`.
pub open spec fn server_step(
    s: ServerModel,
    cur: Option<Seq<char>>,
    t: Seq<char>,
    fv: Seq<(Seq<char>, Seq<char>)>,
) -> (ServerModel, Option<Seq<char>>, Seq<ActionView>, Flow) {
    if t == "REGISTER"@ {
        let (s1, a) = register_step(s, fv);
        (s1, cur, a, Flow::Return)
    } else if t == "LOGIN"@ {
        let (s1, c1, a) = login_step(s, cur, fv);
        (s1, c1, a, Flow::Continue)
    } else if t == "LIST_USERS"@ {
        (s, cur, seq![ActionView::Reply(user_list_msg(s.users))], Flow::Continue)
    } else if t == "INVITE"@ {
        let (s1, a) = invite_step(s, cur, fv);
        (s1, cur, a, Flow::Continue)
    } else if t == "ACCEPT_CALL"@ {
        (s, cur, accept_step(cur, fv), Flow::Continue)
    } else if t == "REJECT_CALL"@ {
        let (s1, a) = hangup_step(s, cur, fv, "from"@, "CALL_REJECTED"@, "by"@);
        (s1, cur, a, Flow::Continue)
    } else if is_relayed(t) {
        match field_value(fv, "to"@) {
            Some(to) => (s, cur, seq![ActionView::SendTo(to, message_text(t, fv))], Flow::Continue),
            None => (s, cur, seq![], Flow::Continue),
        }
    } else if is_file_msg(t) {
        match (field_value(fv, "to"@), cur) {
            (Some(to), Some(from)) => (
                s,
                cur,
                seq![ActionView::SendTo(to, message_text(t, seq![("from"@, from)] + without_key(fv, "to"@)))],
                Flow::Continue,
            ),
            _ => (s, cur, seq![], Flow::Continue),
        }
    } else if t == "END_CALL"@ {
        let (s1, a) = hangup_step(s, cur, fv, "with"@, "CALL_ENDED"@, "with"@);
        (s1, cur, a, Flow::Continue)
    } else if t == "LOGOUT"@ {
        match cur {
            Some(u) => {
                let users = set_state(s.users, u, "desconectado"@);
                let online = others(s.online, u);
                (ServerModel { users, online, ..s }, cur, seq![ActionView::Broadcast(user_list_msg(users))], Flow::Break)
            },
            None => (s, cur, seq![], Flow::Break),
        }
    } else {
        (s, cur, seq![], Flow::Continue)
    }
}

proof fn lemma_step_register(s: ServerModel, cur: Option<Seq<char>>, fv: Seq<(Seq<char>, Seq<char>)>)
    ensures
        server_step(s, cur, "REGISTER"@, fv) == (register_step(s, fv).0, cur, register_step(s, fv).1, Flow::Return),
{
}

proof fn lemma_step_login(s: ServerModel, cur: Option<Seq<char>>, fv: Seq<(Seq<char>, Seq<char>)>)
    ensures
        server_step(s, cur, "LOGIN"@, fv) == (login_step(s, cur, fv).0, login_step(s, cur, fv).1, login_step(
            s,
            cur,
            fv,
        ).2, Flow::Continue),
{
    reveal_strlit("LOGIN");
    reveal_strlit("REGISTER");
    assert("LOGIN"@ != "REGISTER"@) by {
        assert("LOGIN"@.len() != "REGISTER"@.len());
    }
}

/// The first user named `u` in `us` followed by a new user named `u` is the new one, when
/// `us` has none of that name.
proof fn lemma_user_index_pushed(us: Seq<(Seq<char>, Seq<char>, Seq<char>)>, e: (Seq<char>, Seq<char>, Seq<char>))
    requires
        forall|k: int| 0 <= k < us.len() ==> (#[trigger] us[k]).0 != e.0,
    ensures
        user_index(us.push(e), e.0) == Some(us.len() as int),
{
    let vs = us.push(e);
    let u = e.0;
    let n = us.len() as int;
    assert(vs[n] == e);
    assert(exists|i: int| 0 <= i < vs.len() && vs[i].0 == u);
    let c = choose|i: int| 0 <= i < vs.len() && vs[i].0 == u && forall|j: int| 0 <= j < i ==> vs[j].0 != u;
    assert(forall|j: int| 0 <= j < n ==> vs[j].0 != u) by {
        assert forall|j: int| 0 <= j < n implies vs[j].0 != u by {
            assert(vs[j] == us[j]);
        }
    }
    assert(c == n) by {
        if c < n {
            assert(vs[c] == us[c]);
        }
    }
}

#[verifier::spinoff_prover]
#[verifier::rlimit(30)]
proof fn lemma_login_known(s: ServerModel, login: Seq<(Seq<char>, Seq<char>)>, u: Seq<char>, p: Seq<char>, n: int)
    requires
        field_value(login, "username"@) == Some(u),
        field_value(login, "password"@) == Some(p),
        user_index(s.users, u) == Some(n),
        0 <= n < s.users.len(),
        s.users[n].1 == p,
        s.online.len() < s.max_clients,
        !s.online.contains(u),
    ensures
        login_step(s, None, login).1 == Some(u),
        login_step(s, None, login).0.online.contains(u),
        login_step(s, None, login).2.len() == 3,
        login_step(s, None, login).2[1] == ActionView::Reply(message_text("OK"@, seq![("msg"@, "Login exitoso"@)])),
{
    let users = set_state(s.users, u, "disponible"@);
    let ok = message_text("OK"@, seq![("msg"@, "Login exitoso"@)]);
    let acts = seq![ActionView::GoOnline(u), ActionView::Reply(ok), ActionView::Broadcast(user_list_msg(users))];
    assert(login_step(s, None, login) == (ServerModel { users, online: s.online.push(u), ..s }, Some(u), acts));
    assert(s.online.push(u)[s.online.len() as int] == u);
}

/// REGISTER of a name the server does not know keeps the user, disconnected.
proof fn lemma_register_new(s: ServerModel, reg: Seq<(Seq<char>, Seq<char>)>, u: Seq<char>, p: Seq<char>)
    requires
        field_value(reg, "username"@) == Some(u),
        field_value(reg, "password"@) == Some(p),
        forall|k: int| 0 <= k < s.users.len() ==> (#[trigger] s.users[k]).0 != u,
    ensures
        register_step(s, reg).0 == (ServerModel { users: s.users.push((u, p, "desconectado"@)), ..s }),
        register_step(s, reg).1 == seq![
            ActionView::SaveUser(u, p),
            ActionView::Reply(message_text("OK"@, seq![("msg"@, "Registrado"@)])),
        ],
{
    assert(!(exists|i: int| 0 <= i < s.users.len() && s.users[i].0 == u));
    assert(user_index(s.users, u) is None);
}

/// A user who registers can then log in with the same name and password. On a server that
/// does not know the name, REGISTER saves the user and answers "Registrado", and the server
/// keeps the user, disconnected; a following LOGIN with that name and password, on a server
/// that is not full and where the user is not online, makes the user the connection's user,
/// online, with the answer "Login exitoso"; and a second REGISTER of the name is refused.
pub proof fn lemma_register_then_login(
    s: ServerModel,
    cur: Option<Seq<char>>,
    reg: Seq<(Seq<char>, Seq<char>)>,
    login: Seq<(Seq<char>, Seq<char>)>,
    u: Seq<char>,
    p: Seq<char>,
)
    requires
        field_value(reg, "username"@) == Some(u),
        field_value(reg, "password"@) == Some(p),
        field_value(login, "username"@) == Some(u),
        field_value(login, "password"@) == Some(p),
        forall|k: int| 0 <= k < s.users.len() ==> (#[trigger] s.users[k]).0 != u,
        s.online.len() < s.max_clients,
        !s.online.contains(u),
    ensures
        ({
            let r1 = server_step(s, cur, "REGISTER"@, reg);
            let s1 = r1.0;
            let r2 = server_step(s1, None, "LOGIN"@, login);
            &&& r1.2 == seq![
                ActionView::SaveUser(u, p),
                ActionView::Reply(message_text("OK"@, seq![("msg"@, "Registrado"@)])),
            ]
            &&& s1.users.contains((u, p, "desconectado"@))
            &&& r2.1 == Some(u)
            &&& r2.0.online.contains(u)
            &&& r2.2.len() == 3
            &&& r2.2[1] == ActionView::Reply(message_text("OK"@, seq![("msg"@, "Login exitoso"@)]))
            &&& server_step(s1, cur, "REGISTER"@, reg).2 == seq![error_reply("Ya existe"@)]
        }),
{
    lemma_step_register(s, cur, reg);
    let e = (u, p, "desconectado"@);
    lemma_register_new(s, reg, u, p);
    let s1 = register_step(s, reg).0;
    assert(s1.users[s.users.len() as int] == e);
    lemma_user_index_pushed(s.users, e);
    lemma_login_known(s1, login, u, p, s.users.len() as int);
    lemma_step_login(s1, None, login);
    lemma_step_register(s1, cur, reg);
}

/// The text of a message with the given fields.
fn message_line(typ: &str, fields: &Vec<(String, String)>) -> (s: String)
    ensures
        s@ == message_text(typ@, field_texts(fields@)),
{
    let mut out = String::from_str(typ);
    let mut i: usize = 0;
    proof {
        assert(field_texts(fields@).take(0) =~= Seq::<(Seq<char>, Seq<char>)>::empty());
    }
    while i < fields.len()
        invariant
            i <= fields@.len(),
            out@ == message_text(typ@, field_texts(fields@.take(i as int))),
        decreases fields@.len() - i,
    {
        push_char(&mut out, '|');
        push_str(&mut out, fields[i].0.as_str());
        push_char(&mut out, '=');
        push_str(&mut out, fields[i].1.as_str());
        proof {
            let t = field_texts(fields@.take(i + 1));
            assert(t.drop_last() =~= field_texts(fields@.take(i as int)));
        }
        i += 1;
    }
    assert(fields@.take(i as int) =~= fields@);
    out
}

/// A message with one field.
fn message1(typ: &str, k: &str, v: &str) -> (s: String)
    ensures
        s@ == message_text(typ@, seq![(k@, v@)]),
{
    let fields = vec![(String::from_str(k), String::from_str(v))];
    assert(field_texts(fields@) =~= seq![(k@, v@)]);
    message_line(typ, &fields)
}

impl ServerState {
    /// What this state holds.
    pub open spec fn model(self) -> ServerModel {
        ServerModel {
            users: user_views(self.users@),
            online: name_views(self.online@),
            max_clients: self.max_clients as nat,
        }
    }

    /// A server with the given users, nobody online, and room for ten clients.
    pub fn new_with_users(users: Vec<User>) -> (s: Self)
        ensures
            s.users@ == users@,
            s.online@.len() == 0,
            s.max_clients == 10,
            s.users_file@ == "users/users.txt"@,
    {
        ServerState { users, online: Vec::new(), max_clients: 10, users_file: String::from_str("users/users.txt") }
    }

    /// The position of the first user named `name`.
    fn find_user(&self, name: &str) -> (r: Option<usize>)
        ensures
            match user_index(self.model().users, name@) {
                Some(i) => r matches Some(j) && j == i,
                None => r is None,
            },
            r matches Some(i) ==> i < self.users@.len(),
    {
        let ghost us = self.model().users;
        let mut i: usize = 0;
        while i < self.users.len()
            invariant
                us == self.model().users,
                i <= us.len(),
                forall|j: int| 0 <= j < i ==> us[j].0 != name@,
            decreases us.len() - i,
        {
            if str_eq(self.users[i].username.as_str(), name) {
                proof {
                    assert(us[i as int].0 == name@);
                    let w = choose|w: int| 0 <= w < us.len() && us[w].0 == name@ && forall|j: int| 0 <= j < w ==> us[j].0 != name@;
                    assert(0 <= i < us.len() && us[i as int].0 == name@ && forall|j: int| 0 <= j < i ==> us[j].0 != name@);
                    assert(w == i) by {
                        if w < i {
                            assert(us[w].0 != name@);
                        } else if w > i {
                            assert(us[i as int].0 != name@);
                        }
                    }
                }
                return Some(i);
            }
            i += 1;
        }
        None
    }

    /// Sets the state of `name`, if known.
    fn set_user_state(&mut self, name: &str, st: &str)
        ensures
            final(self).model() == (ServerModel { users: set_state(old(self).model().users, name@, st@), ..old(self).model() }),
            final(self).users_file@ == old(self).users_file@,
    {
        match self.find_user(name) {
            Some(i) => {
                let ghost before = self.users@;
                let uu = User { username: self.users[i].username.clone(), password: self.users[i].password.clone(), state: String::from_str(st) };
                self.users.set(i, uu);
                assert(user_views(self.users@) =~= set_state(user_views(before), name@, st@));
            },
            None => {},
        }
    }

    /// Whether `name` is online.
    fn is_online(&self, name: &str) -> (r: bool)
        ensures
            r == self.model().online.contains(name@),
    {
        let ghost on = self.model().online;
        let mut i: usize = 0;
        while i < self.online.len()
            invariant
                on == self.model().online,
                i <= on.len(),
                forall|j: int| 0 <= j < i ==> on[j] != name@,
            decreases on.len() - i,
        {
            if str_eq(self.online[i].as_str(), name) {
                assert(on[i as int] == name@);
                return true;
            }
            i += 1;
        }
        false
    }

    /// Every user as "name:state", separated by ';'.
    pub fn user_list_message(&self) -> (s: String)
        ensures
            s@ == user_list_text(self.model().users),
    {
        let ghost us = self.model().users;
        let mut out = String::new();
        let mut i: usize = 0;
        proof {
            assert(us.take(0) =~= Seq::<(Seq<char>, Seq<char>, Seq<char>)>::empty());
        }
        while i < self.users.len()
            invariant
                us == self.model().users,
                i <= us.len(),
                out@ == user_list_text(us.take(i as int)),
            decreases us.len() - i,
        {
            if i > 0 {
                push_char(&mut out, ';');
            }
            push_str(&mut out, self.users[i].username.as_str());
            push_char(&mut out, ':');
            push_str(&mut out, self.users[i].state.as_str());
            proof {
                let t = us.take(i + 1);
                assert(t.drop_last() =~= us.take(i as int));
                if i == 0 {
                    assert(us.take(0) =~= Seq::<(Seq<char>, Seq<char>, Seq<char>)>::empty());
                }
            }
            i += 1;
            assert(out@ =~= user_list_text(us.take(i as int)));
        }
        assert(us.take(i as int) =~= us);
        out
    }

    /// The USER_LIST message for everyone.
    fn list_broadcast(&self) -> (a: ServerAction)
        ensures
            action_view(a) == ActionView::Broadcast(user_list_msg(self.model().users)),
    {
        let list = self.user_list_message();
        ServerAction::Broadcast(message1("USER_LIST", "list", list.as_str()))
    }

    /// An ERROR reply.
    fn error(m: &str) -> (a: ServerAction)
        ensures
            action_view(a) == error_reply(m@),
    {
        ServerAction::Reply(message1("ERROR", "msg", m))
    }

    /// REGISTER.
    #[verifier::spinoff_prover]
    #[verifier::rlimit(50)]
    fn on_register(&mut self, msg: &Message) -> (a: Vec<ServerAction>)
        ensures
            final(self).model() == register_step(old(self).model(), msg.field_view()).0,
            action_views(a@) == register_step(old(self).model(), msg.field_view()).1,
            final(self).users_file@ == old(self).users_file@,
    {
        match (msg.get("username"), msg.get("password")) {
            (Some(u), Some(p)) => {
                if self.find_user(u.as_str()).is_some() {
                    let a = vec![Self::error("Ya existe")];
                    assert(action_views(a@) =~= seq![error_reply("Ya existe"@)]);
                    a
                } else {
                    let ghost before = self.users@;
                    self.users.push(User { username: u.clone(), password: p.clone(), state: String::from_str("desconectado") });
                    assert(user_views(self.users@) =~= user_views(before).push((u@, p@, "desconectado"@)));
                    let a = vec![
                        ServerAction::SaveUser(u.clone(), p.clone()),
                        ServerAction::Reply(message1("OK", "msg", "Registrado")),
                    ];
                    assert(action_views(a@) =~= seq![
                        ActionView::SaveUser(u@, p@),
                        ActionView::Reply(message_text("OK"@, seq![("msg"@, "Registrado"@)])),
                    ]);
                    a
                }
            },
            _ => {
                let a: Vec<ServerAction> = Vec::new();
                assert(action_views(a@) =~= seq![]);
                a
            },
        }
    }

    /// LOGIN.
    #[verifier::spinoff_prover]
    #[verifier::rlimit(50)]
    fn on_login(&mut self, current_user: &mut Option<String>, msg: &Message) -> (a: Vec<ServerAction>)
        ensures
            final(self).model() == login_step(old(self).model(), name_opt(*old(current_user)), msg.field_view()).0,
            name_opt(*final(current_user)) == login_step(old(self).model(), name_opt(*old(current_user)), msg.field_view()).1,
            action_views(a@) == login_step(old(self).model(), name_opt(*old(current_user)), msg.field_view()).2,
            final(self).users_file@ == old(self).users_file@,
    {
        if self.online.len() >= self.max_clients {
            let a = vec![Self::error("Servidor lleno")];
            assert(action_views(a@) =~= seq![error_reply("Servidor lleno"@)]);
            return a;
        }
        match (msg.get("username"), msg.get("password")) {
            (Some(u), Some(p)) => {
                if self.is_online(u.as_str()) {
                    let a = vec![Self::error("Usuario ya conectado")];
                    assert(action_views(a@) =~= seq![error_reply("Usuario ya conectado"@)]);
                    return a;
                }
                match self.find_user(u.as_str()) {
                    Some(i) => {
                        if str_eq(self.users[i].password.as_str(), p.as_str()) {
                            let ghost on = self.online@;
                            self.online.push(u.clone());
                            assert(name_views(self.online@) =~= name_views(on).push(u@));
                            self.set_user_state(u.as_str(), "disponible");
                            *current_user = Some(u.clone());
                            let b = self.list_broadcast();
                            let a = vec![
                                ServerAction::GoOnline(u.clone()),
                                ServerAction::Reply(message1("OK", "msg", "Login exitoso")),
                                b,
                            ];
                            assert(action_views(a@) =~= seq![
                                ActionView::GoOnline(u@),
                                ActionView::Reply(message_text("OK"@, seq![("msg"@, "Login exitoso"@)])),
                                ActionView::Broadcast(user_list_msg(self.model().users)),
                            ]);
                            a
                        } else {
                            let a = vec![Self::error("Contrasena incorrecta")];
                            assert(action_views(a@) =~= seq![error_reply("Contrasena incorrecta"@)]);
                            a
                        }
                    },
                    None => {
                        let a = vec![Self::error("Usuario no existe")];
                        assert(action_views(a@) =~= seq![error_reply("Usuario no existe"@)]);
                        a
                    },
                }
            },
            _ => {
                let a: Vec<ServerAction> = Vec::new();
                assert(action_views(a@) =~= seq![]);
                a
            },
        }
    }

    /// INVITE.
    #[verifier::spinoff_prover]
    #[verifier::rlimit(50)]
    fn on_invite(&mut self, current_user: &Option<String>, msg: &Message) -> (a: Vec<ServerAction>)
        ensures
            final(self).model() == invite_step(old(self).model(), name_opt(*current_user), msg.field_view()).0,
            action_views(a@) == invite_step(old(self).model(), name_opt(*current_user), msg.field_view()).1,
            final(self).users_file@ == old(self).users_file@,
    {
        match (current_user, msg.get("to")) {
            (Some(from), Some(to)) => {
                if self.find_user(to.as_str()).is_none() {
                    let a = vec![Self::error("Usuario no existe")];
                    assert(action_views(a@) =~= seq![error_reply("Usuario no existe"@)]);
                    return a;
                }
                if str_eq(from.as_str(), to.as_str()) {
                    let a = vec![Self::error("No puedes llamarte a ti mismo")];
                    assert(action_views(a@) =~= seq![error_reply("No puedes llamarte a ti mismo"@)]);
                    return a;
                }
                self.set_user_state(from.as_str(), "ocupado");
                self.set_user_state(to.as_str(), "ocupado");
                let b = self.list_broadcast();
                let a = vec![b, ServerAction::SendTo(to.clone(), message1("INCOMING_CALL", "from", from.as_str()))];
                assert(action_views(a@) =~= seq![
                    ActionView::Broadcast(user_list_msg(self.model().users)),
                    ActionView::SendTo(to@, message_text("INCOMING_CALL"@, seq![("from"@, from@)])),
                ]);
                a
            },
            _ => {
                let a: Vec<ServerAction> = Vec::new();
                assert(action_views(a@) =~= seq![]);
                a
            },
        }
    }

    /// ACCEPT_CALL.
    fn on_accept(current_user: &Option<String>, msg: &Message) -> (a: Vec<ServerAction>)
        ensures
            action_views(a@) == accept_step(name_opt(*current_user), msg.field_view()),
    {
        match (current_user, msg.get("from")) {
            (Some(accepter), Some(caller)) => {
                if str_eq(accepter.as_str(), caller.as_str()) {
                    let a = vec![Self::error("No podes aceptar tu propia llamada")];
                    assert(action_views(a@) =~= seq![error_reply("No podes aceptar tu propia llamada"@)]);
                    a
                } else {
                    let a = vec![
                        ServerAction::SendTo(caller.clone(), message1("CALL_ACCEPTED", "by", accepter.as_str())),
                        ServerAction::SendTo(accepter.clone(), message1("CALL_ESTABLISHED", "with", caller.as_str())),
                    ];
                    assert(action_views(a@) =~= seq![
                        ActionView::SendTo(caller@, message_text("CALL_ACCEPTED"@, seq![("by"@, accepter@)])),
                        ActionView::SendTo(accepter@, message_text("CALL_ESTABLISHED"@, seq![("with"@, caller@)])),
                    ]);
                    a
                }
            },
            _ => {
                let a: Vec<ServerAction> = Vec::new();
                assert(action_views(a@) =~= seq![]);
                a
            },
        }
    }

    /// REJECT_CALL and END_CALL.
    #[verifier::spinoff_prover]
    #[verifier::rlimit(50)]
    fn on_hangup(&mut self, current_user: &Option<String>, msg: &Message, key: &str, notice: &str, notice_key: &str) -> (a: Vec<ServerAction>)
        ensures
            final(self).model() == hangup_step(old(self).model(), name_opt(*current_user), msg.field_view(), key@, notice@, notice_key@).0,
            action_views(a@) == hangup_step(old(self).model(), name_opt(*current_user), msg.field_view(), key@, notice@, notice_key@).1,
            final(self).users_file@ == old(self).users_file@,
    {
        match (current_user, msg.get(key)) {
            (Some(me), Some(other)) => {
                let n = ServerAction::SendTo(other.clone(), message1(notice, notice_key, me.as_str()));
                self.set_user_state(me.as_str(), "disponible");
                self.set_user_state(other.as_str(), "disponible");
                let b = self.list_broadcast();
                let a = vec![n, b];
                assert(action_views(a@) =~= seq![
                    ActionView::SendTo(other@, message_text(notice@, seq![(notice_key@, me@)])),
                    ActionView::Broadcast(user_list_msg(self.model().users)),
                ]);
                a
            },
            _ => {
                let a: Vec<ServerAction> = Vec::new();
                assert(action_views(a@) =~= seq![]);
                a
            },
        }
    }

    /// Removes `name` from the online users.
    fn go_offline(&mut self, name: &str)
        ensures
            final(self).model() == (ServerModel {
                online: others(old(self).model().online, name@),
                ..old(self).model()
            }),
            final(self).users_file@ == old(self).users_file@,
    {
        let ghost on = self.model().online;
        let mut kept: Vec<String> = Vec::new();
        let mut i: usize = 0;
        proof {
            assert(on.take(0) =~= Seq::<Seq<char>>::empty());
            assert(name_views(kept@) =~= others(on.take(0), name@));
        }
        while i < self.online.len()
            invariant
                on == self.model().online,
                i <= on.len(),
                name_views(kept@) == others(on.take(i as int), name@),
            decreases on.len() - i,
        {
            let ghost t = on.take(i + 1);
            assert(t.drop_last() =~= on.take(i as int));
            if !str_eq(self.online[i].as_str(), name) {
                let ghost k0 = kept@;
                kept.push(self.online[i].clone());
                assert(name_views(kept@) =~= name_views(k0).push(on[i as int]));
            }
            assert(name_views(kept@) =~= others(on.take(i + 1), name@));
            i += 1;
        }
        assert(on.take(i as int) =~= on);
        self.online = kept;
    }

    /// Handles one message from a client whose logged-in user is `current_user` (which a
    /// login sets): updates the users and who is online, and returns what to send and
    /// whether to keep serving the client; see `server_step`.
    #[verifier::spinoff_prover]
    #[verifier::rlimit(50)]
    pub fn handle_message(&mut self, current_user: &mut Option<String>, msg: &Message) -> (r: (Vec<ServerAction>, Flow))
        ensures
            server_step(old(self).model(), name_opt(*old(current_user)), msg.msg_type@, msg.field_view()) == (
                final(self).model(),
                name_opt(*final(current_user)),
                action_views(r.0@),
                r.1,
            ),
            final(self).users_file@ == old(self).users_file@,
    {
        let t = msg.msg_type.as_str();
        if str_eq(t, "REGISTER") {
            let a = self.on_register(msg);
            return (a, Flow::Return);
        }
        if str_eq(t, "LOGIN") {
            let a = self.on_login(current_user, msg);
            return (a, Flow::Continue);
        }
        if str_eq(t, "LIST_USERS") {
            let list = self.user_list_message();
            let a = vec![ServerAction::Reply(message1("USER_LIST", "list", list.as_str()))];
            assert(action_views(a@) =~= seq![ActionView::Reply(user_list_msg(self.model().users))]);
            return (a, Flow::Continue);
        }
        if str_eq(t, "INVITE") {
            let a = self.on_invite(current_user, msg);
            return (a, Flow::Continue);
        }
        if str_eq(t, "ACCEPT_CALL") {
            let a = Self::on_accept(current_user, msg);
            return (a, Flow::Continue);
        }
        if str_eq(t, "REJECT_CALL") {
            let a = self.on_hangup(current_user, msg, "from", "CALL_REJECTED", "by");
            return (a, Flow::Continue);
        }
        if str_eq(t, "OFFER") || str_eq(t, "ANSWER") || str_eq(t, "SDP") || str_eq(t, "CANDIDATE") {
            let a = match msg.get("to") {
                Some(to) => vec![ServerAction::SendTo(to.clone(), message_line(t, &msg.fields))],
                None => Vec::new(),
            };
            assert(action_views(a@) =~= (match field_value(msg.field_view(), "to"@) {
                Some(to) => seq![ActionView::SendTo(to, message_text(t@, msg.field_view()))],
                None => seq![],
            }));
            return (a, Flow::Continue);
        }
        if str_eq(t, "OFFER_FILE") || str_eq(t, "ACCEPT_FILE") || str_eq(t, "REJECT_FILE") {
            let a = match (msg.get("to"), &*current_user) {
                (Some(to), Some(from)) => {
                    let fields = Self::forwarded_fields(from.as_str(), &msg.fields);
                    vec![ServerAction::SendTo(to.clone(), message_line(t, &fields))]
                },
                _ => Vec::new(),
            };
            assert(action_views(a@) =~= (match (field_value(msg.field_view(), "to"@), name_opt(*current_user)) {
                (Some(to), Some(from)) => seq![ActionView::SendTo(to, message_text(t@, seq![("from"@, from)] + without_key(msg.field_view(), "to"@)))],
                _ => seq![],
            }));
            return (a, Flow::Continue);
        }
        if str_eq(t, "END_CALL") {
            let a = self.on_hangup(current_user, msg, "with", "CALL_ENDED", "with");
            return (a, Flow::Continue);
        }
        if str_eq(t, "LOGOUT") {
            let a = match &*current_user {
                Some(u) => {
                    self.set_user_state(u.as_str(), "desconectado");
                    self.go_offline(u.as_str());
                    let b = self.list_broadcast();
                    vec![b]
                },
                None => Vec::new(),
            };
            proof {
                match name_opt(*current_user) {
                    Some(u) => {
                        assert(action_views(a@) =~= seq![ActionView::Broadcast(user_list_msg(self.model().users))]);
                    },
                    None => {
                        assert(action_views(a@) =~= seq![]);
                    },
                }
            }
            return (a, Flow::Break);
        }
        let a: Vec<ServerAction> = Vec::new();
        assert(action_views(a@) =~= seq![]);
        (a, Flow::Continue)
    }

    /// The fields forwarded with a file message: `from` first, then the message's fields
    /// other than `to`.
    fn forwarded_fields(from: &str, fields: &Vec<(String, String)>) -> (r: Vec<(String, String)>)
        ensures
            field_texts(r@) == seq![("from"@, from@)] + without_key(field_texts(fields@), "to"@),
    {
        let mut r: Vec<(String, String)> = vec![(String::from_str("from"), String::from_str(from))];
        let ghost fv = field_texts(fields@);
        let mut i: usize = 0;
        proof {
            assert(fv.take(0) =~= Seq::<(Seq<char>, Seq<char>)>::empty());
            assert(field_texts(r@) =~= seq![("from"@, from@)] + without_key(fv.take(0), "to"@));
        }
        while i < fields.len()
            invariant
                fv == field_texts(fields@),
                i <= fv.len(),
                field_texts(r@) == seq![("from"@, from@)] + without_key(fv.take(i as int), "to"@),
            decreases fv.len() - i,
        {
            let ghost t = fv.take(i + 1);
            assert(t.drop_last() =~= fv.take(i as int));
            let ghost r0 = r@;
            if !str_eq(fields[i].0.as_str(), "to") {
                r.push((fields[i].0.clone(), fields[i].1.clone()));
                assert(field_texts(r@) =~= field_texts(r0).push(fv[i as int]));
            }
            i += 1;
            assert(field_texts(r@) =~= seq![("from"@, from@)] + without_key(fv.take(i as int), "to"@));
        }
        assert(fv.take(i as int) =~= fv);
        r
    }
}

/// The text of an optional name.
pub open spec fn name_opt(o: Option<String>) -> Option<Seq<char>> {
    match o {
        Some(s) => Some(s@),
        None => None,
    }
}

/// The users with `name` registered with password `pass`: a known name keeps its place and
/// gets the new password, a new one goes last; either way disconnected.
pub open spec fn insert_user(us: Seq<(Seq<char>, Seq<char>, Seq<char>)>, name: Seq<char>, pass: Seq<char>) -> Seq<
    (Seq<char>, Seq<char>, Seq<char>),
> {
    match user_index(us, name) {
        Some(i) => us.update(i, (name, pass, "desconectado"@)),
        None => us.push((name, pass, "desconectado"@)),
    }
}

/// The users a users file lists: each non-blank line "name,password" (both trimmed)
/// registers a user; other lines are skipped.
pub open spec fn users_from_lines(lines: Seq<Seq<char>>) -> Seq<(Seq<char>, Seq<char>, Seq<char>)>
    decreases lines.len(),
{
    if lines.len() == 0 {
        Seq::empty()
    } else {
        let prev = users_from_lines(lines.drop_last());
        let l = trim_ws(lines.last());
        let parts = split_on(l, ',');
        if l.len() > 0 && parts.len() == 2 {
            insert_user(prev, trim_ws(parts[0]), trim_ws(parts[1]))
        } else {
            prev
        }
    }
}

/// The position of the first user named like `cs[a..b]` in `users`.
fn find_named(users: &Vec<User>, name: &String) -> (r: Option<usize>)
    ensures
        match user_index(user_views(users@), name@) {
            Some(i) => r matches Some(j) && j == i,
            None => r is None,
        },
        r matches Some(i) ==> i < users@.len(),
{
    let ghost us = user_views(users@);
    let mut i: usize = 0;
    while i < users.len()
        invariant
            us == user_views(users@),
            i <= us.len(),
            forall|j: int| 0 <= j < i ==> us[j].0 != name@,
        decreases us.len() - i,
    {
        if str_eq(users[i].username.as_str(), name.as_str()) {
            proof {
                assert(us[i as int].0 == name@);
                let w = choose|w: int| 0 <= w < us.len() && us[w].0 == name@ && forall|j: int| 0 <= j < w ==> us[j].0 != name@;
                assert(0 <= i < us.len() && us[i as int].0 == name@ && forall|j: int| 0 <= j < i ==> us[j].0 != name@);
                assert(w == i) by {
                    if w < i {
                        assert(us[w].0 != name@);
                    } else if w > i {
                        assert(us[i as int].0 != name@);
                    }
                }
            }
            return Some(i);
        }
        i += 1;
    }
    None
}

/// The users listed in the text of a users file; see `users_from_lines`.
pub fn users_from_text(content: &str) -> (users: Vec<User>)
    ensures
        user_views(users@) == users_from_lines(lines_of(content@)),
{
    let cs = str_chars(content);
    let lines = line_ranges(&cs);
    let ghost ls = lines_of(content@);
    let mut users: Vec<User> = Vec::new();
    let mut k: usize = 0;
    proof {
        assert(ls.take(0) =~= Seq::<Seq<char>>::empty());
        assert(user_views(users@) =~= Seq::<(Seq<char>, Seq<char>, Seq<char>)>::empty());
    }
    while k < lines.len()
        invariant
            k <= lines@.len() == ls.len(),
            cs@ == content@,
            ls == lines_of(content@),
            forall|x: int|
                0 <= x < lines@.len() ==> (#[trigger] lines@[x]).0 <= lines@[x].1 <= cs@.len()
                    && cs@.subrange(lines@[x].0 as int, lines@[x].1 as int) == ls[x],
            user_views(users@) == users_from_lines(ls.take(k as int)),
        decreases lines@.len() - k,
    {
        let (a, b) = lines[k];
        proof {
            let t = ls.take(k + 1);
            assert(t.drop_last() =~= ls.take(k as int));
            assert(t.last() == ls[k as int]);
        }
        let (ta, tb) = trim_range(&cs, a, b);
        if ta < tb {
            let parts = split_ranges(&cs, ta, tb, ',');
            if parts.len() == 2 {
                let (n0, n1) = parts[0];
                let (p0, p1) = parts[1];
                let (na, nb) = trim_range(&cs, n0, n1);
                let (pa, pb) = trim_range(&cs, p0, p1);
                let name = string_from_range(&cs, na, nb);
                let pass = string_from_range(&cs, pa, pb);
                let ghost before = user_views(users@);
                let ghost nv = name@;
                let ghost pv = pass@;
                match find_named(&users, &name) {
                    Some(i) => {
                        users.set(i, User { username: name, password: pass, state: String::from_str("desconectado") });
                        assert(user_views(users@) =~= before.update(i as int, (nv, pv, "desconectado"@)));
                    },
                    None => {
                        users.push(User { username: name, password: pass, state: String::from_str("desconectado") });
                        assert(user_views(users@) =~= before.push((nv, pv, "desconectado"@)));
                    },
                }
            }
        }
        k += 1;
    }
    assert(ls.take(k as int) =~= ls);
    users
}

} // verus!
