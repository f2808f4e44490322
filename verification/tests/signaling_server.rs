use roomrtc::protocols::message::{parse_message, Message};
use roomrtc::signaling_server::{users_from_text, Flow, ServerAction, ServerState, User};

fn user(name: &str, pass: &str) -> User {
    User { username: name.to_string(), password: pass.to_string(), state: "desconectado".to_string() }
}

fn test_server() -> ServerState {
    ServerState::new_with_users(vec![user("alice", "pass_alice"), user("bob", "pass_bob")])
}

fn msg(typ: &str, fields: &[(&str, &str)]) -> Message {
    let mut m = Message::new(typ);
    for (k, v) in fields {
        m.insert(k.to_string(), v.to_string());
    }
    m
}

fn replies(actions: &[ServerAction]) -> Vec<Message> {
    actions
        .iter()
        .filter_map(|a| match a {
            ServerAction::Reply(t) => parse_message(t),
            _ => None,
        })
        .collect()
}

fn login(server: &mut ServerState, cur: &mut Option<String>, name: &str, pass: &str) -> (Vec<ServerAction>, Flow) {
    server.handle_message(cur, &msg("LOGIN", &[("username", name), ("password", pass)]))
}

#[test]
fn login_success_goes_online_and_broadcasts() {
    let mut server = test_server();
    let mut cur = None;
    let (actions, flow) = login(&mut server, &mut cur, "alice", "pass_alice");
    assert_eq!(flow, Flow::Continue);
    assert_eq!(cur.as_deref(), Some("alice"));
    let r = replies(&actions);
    assert_eq!(r[0].msg_type, "OK");
    assert_eq!(r[0].get("msg").map(|s| s.as_str()), Some("Login exitoso"));
    assert!(matches!(&actions[0], ServerAction::GoOnline(n) if n == "alice"));
    assert!(actions.iter().any(|a| matches!(a, ServerAction::Broadcast(t) if t.starts_with("USER_LIST"))));
    assert_eq!(server.online, vec!["alice".to_string()]);
    assert_eq!(server.users[0].state, "disponible");
}

#[test]
fn login_wrong_password_and_unknown_user() {
    let mut server = test_server();
    let mut cur = None;
    let (actions, _) = login(&mut server, &mut cur, "alice", "wrong_password");
    let r = replies(&actions);
    assert_eq!(r[0].msg_type, "ERROR");
    assert_eq!(r[0].get("msg").map(|s| s.as_str()), Some("Contrasena incorrecta"));
    let (actions, _) = login(&mut server, &mut cur, "nonexistent", "password");
    assert_eq!(replies(&actions)[0].get("msg").map(|s| s.as_str()), Some("Usuario no existe"));
    assert!(cur.is_none());
    assert!(server.online.is_empty());
}

#[test]
fn duplicate_login_is_rejected() {
    let mut server = test_server();
    let mut first = None;
    login(&mut server, &mut first, "alice", "pass_alice");
    let mut second = None;
    let (actions, _) = login(&mut server, &mut second, "alice", "pass_alice");
    let r = replies(&actions);
    assert_eq!(r[0].msg_type, "ERROR");
    assert_eq!(r[0].get("msg").map(|s| s.as_str()), Some("Usuario ya conectado"));
    assert!(second.is_none());
}

#[test]
fn list_users_shows_states() {
    let mut server = test_server();
    let mut cur = None;
    let (actions, _) = server.handle_message(&mut cur, &msg("LIST_USERS", &[]));
    let r = replies(&actions);
    assert_eq!(r[0].msg_type, "USER_LIST");
    let list = r[0].get("list").unwrap();
    assert!(list.contains("alice:desconectado"));
    assert!(list.contains("bob:desconectado"));
}

#[test]
fn invite_unknown_user_and_self_are_rejected() {
    let mut server = test_server();
    let mut cur = None;
    login(&mut server, &mut cur, "alice", "pass_alice");
    let (actions, _) = server.handle_message(&mut cur, &msg("INVITE", &[("to", "nonexistent")]));
    assert_eq!(replies(&actions)[0].get("msg").map(|s| s.as_str()), Some("Usuario no existe"));
    let (actions, _) = server.handle_message(&mut cur, &msg("INVITE", &[("to", "alice")]));
    assert_eq!(
        replies(&actions)[0].get("msg").map(|s| s.as_str()),
        Some("No puedes llamarte a ti mismo")
    );
}

#[test]
fn complete_call_flow() {
    let mut server = test_server();
    let mut alice = None;
    let mut bob = None;
    login(&mut server, &mut alice, "alice", "pass_alice");
    login(&mut server, &mut bob, "bob", "pass_bob");
    let (actions, _) = server.handle_message(&mut alice, &msg("INVITE", &[("to", "bob")]));
    assert!(actions.iter().any(|a| matches!(a, ServerAction::Broadcast(t) if t.starts_with("USER_LIST"))));
    let incoming = actions
        .iter()
        .find_map(|a| match a {
            ServerAction::SendTo(to, t) if to == "bob" => parse_message(t),
            _ => None,
        })
        .unwrap();
    assert_eq!(incoming.msg_type, "INCOMING_CALL");
    assert_eq!(incoming.get("from").map(|s| s.as_str()), Some("alice"));
    assert_eq!(server.users[0].state, "ocupado");
    assert_eq!(server.users[1].state, "ocupado");

    let (actions, _) = server.handle_message(&mut bob, &msg("ACCEPT_CALL", &[("from", "alice")]));
    let to_alice = actions
        .iter()
        .find_map(|a| match a {
            ServerAction::SendTo(to, t) if to == "alice" => parse_message(t),
            _ => None,
        })
        .unwrap();
    assert_eq!(to_alice.msg_type, "CALL_ACCEPTED");
    assert_eq!(to_alice.get("by").map(|s| s.as_str()), Some("bob"));

    let (_, _) = server.handle_message(&mut alice, &msg("END_CALL", &[("with", "bob")]));
    assert_eq!(server.users[0].state, "disponible");
    assert_eq!(server.users[1].state, "disponible");
}

#[test]
fn users_file_lines_are_read() {
    let users = users_from_text("alice, pw1\n\nbad line\nbob,pw2\r\nalice,pw3\n");
    assert_eq!(users.len(), 2);
    assert_eq!((users[0].username.as_str(), users[0].password.as_str()), ("alice", "pw3"));
    assert_eq!((users[1].username.as_str(), users[1].password.as_str()), ("bob", "pw2"));
    assert!(users.iter().all(|u| u.state == "desconectado"));
}
