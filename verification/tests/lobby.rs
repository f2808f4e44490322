use roomrtc::app::lobby::{AppScreen, LobbyApp};
use roomrtc::app::signaling_client::SignalingClient;
use roomrtc::protocols::message::Message;

fn msg(typ: &str, fields: &[(&str, &str)]) -> Message {
    let mut m = Message::new(typ);
    for (k, v) in fields {
        m.insert(k.to_string(), v.to_string());
    }
    m
}

#[test]
fn login_reply_promotes_the_pending_client() {
    let mut app = LobbyApp::default();
    let mut cli = SignalingClient::new();
    cli.deliver(msg("OK", &[("msg", "Login exitoso")]));
    // read by the pending client, which only heeds OK and ERROR
    cli.deliver(msg("USER_LIST", &[("list", "carol:disponible")]));
    app.pending_client = Some(cli);
    app.poll_messages();
    assert!(app.pending_client.is_none());
    assert!(app.client.is_some());
    assert!(app.login_error.is_none());
    assert!(app.users.is_empty());
    app.client.as_mut().unwrap().deliver(msg("USER_LIST", &[("list", "alice:disponible;bob:ocupado;junk")]));
    app.poll_messages();
    assert_eq!(
        app.users,
        vec![
            ("alice".to_string(), "disponible".to_string()),
            ("bob".to_string(), "ocupado".to_string())
        ]
    );
}

#[test]
fn login_error_is_shown_and_client_dropped() {
    let mut app = LobbyApp::default();
    let mut cli = SignalingClient::new();
    cli.deliver(msg("ERROR", &[("msg", "Contrasena incorrecta")]));
    app.pending_client = Some(cli);
    app.poll_messages();
    assert!(app.pending_client.is_none());
    assert!(app.client.is_none());
    assert_eq!(app.login_error.as_deref(), Some("Contrasena incorrecta"));
}

#[test]
fn call_messages_update_the_lobby() {
    let mut app = LobbyApp::default();
    let mut cli = SignalingClient::new();
    cli.deliver(msg("INCOMING_CALL", &[("from", "bob")]));
    app.client = Some(cli);
    app.poll_messages();
    assert_eq!(app.incoming_call.as_deref(), Some("bob"));

    app.client.as_mut().unwrap().deliver(msg("CALL_ACCEPTED", &[("by", "bob")]));
    app.poll_messages();
    assert_eq!(app.current_peer.as_deref(), Some("bob"));
    assert!(app.is_caller);
    assert!(matches!(&app.next_screen, Some(AppScreen::Call { peer }) if peer == "bob"));

    // the peer disconnecting ends the call
    app.client.as_mut().unwrap().deliver(msg("USER_LIST", &[("list", "bob:desconectado")]));
    app.poll_messages();
    assert!(app.current_peer.is_none());
    assert!(!app.is_caller);
    assert!(app.next_screen.is_none());
}

#[test]
fn rejected_call_sets_the_error() {
    let mut app = LobbyApp::default();
    let mut cli = SignalingClient::new();
    cli.deliver(msg("CALL_REJECTED", &[("by", "bob")]));
    app.client = Some(cli);
    app.current_peer = Some("bob".to_string());
    app.poll_messages();
    assert_eq!(app.call_error.as_deref(), Some("El usuario rechazó la llamada"));
    assert!(app.current_peer.is_none());
}

#[test]
fn reset_call_state_forgets_the_call() {
    let mut app = LobbyApp::default();
    app.current_peer = Some("bob".to_string());
    app.incoming_call = Some("carol".to_string());
    app.call_error = Some("x".to_string());
    app.is_caller = true;
    app.next_screen = Some(AppScreen::Call { peer: "bob".to_string() });
    app.username = "alice".to_string();
    app.reset_call_state();
    assert!(app.current_peer.is_none());
    assert!(app.incoming_call.is_none());
    assert!(app.call_error.is_none());
    assert!(!app.is_caller);
    assert!(app.next_screen.is_none());
    assert_eq!(app.username, "alice");
}
