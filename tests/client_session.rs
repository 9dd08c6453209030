use multiplayer_core::chat::Chat;
use multiplayer_core::client::{join_request, ClientEvent, ClientSession, NAME_LEN};
use multiplayer_core::protocol::{ClientMessage, ServerMessage};
use multiplayer_core::roster::Roster;
use multiplayer_core::server::Users;

fn deliver(
    session: &mut ClientSession,
    chat: &mut Chat,
    recipients: &[u64],
    me: u64,
    msg: &ServerMessage,
) -> Vec<ClientEvent> {
    if !recipients.contains(&me) {
        return Vec::new();
    }
    let copy = match msg {
        ServerMessage::ClientConnected { client_id, username } => {
            ServerMessage::ClientConnected { client_id: *client_id, username: username.clone() }
        }
        ServerMessage::ClientDisconnected { client_id } => {
            ServerMessage::ClientDisconnected { client_id: *client_id }
        }
        ServerMessage::ChatMessage { client_id, message } => {
            ServerMessage::ChatMessage { client_id: *client_id, message: message.clone() }
        }
        ServerMessage::InitClient { client_id, usernames } => {
            ServerMessage::InitClient { client_id: *client_id, usernames: usernames.duplicate() }
        }
        ServerMessage::PlayerUpdate { client_id, x, y, horizontal, vertical } => {
            ServerMessage::PlayerUpdate {
                client_id: *client_id,
                x: *x,
                y: *y,
                horizontal: *horizontal,
                vertical: *vertical,
            }
        }
    };
    session.handle_server_message(chat, copy)
}

#[test]
fn two_clients_join_and_one_leaves() {
    let mut server = Users::new();
    let mut a = ClientSession::new();
    let mut a_chat = Chat::new();
    let mut b = ClientSession::new();
    let mut b_chat = Chat::new();

    let step = server.handle_client_message(1, ClientMessage::Join { name: "alice".to_string() });
    match &step.outbound[0].message {
        ServerMessage::InitClient { client_id, usernames } => {
            assert_eq!(*client_id, 1);
            assert_eq!(usernames.ids(), vec![1]);
            assert_eq!(usernames.get(1), Some("alice".to_string()));
        }
        _ => panic!("expected InitClient"),
    }
    for o in &step.outbound {
        deliver(&mut a, &mut a_chat, &o.recipients, 1, &o.message);
    }
    assert_eq!(a.self_id(), Some(1));

    let step = server.handle_client_message(2, ClientMessage::Join { name: "bob".to_string() });
    let mut a_events = Vec::new();
    for o in &step.outbound {
        if let ServerMessage::ClientConnected { client_id, username } = &o.message {
            assert_eq!(*client_id, 2);
            assert_eq!(username, "bob");
            let mut r = o.recipients.clone();
            r.sort();
            assert_eq!(r, vec![1, 2]);
        }
        a_events.extend(deliver(&mut a, &mut a_chat, &o.recipients, 1, &o.message));
        deliver(&mut b, &mut b_chat, &o.recipients, 2, &o.message);
    }
    assert_eq!(a_events, vec![ClientEvent::Spawn { client_id: 2, is_self: false }]);
    assert_eq!(a_chat.messages.last().unwrap(), "bob joined");
    assert_eq!(b.self_id(), Some(2));

    let step = server.handle_client_message(2, ClientMessage::Disconnect {});
    assert!(step.close_connection);
    assert_eq!(step.outbound.len(), 1);
    assert!(matches!(step.outbound[0].message, ServerMessage::ClientDisconnected { client_id: 2 }));
    let events = deliver(&mut a, &mut a_chat, &step.outbound[0].recipients, 1, &step.outbound[0].message);
    assert_eq!(events, vec![ClientEvent::Despawn { client_id: 2 }]);
    assert!(!a.roster().contains(2));
    assert!(a.roster().contains(1));
    assert_eq!(a_chat.messages.last().unwrap(), "bob left");
}

#[test]
fn init_spawns_self_then_others() {
    let mut roster = Roster::new();
    assert!(roster.insert(4, "d".to_string()));
    assert!(roster.insert(2, "b".to_string()));
    assert!(roster.insert(9, "i".to_string()));
    let mut session = ClientSession::new();
    let mut chat = Chat::new();
    let events = session.handle_server_message(
        &mut chat,
        ServerMessage::InitClient { client_id: 2, usernames: roster },
    );
    assert_eq!(events[0], ClientEvent::Spawn { client_id: 2, is_self: true });
    let mut others: Vec<u64> = events[1..]
        .iter()
        .map(|e| match e {
            ClientEvent::Spawn { client_id, is_self: false } => *client_id,
            _ => panic!("expected a spawn of another participant"),
        })
        .collect();
    others.sort();
    assert_eq!(others, vec![4, 9]);
    assert_eq!(session.self_id(), Some(2));
    assert_eq!(session.roster().len(), 3);
    assert!(chat.messages.is_empty());
}

#[test]
fn own_connected_broadcast_does_not_spawn() {
    let mut session = ClientSession::new();
    let mut chat = Chat::new();
    let mut roster = Roster::new();
    roster.insert(1, "me".to_string());
    session.handle_server_message(&mut chat, ServerMessage::InitClient { client_id: 1, usernames: roster });
    let events = session.handle_server_message(
        &mut chat,
        ServerMessage::ClientConnected { client_id: 1, username: "me".to_string() },
    );
    assert!(events.is_empty());
    assert_eq!(chat.messages, vec!["me joined".to_string()]);
}

#[test]
fn repeated_disconnect_is_noop() {
    let mut session = ClientSession::new();
    let mut chat = Chat::new();
    let mut roster = Roster::new();
    roster.insert(1, "alice".to_string());
    roster.insert(2, "bob".to_string());
    session.handle_server_message(&mut chat, ServerMessage::InitClient { client_id: 1, usernames: roster });
    let first = session.handle_server_message(&mut chat, ServerMessage::ClientDisconnected { client_id: 2 });
    assert_eq!(first, vec![ClientEvent::Despawn { client_id: 2 }]);
    let ids_once = session.roster().ids();
    let chat_once = chat.messages.clone();
    let second = session.handle_server_message(&mut chat, ServerMessage::ClientDisconnected { client_id: 2 });
    assert!(second.is_empty());
    assert_eq!(session.roster().ids(), ids_once);
    assert_eq!(chat.messages, chat_once);
    assert_eq!(chat.messages, vec!["bob left".to_string()]);
}

#[test]
fn chat_from_known_and_unknown_sender() {
    let mut session = ClientSession::new();
    let mut chat = Chat::new();
    session.handle_server_message(
        &mut chat,
        ServerMessage::ClientConnected { client_id: 3, username: "carol".to_string() },
    );
    session.handle_server_message(
        &mut chat,
        ServerMessage::ChatMessage { client_id: 3, message: "hello".to_string() },
    );
    session.handle_server_message(
        &mut chat,
        ServerMessage::ChatMessage { client_id: 8, message: "ghost".to_string() },
    );
    assert_eq!(chat.messages, vec!["carol joined".to_string(), "carol: hello".to_string()]);
    assert_eq!(chat.transcript(), "carol joined\ncarol: hello");
}

#[test]
fn connected_overwrites_name() {
    let mut session = ClientSession::new();
    let mut chat = Chat::new();
    session.handle_server_message(&mut chat, ServerMessage::ClientConnected { client_id: 3, username: "c".to_string() });
    session.handle_server_message(&mut chat, ServerMessage::ClientConnected { client_id: 3, username: "cc".to_string() });
    assert_eq!(session.roster().get(3), Some("cc".to_string()));
    assert_eq!(session.roster().len(), 1);
}

#[test]
fn player_update_is_forwarded() {
    let mut session = ClientSession::new();
    let mut chat = Chat::new();
    let events = session.handle_server_message(
        &mut chat,
        ServerMessage::PlayerUpdate { client_id: 4, x: 10, y: -20, horizontal: 300, vertical: 0 },
    );
    assert_eq!(
        events,
        vec![ClientEvent::RemoteUpdate { client_id: 4, x: 10, y: -20, horizontal: 300, vertical: 0 }]
    );
}

#[test]
fn empty_transcript() {
    assert_eq!(Chat::new().transcript(), "");
}

#[test]
fn join_request_has_random_alphanumeric_name() {
    match join_request() {
        ClientMessage::Join { name } => {
            assert_eq!(name.chars().count(), NAME_LEN);
            assert!(name.chars().all(|c| c.is_ascii_alphanumeric()));
        }
        _ => panic!("expected Join"),
    }
}

#[test]
fn second_init_is_ignored() {
    let mut session = ClientSession::new();
    let mut chat = Chat::new();
    let mut first = Roster::new();
    first.insert(1, "alice".to_string());
    session.handle_server_message(&mut chat, ServerMessage::InitClient { client_id: 1, usernames: first });
    let mut second = Roster::new();
    second.insert(2, "bob".to_string());
    second.insert(3, "carol".to_string());
    let events = session.handle_server_message(
        &mut chat,
        ServerMessage::InitClient { client_id: 2, usernames: second },
    );
    assert!(events.is_empty());
    assert_eq!(session.self_id(), Some(1));
    assert_eq!(session.roster().ids(), vec![1]);
    assert!(chat.messages.is_empty());
}
