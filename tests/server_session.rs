use multiplayer_core::protocol::{ClientMessage, ServerMessage};
use multiplayer_core::server::{RegistryError, Users};

fn join(name: &str) -> ClientMessage {
    ClientMessage::Join { name: name.to_string() }
}

fn sorted(mut v: Vec<u64>) -> Vec<u64> {
    v.sort();
    v
}

#[test]
fn replay_keeps_ids_with_unmatched_join() {
    let mut users = Users::new();
    users.handle_client_message(1, join("a"));
    users.handle_client_message(2, join("b"));
    users.handle_client_message(1, ClientMessage::Disconnect {});
    users.handle_client_message(3, join("c"));
    users.handle_client_message(3, ClientMessage::Disconnect {});
    users.handle_client_message(4, join("d"));
    users.handle_client_message(2, ClientMessage::ChatMessage { message: "hi".to_string() });
    users.handle_client_message(1, join("a2"));
    assert_eq!(sorted(users.roster().ids()), vec![1, 2, 4]);
    assert_eq!(users.roster().get(1), Some("a2".to_string()));
    assert_eq!(users.roster().len(), 3);
}

#[test]
fn duplicate_join_changes_nothing() {
    let mut users = Users::new();
    let first = users.handle_client_message(5, join("alice"));
    assert_eq!(first.outbound.len(), 2);
    let again = users.handle_client_message(5, join("mallory"));
    assert!(again.outbound.is_empty());
    assert!(!again.close_connection);
    assert_eq!(users.roster().get(5), Some("alice".to_string()));
    assert_eq!(users.roster().len(), 1);
}

#[test]
fn register_refuses_registered_id() {
    let mut users = Users::new();
    let snapshot = users.register(1, "x".to_string()).ok().unwrap();
    assert_eq!(snapshot.get(1), Some("x".to_string()));
    assert_eq!(users.register(1, "y".to_string()).err(), Some(RegistryError::AlreadyRegistered));
    assert_eq!(users.roster().get(1), Some("x".to_string()));
}

#[test]
fn unregister_gives_back_name() {
    let mut users = Users::new();
    users.register(3, "carol".to_string()).ok().unwrap();
    assert_eq!(users.unregister(3), Some("carol".to_string()));
    assert_eq!(users.unregister(3), None);
    assert_eq!(users.roster().len(), 0);
}

#[test]
fn unknown_disconnect_sends_nothing() {
    let mut users = Users::new();
    users.handle_client_message(1, join("a"));
    let step = users.handle_client_message(9, ClientMessage::Disconnect {});
    assert!(step.close_connection);
    assert!(step.outbound.is_empty());
    assert!(users.handle_disconnect(9).is_none());
    assert_eq!(users.roster().ids(), vec![1]);
}

#[test]
fn departure_is_told_to_those_remaining() {
    let mut users = Users::new();
    users.handle_client_message(1, join("a"));
    users.handle_client_message(2, join("b"));
    let out = users.handle_disconnect(2).unwrap();
    assert_eq!(out.recipients, vec![1]);
    assert!(matches!(out.message, ServerMessage::ClientDisconnected { client_id: 2 }));
    assert!(users.handle_disconnect(2).is_none());
}

#[test]
fn join_sends_init_then_broadcast() {
    let mut users = Users::new();
    users.handle_client_message(1, join("alice"));
    let step = users.handle_client_message(2, join("bob"));
    assert!(!step.close_connection);
    assert_eq!(step.outbound.len(), 2);
    assert_eq!(step.outbound[0].recipients, vec![2]);
    match &step.outbound[0].message {
        ServerMessage::InitClient { client_id, usernames } => {
            assert_eq!(*client_id, 2);
            assert_eq!(sorted(usernames.ids()), vec![1, 2]);
            assert_eq!(usernames.get(1), Some("alice".to_string()));
            assert_eq!(usernames.get(2), Some("bob".to_string()));
        }
        _ => panic!("expected InitClient"),
    }
    assert_eq!(sorted(step.outbound[1].recipients.clone()), vec![1, 2]);
    match &step.outbound[1].message {
        ServerMessage::ClientConnected { client_id, username } => {
            assert_eq!(*client_id, 2);
            assert_eq!(username, "bob");
        }
        _ => panic!("expected ClientConnected"),
    }
}

#[test]
fn chat_and_updates_are_relayed_to_roster() {
    let mut users = Users::new();
    users.handle_client_message(1, join("a"));
    users.handle_client_message(2, join("b"));
    let chat = users.handle_client_message(1, ClientMessage::ChatMessage { message: String::new() });
    assert_eq!(chat.outbound.len(), 1);
    assert_eq!(sorted(chat.outbound[0].recipients.clone()), vec![1, 2]);
    match &chat.outbound[0].message {
        ServerMessage::ChatMessage { client_id, message } => {
            assert_eq!(*client_id, 1);
            assert_eq!(message, "");
        }
        _ => panic!("expected ChatMessage"),
    }
    let upd = users.handle_client_message(
        2,
        ClientMessage::PlayerUpdate { x: 0, y: 0, horizontal: -1000, vertical: 0 },
    );
    assert_eq!(upd.outbound.len(), 1);
    assert_eq!(sorted(upd.outbound[0].recipients.clone()), vec![1, 2]);
    assert!(matches!(
        upd.outbound[0].message,
        ServerMessage::PlayerUpdate { client_id: 2, x: 0, y: 0, horizontal: -1000, vertical: 0 }
    ));
}

#[test]
fn message_from_unregistered_still_relayed() {
    let mut users = Users::new();
    let step = users.handle_client_message(7, ClientMessage::ChatMessage { message: "x".to_string() });
    assert_eq!(step.outbound.len(), 1);
    assert!(step.outbound[0].recipients.is_empty());
}

#[test]
fn inbox_stops_at_disconnect() {
    let mut users = Users::new();
    users.handle_client_message(1, join("a"));
    let inbox = vec![
        join("b"),
        ClientMessage::ChatMessage { message: "bye".to_string() },
        ClientMessage::Disconnect {},
        ClientMessage::ChatMessage { message: "late".to_string() },
        join("again"),
    ];
    let step = users.handle_inbox(2, inbox);
    assert!(step.close_connection);
    assert_eq!(step.outbound.len(), 4);
    assert!(matches!(step.outbound[0].message, ServerMessage::InitClient { client_id: 2, .. }));
    assert!(matches!(step.outbound[1].message, ServerMessage::ClientConnected { client_id: 2, .. }));
    match &step.outbound[2].message {
        ServerMessage::ChatMessage { client_id, message } => {
            assert_eq!(*client_id, 2);
            assert_eq!(message, "bye");
        }
        _ => panic!("expected ChatMessage"),
    }
    assert!(matches!(step.outbound[3].message, ServerMessage::ClientDisconnected { client_id: 2 }));
    assert_eq!(step.outbound[3].recipients, vec![1]);
    assert_eq!(users.roster().ids(), vec![1]);
}

#[test]
fn inbox_without_disconnect_handles_all() {
    let mut users = Users::new();
    let step = users.handle_inbox(
        3,
        vec![join("c"), ClientMessage::PlayerUpdate { x: 1, y: 2, horizontal: 0, vertical: 0 }],
    );
    assert!(!step.close_connection);
    assert_eq!(step.outbound.len(), 3);
    assert_eq!(users.roster().ids(), vec![3]);
    let empty = users.handle_inbox(3, Vec::new());
    assert!(!empty.close_connection);
    assert!(empty.outbound.is_empty());
}
