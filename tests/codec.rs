use multiplayer_core::codec::{decode_client, decode_server, encode_client, encode_server};
use multiplayer_core::protocol::{ClientMessage, ServerMessage};
use multiplayer_core::roster::Roster;

fn client_round_trip(m: ClientMessage) -> ClientMessage {
    decode_client(&encode_client(&m)).unwrap()
}

fn server_round_trip(m: ServerMessage) -> ServerMessage {
    decode_server(&encode_server(&m)).unwrap()
}

#[test]
fn join_round_trips() {
    match client_round_trip(ClientMessage::Join { name: "élan ✓".to_string() }) {
        ClientMessage::Join { name } => assert_eq!(name, "élan ✓"),
        _ => panic!("expected Join"),
    }
}

#[test]
fn empty_chat_round_trips() {
    match client_round_trip(ClientMessage::ChatMessage { message: String::new() }) {
        ClientMessage::ChatMessage { message } => assert_eq!(message, ""),
        _ => panic!("expected ChatMessage"),
    }
}

#[test]
fn disconnect_round_trips() {
    assert!(matches!(client_round_trip(ClientMessage::Disconnect {}), ClientMessage::Disconnect {}));
    assert_eq!(encode_client(&ClientMessage::Disconnect {}), vec![1u8]);
}

#[test]
fn client_update_round_trips() {
    let m = ClientMessage::PlayerUpdate { x: 0, y: 0, horizontal: i32::MIN, vertical: -1 };
    assert!(matches!(
        client_round_trip(m),
        ClientMessage::PlayerUpdate { x: 0, y: 0, horizontal: i32::MIN, vertical: -1 }
    ));
}

#[test]
fn client_bytes_layout() {
    let bytes = encode_client(&ClientMessage::Join { name: "ab".to_string() });
    assert_eq!(bytes, vec![0, 2, 0, 0, 0, 0, 0, 0, 0, 97, 0, 0, 0, 98, 0, 0, 0]);
    let bytes = encode_client(&ClientMessage::PlayerUpdate { x: -1, y: 1, horizontal: 0, vertical: 256 });
    assert_eq!(
        bytes,
        vec![3, 255, 255, 255, 255, 1, 0, 0, 0, 0, 0, 0, 0, 0, 1, 0, 0]
    );
}

#[test]
fn malformed_client_bytes_rejected() {
    assert!(decode_client(&[]).is_none());
    assert!(decode_client(&[9]).is_none());
    assert!(decode_client(&[1, 0]).is_none());
    assert!(decode_client(&[3, 0, 0, 0]).is_none());
    // one char announced, none present
    assert!(decode_client(&[0, 1, 0, 0, 0, 0, 0, 0, 0]).is_none());
    // a surrogate code is no char
    assert!(decode_client(&[2, 1, 0, 0, 0, 0, 0, 0, 0, 0, 0xD8, 0, 0]).is_none());
    // trailing byte
    let mut bytes = encode_client(&ClientMessage::Join { name: "a".to_string() });
    bytes.push(0);
    assert!(decode_client(&bytes).is_none());
}

#[test]
fn server_text_variants_round_trip() {
    match server_round_trip(ServerMessage::ClientConnected { client_id: u64::MAX, username: "bob".to_string() }) {
        ServerMessage::ClientConnected { client_id, username } => {
            assert_eq!(client_id, u64::MAX);
            assert_eq!(username, "bob");
        }
        _ => panic!("expected ClientConnected"),
    }
    match server_round_trip(ServerMessage::ChatMessage { client_id: 7, message: "hi there".to_string() }) {
        ServerMessage::ChatMessage { client_id, message } => {
            assert_eq!(client_id, 7);
            assert_eq!(message, "hi there");
        }
        _ => panic!("expected ChatMessage"),
    }
    assert!(matches!(
        server_round_trip(ServerMessage::ClientDisconnected { client_id: 2 }),
        ServerMessage::ClientDisconnected { client_id: 2 }
    ));
}

#[test]
fn init_client_round_trips() {
    let mut roster = Roster::new();
    roster.insert(1, "alice".to_string());
    roster.insert(42, String::new());
    roster.insert(3, "ø".to_string());
    match server_round_trip(ServerMessage::InitClient { client_id: 42, usernames: roster }) {
        ServerMessage::InitClient { client_id, usernames } => {
            assert_eq!(client_id, 42);
            assert_eq!(usernames.ids(), vec![1, 42, 3]);
            assert_eq!(usernames.get(1), Some("alice".to_string()));
            assert_eq!(usernames.get(42), Some(String::new()));
            assert_eq!(usernames.get(3), Some("ø".to_string()));
        }
        _ => panic!("expected InitClient"),
    }
}

#[test]
fn empty_roster_round_trips() {
    match server_round_trip(ServerMessage::InitClient { client_id: 0, usernames: Roster::new() }) {
        ServerMessage::InitClient { client_id, usernames } => {
            assert_eq!(client_id, 0);
            assert_eq!(usernames.len(), 0);
        }
        _ => panic!("expected InitClient"),
    }
}

#[test]
fn server_update_round_trips() {
    let m = ServerMessage::PlayerUpdate { client_id: 5, x: 3000, y: -3000, horizontal: 0, vertical: i32::MAX };
    assert!(matches!(
        server_round_trip(m),
        ServerMessage::PlayerUpdate { client_id: 5, x: 3000, y: -3000, horizontal: 0, vertical: i32::MAX }
    ));
}

#[test]
fn repeated_roster_id_rejected() {
    let mut roster = Roster::new();
    roster.insert(1, "a".to_string());
    roster.insert(2, "b".to_string());
    let mut bytes = encode_server(&ServerMessage::InitClient { client_id: 1, usernames: roster });
    // the second pair's id starts after tag, id, count and the first pair (8 + 8 + 4 bytes)
    let second = 1 + 8 + 8 + 8 + 8 + 4;
    bytes[second] = 1;
    assert!(decode_server(&bytes).is_none());
    bytes[second] = 2;
    assert!(decode_server(&bytes).is_some());
}

#[test]
fn malformed_server_bytes_rejected() {
    assert!(decode_server(&[]).is_none());
    assert!(decode_server(&[5]).is_none());
    assert!(decode_server(&[1, 0, 0, 0]).is_none());
    assert!(decode_server(&[4, 0]).is_none());
    let mut bytes = encode_server(&ServerMessage::ClientDisconnected { client_id: 3 });
    bytes.push(0);
    assert!(decode_server(&bytes).is_none());
    // a roster that announces more pairs than it holds
    assert!(decode_server(&[3, 1, 0, 0, 0, 0, 0, 0, 0, 1, 0, 0, 0, 0, 0, 0, 0]).is_none());
}
